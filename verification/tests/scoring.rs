use chbslib::entropy::{entropy, times, whole_log2};
use chbslib::info::score;
use chbslib::{get_entropy, get_password_info};

#[test]
fn calculate_entropy_1() {
    let test_1: String = String::from("boring");
    let result_1 = get_entropy(&test_1);
    assert_eq!(result_1, 12);
}

#[test]
fn calculate_entropy_2() {
    let test_1: String = String::from("boringpass");
    let result_1 = get_entropy(&test_1);
    assert_eq!(result_1, 29);
}

#[test]
fn calculate_entropy_2a() {
    let test_1: String = String::from("boringpassqwerty");
    let result_1 = get_entropy(&test_1);
    assert_eq!(result_1, 29);
}

#[test]
fn calculate_entropy_3() {
    let test_1: String = String::from("Boringpass!");
    let result_1 = get_entropy(&test_1);
    assert_eq!(result_1, 37);
}

#[test]
fn calculate_entropy_4() {
    let test_1: String = String::from("LongerPass!thathassomenumbers1$$");
    let result_1 = get_entropy(&test_1);
    assert_eq!(result_1, 159);
}

#[test]
fn entropy_of_short_passwords_is_zero() {
    assert_eq!(get_entropy(""), 0);
    assert_eq!(get_entropy("a"), 0);
    assert_eq!(get_entropy("!"), 0);
    assert_eq!(get_entropy("password"), 0);
    assert_eq!(get_entropy("aaaa"), 0);
    assert_eq!(get_entropy("ab"), 1);
}

#[test]
fn entropy_counts_the_reduced_password() {
    assert_eq!(get_entropy("booring"), 16);
    assert_eq!(get_entropy("boooooooooring"), 16);
    assert_eq!(get_entropy("boringpassword"), 12);
    assert_eq!(get_entropy("abcdef"), 12);
    assert_eq!(get_entropy("abcdeffedcba"), 12);
}

#[test]
fn record_of_a_password() {
    let info = get_password_info("Boringpass!");
    assert_eq!(info.length(), 11);
    assert_eq!(info.original_password(), "Boringpass!");
    assert_eq!(info.reduced_password(), "Boringpass!");
    assert!(!info.has_spaces());
    assert!(info.has_upper());
    assert!(info.has_lower());
    assert!(!info.has_digits());
    assert!(info.has_special());
}

#[test]
fn record_applies_the_reductions_in_order() {
    let info = get_password_info("aaaaaapassword!aaaaaaabc");
    assert_eq!(info.reduced_password(), "aaaabc");
    assert_eq!(info.length(), 6);
    let info = get_password_info("abcqwertyyyyycba");
    assert_eq!(info.reduced_password(), "abc");
    let info = get_password_info("abcqwertyyyyycbx");
    assert_eq!(info.reduced_password(), "abcycbx");
    let info = get_password_info("abpassworddddba");
    assert_eq!(info.reduced_password(), "ab");
    assert_eq!(info.length(), 2);
    let info = get_password_info("abbbba");
    assert_eq!(info.reduced_password(), "ab");
}

#[test]
fn record_takes_flags_from_the_password_as_given() {
    let info = get_password_info("password1 X");
    assert_eq!(info.original_password(), "password1 X");
    assert_eq!(info.reduced_password(), " X");
    assert!(info.has_spaces());
    assert!(info.has_upper());
    assert!(info.has_lower());
    assert!(info.has_digits());
    assert!(info.has_special());
    let info = get_password_info("1234");
    assert_eq!(info.reduced_password(), "");
    assert_eq!(info.length(), 0);
    assert!(info.has_digits());
    assert!(!info.has_special());
    assert_eq!(score(&info), 0);
}

#[test]
fn record_of_empty_password() {
    let info = get_password_info("");
    assert_eq!(info.length(), 0);
    assert_eq!(info.original_password(), "");
    assert_eq!(info.reduced_password(), "");
    assert!(!info.has_spaces() && !info.has_upper() && !info.has_lower());
    assert!(!info.has_digits() && !info.has_special());
}

#[test]
fn length_counts_bytes() {
    let info = get_password_info("a\u{310}e\u{301}");
    assert_eq!(info.reduced_password(), "a\u{310}e\u{301}");
    assert_eq!(info.length(), 6);
    let info = get_password_info("\u{4e2d}\u{6587}");
    assert_eq!(info.length(), 6);
}

#[test]
fn reduced_password_is_never_longer() {
    for sample in ["", "a", "aaaa", "abcba", "xpasswordy", "LongerPass!thathassomenumbers1$$"] {
        let info = get_password_info(sample);
        assert!(info.reduced_password().chars().count() <= sample.chars().count());
    }
}

#[test]
fn length_counts_every_byte() {
    let long = "ab".repeat(20000);
    let info = get_password_info(&long);
    assert_eq!(info.reduced_password().len(), 40000);
    assert_eq!(info.length(), 40000);
    assert_eq!(score(&info), i16::MAX);
    assert_eq!(get_entropy(&long), i16::MAX);
    let longer = "ab".repeat(32768 + 5);
    assert_eq!(get_password_info(&longer).length(), 65546);
    assert_eq!(get_entropy(&longer), i16::MAX);
}

#[test]
fn entropy_stops_at_the_largest_value() {
    let mut below = "ab".repeat(1427);
    below.push('c');
    let info = get_password_info(&below);
    assert_eq!(info.length(), 2855);
    assert_eq!(score(&info), 32761);
    let above = "ab".repeat(1428);
    let info = get_password_info(&above);
    assert_eq!(info.length(), 2856);
    assert_eq!(score(&info), i16::MAX);
    below.push_str(" 1A");
    assert_eq!(get_entropy(&below), i16::MAX);
}

#[test]
fn each_class_adds_one() {
    assert_eq!(get_entropy("cdefghijkmnop"), 44);
    assert_eq!(get_entropy("cdefghijkmno1"), 45);
    assert_eq!(get_entropy("cdefghijkmno!"), 45);
    assert_eq!(get_entropy("cdefghijkmno "), 46);
    assert_eq!(get_entropy("cdefghijkmn1!"), 46);
    assert_eq!(get_entropy("cdefghijkm 1!"), 48);
    assert_eq!(get_entropy("Cdefghijkm 1!"), 49);
    assert_eq!(get_entropy("abc"), 3);
    assert_eq!(get_entropy("ab1"), 4);
    assert_eq!(get_entropy("ab "), 4);
}

#[test]
fn letters_of_both_cases_add_one_together() {
    assert_eq!(get_entropy("cdefghijkmnop"), 44);
    assert_eq!(get_entropy("CDEFGHIJKMNOP"), 44);
    assert_eq!(get_entropy("Cdefghijkmnop"), 45);
    assert_eq!(get_entropy("CdEfGhIjKmNoP"), 45);
    assert_eq!(get_entropy("Cdefghijkmn1!"), 48);
    assert_eq!(get_entropy("ab 1cdefghijk"), 48);
    assert_eq!(get_entropy("aB 1cdefghijk"), 49);
}

#[test]
fn score_of_a_record() {
    assert_eq!(score(&get_password_info("boring")), 12);
    assert_eq!(score(&get_password_info("LongerPass!thathassomenumbers1$$")), 159);
    assert_eq!(score(&get_password_info("")), 0);
    assert_eq!(score(&get_password_info(" 1aA")), 9);
    assert_eq!(score(&get_password_info("abcdef1")), 18);
}

#[test]
fn entropy_from_length_and_score() {
    assert_eq!(entropy(6, 6), 12);
    assert_eq!(entropy(10, 10), 29);
    assert_eq!(entropy(11, 13), 37);
    assert_eq!(entropy(32, 35), 159);
    assert_eq!(entropy(2, 2), 1);
    assert_eq!(entropy(2, 3), 1);
    assert_eq!(entropy(4, 9), 9);
    assert_eq!(entropy(2, 65535), 15);
    assert_eq!(entropy(3, 65535), 31);
}

#[test]
fn entropy_without_terms_is_zero() {
    assert_eq!(entropy(0, 0), 0);
    assert_eq!(entropy(1, 1), 0);
    assert_eq!(entropy(1, 65535), 0);
    assert_eq!(entropy(65535, 0), 0);
    assert_eq!(entropy(2, 1), 0);
    assert_eq!(entropy(65535, 1), 0);
}

#[test]
fn entropy_is_exact_at_whole_values() {
    assert_eq!(entropy(7, 8), 18);
    assert_eq!(entropy(17, 16), 64);
    assert_eq!(entropy(1021, 1024), 10200);
    assert_eq!(entropy(2185, 32768), 32760);
}

#[test]
fn entropy_is_held_to_sixteen_bits() {
    assert_eq!(entropy(2048, 65535), 32751);
    assert_eq!(entropy(2049, 65535), i16::MAX);
    assert_eq!(entropy(2186, 32768), i16::MAX);
    assert_eq!(entropy(32768, 2), i16::MAX);
    assert_eq!(entropy(32769, 2), i16::MAX);
    assert_eq!(entropy(65535, 2), i16::MAX);
    assert_eq!(entropy(65535, 65535), i16::MAX);
}

#[test]
fn whole_logarithms_of_limbs() {
    assert_eq!(whole_log2(&vec![1]), 0);
    assert_eq!(whole_log2(&vec![2]), 1);
    assert_eq!(whole_log2(&vec![3]), 1);
    assert_eq!(whole_log2(&vec![65535]), 15);
    assert_eq!(whole_log2(&vec![0, 1]), 16);
    assert_eq!(whole_log2(&vec![65535, 1]), 16);
    assert_eq!(whole_log2(&vec![0, 0, 32768]), 47);
    assert_eq!(whole_log2(&vec![7, 9, 4]), 34);
}

#[test]
fn products_of_limbs() {
    assert_eq!(times(&vec![1], 6), vec![6]);
    assert_eq!(times(&vec![32768], 2), vec![0, 1]);
    assert_eq!(times(&vec![65535, 65535], 65535), vec![1, 65535, 65534]);
    assert_eq!(times(&vec![0, 1], 3), vec![0, 3]);
    assert_eq!(times(&vec![5, 7], 1), vec![5, 7]);
    assert_eq!(times(&vec![5, 7], 0), vec![0, 0]);
    assert_eq!(times(&Vec::new(), 9), Vec::<u16>::new());
    assert_eq!(times(&times(&times(&vec![1], 1000), 1000), 1000), vec![51712, 15258]);
}


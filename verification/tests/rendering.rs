use chbslib::render::decimal_text;
use chbslib::get_password_info;

#[test]
fn numbers_in_decimal() {
    assert_eq!(decimal_text(0), "0");
    assert_eq!(decimal_text(9), "9");
    assert_eq!(decimal_text(10), "10");
    assert_eq!(decimal_text(1203), "1203");
    assert_eq!(decimal_text(40000), "40000");
    assert_eq!(decimal_text(usize::MAX), usize::MAX.to_string());
}

#[test]
fn record_on_one_line() {
    let info = get_password_info("Boringpass!");
    assert_eq!(
        info.describe(),
        "(Length: 11, Original Password: Boringpass!, Reduced Password: Boringpass!, \
         Has Spaces: false, Has Uppercase: true, Has Lowercase: true, Has Digits: false, \
         Has Special Characters: true)"
    );
}

#[test]
fn record_with_every_flag_on_one_line() {
    let info = get_password_info("aaaa 1Z");
    assert_eq!(
        info.describe(),
        "(Length: 5, Original Password: aaaa 1Z, Reduced Password: aa 1Z, \
         Has Spaces: true, Has Uppercase: true, Has Lowercase: true, Has Digits: true, \
         Has Special Characters: true)"
    );
}

#[test]
fn empty_record_on_one_line() {
    let info = get_password_info("");
    assert_eq!(
        info.describe(),
        "(Length: 0, Original Password: , Reduced Password: , Has Spaces: false, \
         Has Uppercase: false, Has Lowercase: false, Has Digits: false, \
         Has Special Characters: false)"
    );
}

#[test]
fn long_record_on_one_line() {
    let long = "ab".repeat(20000);
    let line = get_password_info(&long).describe();
    assert!(line.starts_with("(Length: 40000, Original Password: abab"));
    assert!(line.ends_with(
        "abab, Has Spaces: false, Has Uppercase: false, Has Lowercase: true, \
         Has Digits: false, Has Special Characters: false)"
    ));
}

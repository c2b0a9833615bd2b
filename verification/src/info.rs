//! The analysis of a password and the score that follows from it.

use crate::classify::{
    has_digit_cluster, has_lower, has_numerical_digits, has_spaces, has_special_characters,
    has_upper, is_lower, is_upper, special_clusters,
};
use crate::entropy::{entropy, entropy_of, lemma_entropy_at_least, saturated};
use crate::palindrome::{clear_palindrome, folded};
use crate::repeats::{remove_more_than_two_repeating_chars, without_long_runs};
use crate::segment::{concat, grapheme_clusters};
use crate::sequences::{common_sequences, remove_common_sequences, without_each};
use crate::subsequence::{is_subsequence, lemma_subsequence_len, lemma_subsequence_trans};
use vstd::prelude::*;
use vstd::utf8::encode_utf8;

verus! {

/// What is recorded about a password. A record is made by
/// [`get_password_info`] and does not change afterwards.
pub struct PasswordInfo {
    length: usize,
    original_password: String,
    reduced_password: String,
    has_spaces: bool,
    has_upper: bool,
    has_lower: bool,
    has_digits: bool,
    has_special: bool,
}

/// The record of a password as plain values.
pub ghost struct Analysis {
    /// The length of the reduced password in bytes.
    pub length: int,
    /// The password as it was given.
    pub original: Seq<char>,
    /// The password after runs were shortened, common sequences removed and a
    /// palindrome cut to its first half.
    pub reduced: Seq<char>,
    /// Whether the password as given holds a space.
    pub has_spaces: bool,
    /// Whether the password as given holds an ASCII capital letter.
    pub has_upper: bool,
    /// Whether the password as given holds an ASCII small letter.
    pub has_lower: bool,
    /// Whether the password as given holds an ASCII digit.
    pub has_digits: bool,
    /// Whether the password as given holds anything but ASCII letters and digits.
    pub has_special: bool,
}

impl View for PasswordInfo {
    type V = Analysis;

    closed spec fn view(&self) -> Analysis {
        Analysis {
            length: self.length as int,
            original: self.original_password@,
            reduced: self.reduced_password@,
            has_spaces: self.has_spaces,
            has_upper: self.has_upper,
            has_lower: self.has_lower,
            has_digits: self.has_digits,
            has_special: self.has_special,
        }
    }
}

/// One for a class that is present, zero for one that is absent.
pub open spec fn bonus(present: bool) -> int {
    if present {
        1
    } else {
        0
    }
}

impl Analysis {
    /// The length plus one for each of: spaces, digits, special characters,
    /// and letters of both cases together.
    pub open spec fn base_score(self) -> int {
        self.length + bonus(self.has_spaces) + bonus(self.has_digits) + bonus(self.has_special)
            + bonus(self.has_upper && self.has_lower)
    }

    /// The entropy that the record scores.
    pub open spec fn entropy(self) -> int {
        entropy_of(self.length, self.base_score())
    }
}

/// The number of bytes of a text in UTF-8.
pub open spec fn byte_length(text: Seq<char>) -> nat {
    encode_utf8(text).len()
}

/// The reduced form of a password: runs of a cluster shortened to two, then
/// the common sequences removed, then a palindrome cut to its first half.
pub open spec fn reduced_form(password: Seq<char>) -> Seq<char> {
    folded(without_each(without_long_runs(password), common_sequences()))
}

/// The record of a password. The flags are taken from the password as given,
/// the length from its reduced form.
pub open spec fn analysis(password: Seq<char>) -> Analysis {
    Analysis {
        length: byte_length(reduced_form(password)) as int,
        original: password,
        reduced: reduced_form(password),
        has_spaces: password.contains(' '),
        has_upper: exists|i: int| 0 <= i < password.len() && is_upper(#[trigger] password[i]),
        has_lower: exists|i: int| 0 <= i < password.len() && is_lower(#[trigger] password[i]),
        has_digits: has_digit_cluster(grapheme_clusters(password)),
        has_special: concat(special_clusters(grapheme_clusters(password))).len() > 0,
    }
}

impl PasswordInfo {
    /// Every record is the record of the password it holds, and its reduced
    /// password is had from that password by leaving characters out.
    #[verifier::type_invariant]
    spec fn is_analysis(&self) -> bool {
        &&& self@ == analysis(self.original_password@)
        &&& is_subsequence(self.reduced_password@, self.original_password@)
    }

    /// The length of the reduced password in bytes.
    pub fn length(&self) -> (length: usize)
        ensures
            length == self@.length,
    {
        self.length
    }

    /// The password as it was given. The record is the record of this
    /// password.
    pub fn original_password(&self) -> (password: &str)
        ensures
            password@ == self@.original,
            self@ == analysis(password@),
    {
        proof {
            use_type_invariant(self);
        }
        self.original_password.as_str()
    }

    /// The reduced password. It is had from the password as given by leaving
    /// characters out.
    pub fn reduced_password(&self) -> (password: &str)
        ensures
            password@ == self@.reduced,
            password@ == reduced_form(self@.original),
            is_subsequence(password@, self@.original),
            password@.len() <= self@.original.len(),
    {
        proof {
            use_type_invariant(self);
            lemma_subsequence_len(self.reduced_password@, self.original_password@);
        }
        self.reduced_password.as_str()
    }

    /// Whether the password as given holds a space.
    pub fn has_spaces(&self) -> (flag: bool)
        ensures
            flag == self@.has_spaces,
    {
        self.has_spaces
    }

    /// Whether the password as given holds an ASCII capital letter.
    pub fn has_upper(&self) -> (flag: bool)
        ensures
            flag == self@.has_upper,
    {
        self.has_upper
    }

    /// Whether the password as given holds an ASCII small letter.
    pub fn has_lower(&self) -> (flag: bool)
        ensures
            flag == self@.has_lower,
    {
        self.has_lower
    }

    /// Whether the password as given holds an ASCII digit.
    pub fn has_digits(&self) -> (flag: bool)
        ensures
            flag == self@.has_digits,
    {
        self.has_digits
    }

    /// Whether the password as given holds anything but ASCII letters and
    /// digits.
    pub fn has_special(&self) -> (flag: bool)
        ensures
            flag == self@.has_special,
    {
        self.has_special
    }
}

/// Reduces the password and records its length and the classes of characters
/// that the password as given draws on.
pub fn get_password_info(password: &str) -> (info: PasswordInfo)
    ensures
        info@ == analysis(password@),
        is_subsequence(info@.reduced, password@),
        info@.reduced.len() <= password@.len(),
{
    let collapsed = remove_more_than_two_repeating_chars(password);
    let stripped = remove_common_sequences(collapsed.as_str());
    let reduced = clear_palindrome(stripped.as_str());
    proof {
        lemma_subsequence_trans(stripped@, collapsed@, password@);
        lemma_subsequence_trans(reduced@, stripped@, password@);
    }
    PasswordInfo {
        length: reduced.as_str().as_bytes().len(),
        original_password: password.to_owned(),
        reduced_password: reduced,
        has_spaces: has_spaces(password),
        has_upper: has_upper(password),
        has_lower: has_lower(password),
        has_digits: has_numerical_digits(password),
        has_special: has_special_characters(password),
    }
}

/// The entropy that a record scores, as 16 bits hold it.
pub fn score(info: &PasswordInfo) -> (bits: i16)
    ensures
        bits == saturated(info@.entropy()),
        bits >= 0,
{
    if info.length <= 1 {
        return 0;
    }
    if info.length > 32768 {
        proof {
            lemma_entropy_at_least(info@.length, info@.base_score());
        }
        return i16::MAX;
    }
    let mut total: u16 = info.length as u16;
    if info.has_spaces {
        total += 1;
    }
    if info.has_digits {
        total += 1;
    }
    if info.has_special {
        total += 1;
    }
    if info.has_upper && info.has_lower {
        total += 1;
    }
    entropy(info.length as u16, total)
}

/// The entropy of a password, as 16 bits hold it.
pub fn get_entropy(password: &str) -> (bits: i16)
    ensures
        bits == saturated(analysis(password@).entropy()),
        bits >= 0,
{
    let info = get_password_info(password);
    score(&info)
}

} // verus!

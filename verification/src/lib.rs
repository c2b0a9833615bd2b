//! Heuristic password strength estimation.
//!
//! A password is first reduced (long runs of one grapheme are shortened,
//! well-known sequences are removed, a palindrome is cut to its first half),
//! then scored from the reduced length and the character classes it uses.

pub mod classify;
pub mod entropy;
pub mod info;
pub mod palindrome;
pub mod render;
pub mod repeats;
pub mod segment;
pub mod sequences;
pub mod subsequence;
pub mod text;

pub use crate::classify::{has_numerical_digits, has_special_characters, remove_standard_characters};
pub use crate::info::{get_entropy, get_password_info, PasswordInfo};
pub use crate::palindrome::clear_palindrome;
pub use crate::repeats::remove_more_than_two_repeating_chars;
pub use crate::sequences::remove_common_sequences;

//! A record written out for a reader.

use crate::info::{Analysis, PasswordInfo};
use crate::text::text_of;
use vstd::prelude::*;

verus! {

/// The character for a digit from 0 to 9.
pub open spec fn digit_char(digit: int) -> char {
    (48 + digit) as char
}

/// A natural number in decimal notation.
pub open spec fn digits(n: nat) -> Seq<char>
    decreases n,
{
    if n < 10 {
        seq![digit_char(n as int)]
    } else {
        digits(n / 10).push(digit_char((n % 10) as int))
    }
}

/// The word for a flag.
pub open spec fn truth(flag: bool) -> Seq<char> {
    if flag {
        "true"@
    } else {
        "false"@
    }
}

/// The record on one line: every field with its label, in the order of the
/// fields.
pub open spec fn rendering(record: Analysis) -> Seq<char> {
    "(Length: "@ + digits(record.length as nat) + ", Original Password: "@ + record.original
        + ", Reduced Password: "@ + record.reduced + ", Has Spaces: "@ + truth(record.has_spaces)
        + ", Has Uppercase: "@ + truth(record.has_upper) + ", Has Lowercase: "@ + truth(
        record.has_lower,
    ) + ", Has Digits: "@ + truth(record.has_digits) + ", Has Special Characters: "@ + truth(
        record.has_special,
    ) + ")"@
}

/// Appends the decimal notation of a number to the characters.
fn push_digits(out: &mut Vec<char>, n: usize)
    ensures
        final(out)@ == old(out)@ + digits(n as nat),
    decreases n,
{
    if n >= 10 {
        push_digits(out, n / 10);
    }
    let digit: u8 = (n % 10) as u8;
    out.push((48 + digit) as char);
    proof {
        if n >= 10 {
            assert(final(out)@ =~= old(out)@ + digits((n / 10) as nat).push(
                digit_char((n % 10) as int),
            ));
        } else {
            assert(final(out)@ =~= old(out)@ + seq![digit_char(n as int)]);
        }
    }
}

/// The decimal notation of a number.
pub fn decimal_text(n: usize) -> (text: String)
    ensures
        text@ == digits(n as nat),
{
    let mut out: Vec<char> = Vec::new();
    push_digits(&mut out, n);
    proof {
        assert(Seq::<char>::empty() + digits(n as nat) =~= digits(n as nat));
    }
    text_of(&out)
}

/// The word for a flag.
fn truth_text(flag: bool) -> (word: &'static str)
    ensures
        word@ == truth(flag),
{
    if flag {
        "true"
    } else {
        "false"
    }
}

impl PasswordInfo {
    /// Writes the record on one line.
    pub fn describe(&self) -> (line: String)
        ensures
            line@ == rendering(self@),
    {
        let mut line = String::new();
        line.append("(Length: ");
        line.append(decimal_text(self.length()).as_str());
        line.append(", Original Password: ");
        line.append(self.original_password());
        line.append(", Reduced Password: ");
        line.append(self.reduced_password());
        line.append(", Has Spaces: ");
        line.append(truth_text(self.has_spaces()));
        line.append(", Has Uppercase: ");
        line.append(truth_text(self.has_upper()));
        line.append(", Has Lowercase: ");
        line.append(truth_text(self.has_lower()));
        line.append(", Has Digits: ");
        line.append(truth_text(self.has_digits()));
        line.append(", Has Special Characters: ");
        line.append(truth_text(self.has_special()));
        line.append(")");
        proof {
            assert(line@ =~= rendering(self@));
        }
        line
    }
}

} // verus!

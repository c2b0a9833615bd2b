//! Removing well-known sequences (keyboard walks, leaked passwords) from a text.

use crate::subsequence::{
    is_subsequence, lemma_subsequence_append, lemma_subsequence_len, lemma_subsequence_refl,
    lemma_subsequence_trans,
};
use crate::text::{chars_of, text_of};
use vstd::prelude::*;

verus! {

/// The text with every occurrence of the pattern taken out. Occurrences are
/// found from left to right and do not overlap; what remains is not searched
/// again. An empty pattern takes nothing out.
pub open spec fn without(text: Seq<char>, pattern: Seq<char>) -> Seq<char>
    decreases text.len(),
{
    if pattern.len() == 0 || text.len() < pattern.len() {
        text
    } else if text.subrange(0, pattern.len() as int) == pattern {
        without(text.skip(pattern.len() as int), pattern)
    } else {
        seq![text[0]] + without(text.skip(1), pattern)
    }
}

/// The text after the patterns have been taken out one after another, each
/// from what the one before it left.
pub open spec fn without_each(text: Seq<char>, patterns: Seq<Seq<char>>) -> Seq<char>
    decreases patterns.len(),
{
    if patterns.len() == 0 {
        text
    } else {
        without(without_each(text, patterns.drop_last()), patterns.last())
    }
}

/// The sequences that are taken out of a password, in the order in which they
/// are taken out. Matching is exact, so upper and lower case spellings are
/// separate entries.
pub open spec fn common_sequences() -> Seq<Seq<char>> {
    seq![
        "asdf"@,
        "jkl;"@,
        ";lkj"@,
        "fdsa"@,
        "asdfghjkl"@,
        "asdf ;lkj"@,
        "0123456789"@,
        "qwertyuiop"@,
        "qwerty"@,
        "zxcvbnm"@,
        "abcdefghijklmnopqrstuvwxyz"@,
        "password1"@,
        "password!"@,
        "password"@,
        "Password"@,
        "assword"@,
        "picture1"@,
        "Picture1"@,
        "picture"@,
        "Picture"@,
        "asdf"@,
        "rty567"@,
        "senha"@,
        "abc123"@,
        "Million2"@,
        "000000"@,
        "1234"@,
        "iloveyou"@,
        "aaron431"@,
        "qqww1122"@,
        "123123"@,
    ]
}

/// What is left when a pattern is taken out is a subsequence of the text.
pub proof fn lemma_without_subsequence(text: Seq<char>, pattern: Seq<char>)
    ensures
        is_subsequence(without(text, pattern), text),
    decreases text.len(),
{
    let m = pattern.len() as int;
    if pattern.len() == 0 || text.len() < pattern.len() {
        lemma_subsequence_refl(text);
    } else if text.subrange(0, m) == pattern {
        lemma_without_subsequence(text.skip(m), pattern);
        lemma_subsequence_append(
            Seq::empty(),
            text.subrange(0, m),
            without(text.skip(m), pattern),
            text.skip(m),
        );
        assert(Seq::<char>::empty() + without(text.skip(m), pattern) =~= without(
            text.skip(m),
            pattern,
        ));
        assert(text.subrange(0, m) + text.skip(m) =~= text);
    } else {
        lemma_without_subsequence(text.skip(1), pattern);
        lemma_subsequence_refl(seq![text[0]]);
        lemma_subsequence_append(
            seq![text[0]],
            seq![text[0]],
            without(text.skip(1), pattern),
            text.skip(1),
        );
        assert(seq![text[0]] + text.skip(1) =~= text);
    }
}

/// What is left when a list of patterns is taken out is a subsequence of the
/// text.
pub proof fn lemma_without_each_subsequence(text: Seq<char>, patterns: Seq<Seq<char>>)
    ensures
        is_subsequence(without_each(text, patterns), text),
    decreases patterns.len(),
{
    if patterns.len() > 0 {
        let before = without_each(text, patterns.drop_last());
        lemma_without_each_subsequence(text, patterns.drop_last());
        lemma_without_subsequence(before, patterns.last());
        lemma_subsequence_trans(without(before, patterns.last()), before, text);
    } else {
        lemma_subsequence_refl(text);
    }
}

/// Whether the pattern stands in the text at the given position.
fn occurs_at(text: &Vec<char>, at: usize, pattern: &Vec<char>) -> (found: bool)
    requires
        at + pattern.len() <= text.len(),
    ensures
        found == (text@.subrange(at as int, at + pattern.len()) == pattern@),
{
    let mut j: usize = 0;
    while j < pattern.len()
        invariant
            j <= pattern.len(),
            at + pattern.len() <= text.len(),
            forall|k: int| 0 <= k < j ==> text@[at + k] == pattern@[k],
        decreases pattern.len() - j,
    {
        if text[at + j] != pattern[j] {
            proof {
                assert(text@.subrange(at as int, at + pattern.len())[j as int] != pattern@[j as int]);
            }
            return false;
        }
        j += 1;
    }
    proof {
        assert(text@.subrange(at as int, at + pattern.len()) =~= pattern@);
    }
    true
}

/// Removes every occurrence of one pattern from the text.
pub fn remove_sequence(text: &Vec<char>, pattern: &Vec<char>) -> (stripped: Vec<char>)
    ensures
        stripped@ == without(text@, pattern@),
{
    let mut stripped: Vec<char> = Vec::new();
    let mut i: usize = 0;
    proof {
        assert(text@.skip(0) =~= text@);
        assert(stripped@ + without(text@, pattern@) =~= without(text@, pattern@));
    }
    while i < text.len()
        invariant
            i <= text.len(),
            stripped@ + without(text@.skip(i as int), pattern@) == without(text@, pattern@),
        decreases text.len() - i,
    {
        let ghost rest = text@.skip(i as int);
        let ghost m = pattern@.len() as int;
        if pattern.len() > 0 && text.len() - i >= pattern.len() && occurs_at(text, i, pattern) {
            proof {
                assert(rest.subrange(0, m) =~= text@.subrange(i as int, i + m));
                assert(rest.skip(m) =~= text@.skip(i + m));
            }
            i += pattern.len();
        } else {
            proof {
                assert(rest.skip(1) =~= text@.skip(i + 1));
                assert(rest =~= seq![rest[0]] + rest.skip(1));
                if m == 0 {
                    assert(without(rest.skip(1), pattern@) == rest.skip(1));
                } else if rest.len() < m {
                    assert(without(rest.skip(1), pattern@) == rest.skip(1));
                } else {
                    assert(rest.subrange(0, m) =~= text@.subrange(i as int, i + m));
                }
                assert(without(rest, pattern@) == seq![rest[0]] + without(rest.skip(1), pattern@));
                assert(stripped@.push(rest[0]) + without(rest.skip(1), pattern@) =~= stripped@ + (
                seq![rest[0]] + without(rest.skip(1), pattern@)));
            }
            stripped.push(text[i]);
            i += 1;
        }
    }
    proof {
        assert(text@.skip(text.len() as int) =~= Seq::<char>::empty());
        assert(stripped@ + Seq::<char>::empty() =~= stripped@);
    }
    stripped
}

/// The list of common sequences, for the executable code.
fn sequence_list() -> (patterns: Vec<&'static str>)
    ensures
        patterns@.map_values(|p: &'static str| p@) == common_sequences(),
{
    let patterns = vec![
        "asdf",
        "jkl;",
        ";lkj",
        "fdsa",
        "asdfghjkl",
        "asdf ;lkj",
        "0123456789",
        "qwertyuiop",
        "qwerty",
        "zxcvbnm",
        "abcdefghijklmnopqrstuvwxyz",
        "password1",
        "password!",
        "password",
        "Password",
        "assword",
        "picture1",
        "Picture1",
        "picture",
        "Picture",
        "asdf",
        "rty567",
        "senha",
        "abc123",
        "Million2",
        "000000",
        "1234",
        "iloveyou",
        "aaron431",
        "qqww1122",
        "123123",
    ];
    proof {
        assert(patterns@.map_values(|p: &'static str| p@) =~= common_sequences());
    }
    patterns
}

/// Removes the common sequences from a password: each of them, in the order
/// of the list, from what the ones before it left.
pub fn remove_common_sequences(password: &str) -> (stripped: String)
    ensures
        stripped@ == without_each(password@, common_sequences()),
        is_subsequence(stripped@, password@),
        stripped@.len() <= password@.len(),
{
    let patterns = sequence_list();
    let ghost views = patterns@.map_values(|p: &'static str| p@);
    let mut stripped = chars_of(password);
    let mut i: usize = 0;
    while i < patterns.len()
        invariant
            i <= patterns.len(),
            views == patterns@.map_values(|p: &'static str| p@),
            stripped@ == without_each(password@, views.take(i as int)),
        decreases patterns.len() - i,
    {
        proof {
            assert(views.take(i + 1).drop_last() =~= views.take(i as int));
            assert(views.take(i + 1).last() == patterns@[i as int]@);
        }
        let pattern = chars_of(patterns[i]);
        stripped = remove_sequence(&stripped, &pattern);
        i += 1;
    }
    proof {
        assert(views.take(patterns.len() as int) =~= views);
        lemma_without_each_subsequence(password@, common_sequences());
        lemma_subsequence_len(stripped@, password@);
    }
    text_of(&stripped)
}

} // verus!

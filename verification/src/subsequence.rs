//! Texts that are had from another text by leaving characters out.

use vstd::prelude::*;

verus! {

/// Whether `part` can be had from `whole` by leaving characters out, the
/// rest staying in order.
pub open spec fn is_subsequence(part: Seq<char>, whole: Seq<char>) -> bool
    decreases whole.len(),
{
    if part.len() == 0 {
        true
    } else if whole.len() == 0 {
        false
    } else {
        ||| (part.last() == whole.last() && is_subsequence(part.drop_last(), whole.drop_last()))
        ||| is_subsequence(part, whole.drop_last())
    }
}

/// Every text is a subsequence of itself.
pub proof fn lemma_subsequence_refl(text: Seq<char>)
    ensures
        is_subsequence(text, text),
    decreases text.len(),
{
    if text.len() > 0 {
        lemma_subsequence_refl(text.drop_last());
    }
}

/// A subsequence is never longer than the text it is taken from.
pub proof fn lemma_subsequence_len(part: Seq<char>, whole: Seq<char>)
    requires
        is_subsequence(part, whole),
    ensures
        part.len() <= whole.len(),
    decreases whole.len(),
{
    if part.len() > 0 && whole.len() > 0 {
        if part.last() == whole.last() && is_subsequence(part.drop_last(), whole.drop_last()) {
            lemma_subsequence_len(part.drop_last(), whole.drop_last());
        } else {
            lemma_subsequence_len(part, whole.drop_last());
        }
    }
}

/// Subsequences written one after another are a subsequence of their wholes
/// written one after another.
pub proof fn lemma_subsequence_append(
    part: Seq<char>,
    whole: Seq<char>,
    more_part: Seq<char>,
    more_whole: Seq<char>,
)
    requires
        is_subsequence(part, whole),
        is_subsequence(more_part, more_whole),
    ensures
        is_subsequence(part + more_part, whole + more_whole),
    decreases more_whole.len(),
{
    if more_whole.len() == 0 {
        assert(more_part.len() == 0);
        assert(part + more_part =~= part);
        assert(whole + more_whole =~= whole);
    } else {
        let joined = whole + more_whole;
        assert(joined.drop_last() =~= whole + more_whole.drop_last());
        assert(joined.last() == more_whole.last());
        if more_part.len() > 0 && more_part.last() == more_whole.last() && is_subsequence(
            more_part.drop_last(),
            more_whole.drop_last(),
        ) {
            lemma_subsequence_append(part, whole, more_part.drop_last(), more_whole.drop_last());
            assert((part + more_part).drop_last() =~= part + more_part.drop_last());
            assert((part + more_part).last() == more_part.last());
        } else {
            lemma_subsequence_append(part, whole, more_part, more_whole.drop_last());
        }
    }
}

/// A subsequence of a subsequence is a subsequence.
pub proof fn lemma_subsequence_trans(part: Seq<char>, middle: Seq<char>, whole: Seq<char>)
    requires
        is_subsequence(part, middle),
        is_subsequence(middle, whole),
    ensures
        is_subsequence(part, whole),
    decreases whole.len(), middle.len(),
{
    if part.len() == 0 {
    } else if whole.len() == 0 {
        assert(middle.len() == 0);
    } else if middle.len() > 0 && middle.last() == whole.last() && is_subsequence(
        middle.drop_last(),
        whole.drop_last(),
    ) {
        if part.last() == middle.last() && is_subsequence(part.drop_last(), middle.drop_last()) {
            lemma_subsequence_trans(part.drop_last(), middle.drop_last(), whole.drop_last());
        } else {
            lemma_subsequence_trans(part, middle.drop_last(), whole.drop_last());
        }
    } else {
        lemma_subsequence_trans(part, middle, whole.drop_last());
    }
}

} // verus!

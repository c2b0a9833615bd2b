//! Cutting a palindrome to its first half.

use crate::segment::{concat, grapheme_clusters, join, split_graphemes, texts};
use crate::subsequence::{
    is_subsequence, lemma_subsequence_append, lemma_subsequence_len, lemma_subsequence_refl,
};
use vstd::prelude::*;

verus! {

/// The lower-case form of an ASCII capital letter; any other character itself.
pub open spec fn lower_char(c: char) -> char {
    if 'A' <= c && c <= 'Z' {
        ((c as u8) + 32) as char
    } else {
        c
    }
}

/// The text with every ASCII capital letter replaced by its lower-case form.
pub open spec fn ascii_lowercase(text: Seq<char>) -> Seq<char> {
    text.map_values(|c: char| lower_char(c))
}

/// Whether the text reads the same in both directions when case is ignored:
/// its lower-case form, written cluster by cluster from the last to the first,
/// is that lower-case form again.
pub open spec fn is_palindrome(text: Seq<char>) -> bool {
    concat(grapheme_clusters(ascii_lowercase(text)).reverse()) == ascii_lowercase(text)
}

/// The clusters of the first half of a sequence of clusters. Of an odd number
/// of clusters the middle one is left out.
pub open spec fn first_half(clusters: Seq<Seq<char>>) -> Seq<Seq<char>> {
    clusters.take((clusters.len() / 2) as int)
}

/// A palindrome's first half, in its own case; any other text unchanged.
pub open spec fn folded(text: Seq<char>) -> Seq<char> {
    if is_palindrome(text) {
        concat(first_half(grapheme_clusters(text)))
    } else {
        text
    }
}

/// Of a palindrome the first half of the clusters is kept: half as many as
/// the text has, rounded down.
pub proof fn lemma_palindrome_is_halved(text: Seq<char>)
    requires
        is_palindrome(text),
    ensures
        folded(text) == concat(first_half(grapheme_clusters(text))),
        first_half(grapheme_clusters(text)).len() == grapheme_clusters(text).len() / 2,
{
}

/// A text that is no palindrome is left exactly as it is, its case included.
pub proof fn lemma_other_text_is_kept(text: Seq<char>)
    requires
        !is_palindrome(text),
    ensures
        folded(text) == text,
{
}

/// A part taken from the front of a sequence of clusters spells a subsequence
/// of what the whole spells.
pub proof fn lemma_concat_take_subsequence(clusters: Seq<Seq<char>>, n: int)
    requires
        0 <= n <= clusters.len(),
    ensures
        is_subsequence(concat(clusters.take(n)), concat(clusters)),
    decreases clusters.len(),
{
    if n < clusters.len() {
        assert(clusters.drop_last().take(n) =~= clusters.take(n));
        lemma_concat_take_subsequence(clusters.drop_last(), n);
        lemma_subsequence_append(
            concat(clusters.take(n)),
            concat(clusters.drop_last()),
            Seq::empty(),
            clusters.last(),
        );
        assert(concat(clusters.take(n)) + Seq::<char>::empty() =~= concat(clusters.take(n)));
    } else {
        assert(clusters.take(n) =~= clusters);
        lemma_subsequence_refl(concat(clusters));
    }
}

/// Calls `String::make_ascii_lowercase`, which replaces the letters 'A' to 'Z'
/// by 'a' to 'z' in place and leaves every other character as it is.
#[verifier::external_body]
fn make_ascii_lowercase(text: &mut String)
    ensures
        final(text)@ == ascii_lowercase(old(text)@),
{
    text.make_ascii_lowercase();
}

/// The clusters in reverse order.
pub fn reversed(clusters: &Vec<String>) -> (mirror: Vec<String>)
    ensures
        texts(mirror@) == texts(clusters@).reverse(),
{
    let mut mirror: Vec<String> = Vec::new();
    let n = clusters.len();
    let mut i: usize = 0;
    while i < n
        invariant
            i <= n,
            n == clusters.len(),
            mirror.len() == i,
            forall|k: int| 0 <= k < i ==> mirror@[k]@ == clusters@[n - 1 - k]@,
        decreases n - i,
    {
        mirror.push(clusters[n - 1 - i].clone());
        i += 1;
    }
    proof {
        assert(texts(mirror@) =~= texts(clusters@).reverse());
    }
    mirror
}

/// The first half of the clusters: as many as half their number, rounded down.
pub fn leading_half(clusters: &Vec<String>) -> (half: Vec<String>)
    ensures
        texts(half@) == first_half(texts(clusters@)),
        half@.len() == clusters@.len() / 2,
{
    let mut half: Vec<String> = Vec::new();
    let n = clusters.len() / 2;
    let mut i: usize = 0;
    while i < n
        invariant
            i <= n,
            n == clusters.len() / 2,
            half.len() == i,
            forall|k: int| 0 <= k < i ==> half@[k]@ == clusters@[k]@,
        decreases n - i,
    {
        half.push(clusters[i].clone());
        i += 1;
    }
    proof {
        assert(texts(half@) =~= first_half(texts(clusters@)));
    }
    half
}

/// Decides from a text in lower case and its clusters whether the text is a
/// palindrome: whether the clusters, written from the last to the first, spell
/// the text.
pub fn reads_same_reversed(lowered: &String, lowered_clusters: &Vec<String>) -> (same: bool)
    ensures
        same == (concat(texts(lowered_clusters@).reverse()) == lowered@),
{
    let mirror = join(&reversed(lowered_clusters));
    mirror == *lowered
}

/// Replaces a password that is a palindrome, case ignored, by its first half;
/// any other password is returned as it is.
pub fn clear_palindrome(password: &str) -> (reduced: String)
    ensures
        reduced@ == folded(password@),
        !is_palindrome(password@) ==> reduced@ == password@,
        is_subsequence(reduced@, password@),
        reduced@.len() <= password@.len(),
{
    let mut lowered = password.to_owned();
    make_ascii_lowercase(&mut lowered);
    let lowered_clusters = split_graphemes(lowered.as_str());
    if !reads_same_reversed(&lowered, &lowered_clusters) {
        proof {
            lemma_subsequence_refl(password@);
        }
        return password.to_owned();
    }
    let clusters = split_graphemes(password);
    proof {
        lemma_concat_take_subsequence(texts(clusters@), (clusters@.len() / 2) as int);
        lemma_subsequence_len(concat(first_half(texts(clusters@))), password@);
    }
    join(&leading_half(&clusters))
}

} // verus!

//! Splitting text into grapheme clusters, and joining clusters back into text.

use unicode_segmentation::UnicodeSegmentation;
use vstd::prelude::*;

verus! {

/// The extended grapheme clusters of a text, in order, as the Unicode
/// segmentation rules delimit them.
pub uninterp spec fn grapheme_clusters(text: Seq<char>) -> Seq<Seq<char>>;

/// The text that a sequence of clusters spells when written one after another.
pub open spec fn concat(clusters: Seq<Seq<char>>) -> Seq<char>
    decreases clusters.len(),
{
    if clusters.len() == 0 {
        Seq::empty()
    } else {
        concat(clusters.drop_last()) + clusters.last()
    }
}

/// The texts held by a vector of strings.
pub open spec fn texts(clusters: Seq<String>) -> Seq<Seq<char>> {
    clusters.map_values(|s: String| s@)
}

/// Calls `UnicodeSegmentation::graphemes` with extended clusters switched on
/// and copies each cluster into a `String`.
///
/// The contract names the clusters that come back and claims two things of
/// them. Written one after another they spell the text again: the iterator
/// hands out consecutive slices of its input, from the first byte to the last.
/// And none of them is empty: the iterator moves past at least one character
/// before it ends a cluster.
#[verifier::external_body]
pub(crate) fn split_graphemes(text: &str) -> (clusters: Vec<String>)
    ensures
        texts(clusters@) == grapheme_clusters(text@),
        concat(texts(clusters@)) == text@,
        forall|i: int| 0 <= i < clusters@.len() ==> (#[trigger] clusters@[i])@.len() > 0,
{
    let mut clusters: Vec<String> = Vec::new();
    for cluster in text.graphemes(true) {
        clusters.push(cluster.to_owned());
    }
    clusters
}

/// Writes the clusters one after another into a new string.
pub fn join(clusters: &Vec<String>) -> (text: String)
    ensures
        text@ == concat(texts(clusters@)),
{
    let mut text = String::new();
    let mut i: usize = 0;
    while i < clusters.len()
        invariant
            i <= clusters.len(),
            text@ == concat(texts(clusters@.take(i as int))),
        decreases clusters.len() - i,
    {
        proof {
            let next = clusters@.take(i + 1);
            assert(next.drop_last() == clusters@.take(i as int));
            assert(texts(next).drop_last() == texts(clusters@.take(i as int)));
            assert(texts(next).last() == clusters@[i as int]@);
        }
        text.append(clusters[i].as_str());
        i += 1;
    }
    proof {
        assert(clusters@.take(clusters.len() as int) == clusters@);
    }
    text
}

} // verus!

//! Shortening runs of one repeated grapheme cluster to two.

use crate::segment::{concat, grapheme_clusters, join, split_graphemes, texts};
use crate::subsequence::{
    is_subsequence, lemma_subsequence_append, lemma_subsequence_len, lemma_subsequence_refl,
};
use vstd::prelude::*;

verus! {

/// Whether the cluster at `i` is the third or a later one of a run: the two
/// clusters before it are the same as it.
pub open spec fn is_excess(clusters: Seq<Seq<char>>, i: int) -> bool {
    2 <= i < clusters.len() && clusters[i - 1] == clusters[i] && clusters[i - 2] == clusters[i]
}

/// The clusters that are left when every excess cluster is taken out, so that
/// a run of three or more becomes a run of two.
pub open spec fn collapse_runs(clusters: Seq<Seq<char>>) -> Seq<Seq<char>>
    decreases clusters.len(),
{
    if clusters.len() == 0 {
        Seq::empty()
    } else if is_excess(clusters, clusters.len() - 1) {
        collapse_runs(clusters.drop_last())
    } else {
        collapse_runs(clusters.drop_last()).push(clusters.last())
    }
}

/// The text with every run of three or more equal clusters shortened to two.
pub open spec fn without_long_runs(text: Seq<char>) -> Seq<char> {
    concat(collapse_runs(grapheme_clusters(text)))
}

/// Whether no three neighbouring clusters are the same.
pub open spec fn has_no_triple(clusters: Seq<Seq<char>>) -> bool {
    forall|i: int| !is_excess(clusters, i)
}

/// The last two clusters that are left are the last two clusters of the input.
pub proof fn lemma_collapse_tail(clusters: Seq<Seq<char>>)
    ensures
        clusters.len() >= 1 ==> collapse_runs(clusters).len() >= 1 && collapse_runs(
            clusters,
        ).last() == clusters.last(),
        clusters.len() >= 2 ==> collapse_runs(clusters).len() >= 2 && collapse_runs(
            clusters,
        )[collapse_runs(clusters).len() - 2] == clusters[clusters.len() - 2],
    decreases clusters.len(),
{
    if clusters.len() >= 1 {
        lemma_collapse_tail(clusters.drop_last());
    }
}

/// Collapsing never yields more clusters than it was given.
pub proof fn lemma_collapse_len(clusters: Seq<Seq<char>>)
    ensures
        collapse_runs(clusters).len() <= clusters.len(),
    decreases clusters.len(),
{
    if clusters.len() >= 1 {
        lemma_collapse_len(clusters.drop_last());
    }
}

/// What collapsing leaves holds no run of three.
pub proof fn lemma_collapse_has_no_triple(clusters: Seq<Seq<char>>)
    ensures
        has_no_triple(collapse_runs(clusters)),
    decreases clusters.len(),
{
    if clusters.len() >= 1 {
        let shorter = clusters.drop_last();
        lemma_collapse_has_no_triple(shorter);
        lemma_collapse_tail(shorter);
        lemma_collapse_len(shorter);
        let before = collapse_runs(shorter);
        let after = collapse_runs(clusters);
        assert forall|i: int| !is_excess(after, i) by {
            if is_excess(after, i) {
                if i < before.len() {
                    assert(is_excess(before, i));
                } else {
                    assert(is_excess(clusters, clusters.len() - 1));
                }
            }
        }
    }
}

/// Clusters without a run of three are left as they are.
pub proof fn lemma_collapse_fixed(clusters: Seq<Seq<char>>)
    requires
        has_no_triple(clusters),
    ensures
        collapse_runs(clusters) == clusters,
    decreases clusters.len(),
{
    if clusters.len() >= 1 {
        let shorter = clusters.drop_last();
        assert forall|i: int| !is_excess(shorter, i) by {
            if is_excess(shorter, i) {
                assert(is_excess(clusters, i));
            }
        }
        lemma_collapse_fixed(shorter);
        assert(!is_excess(clusters, clusters.len() - 1));
        assert(shorter.push(clusters.last()) =~= clusters);
    }
}

/// Collapsing twice gives what collapsing once gives.
pub proof fn lemma_collapse_idempotent(clusters: Seq<Seq<char>>)
    ensures
        collapse_runs(collapse_runs(clusters)) == collapse_runs(clusters),
{
    lemma_collapse_has_no_triple(clusters);
    lemma_collapse_fixed(collapse_runs(clusters));
}

/// Shortening the runs of a text twice gives what shortening them once gives,
/// wherever the shortened text falls into the clusters that were kept.
pub proof fn lemma_without_long_runs_idempotent(text: Seq<char>)
    requires
        grapheme_clusters(without_long_runs(text)) == collapse_runs(grapheme_clusters(text)),
    ensures
        without_long_runs(without_long_runs(text)) == without_long_runs(text),
{
    lemma_collapse_idempotent(grapheme_clusters(text));
}

/// The text that collapsing leaves is a subsequence of the text it was given.
pub proof fn lemma_collapse_text_subsequence(clusters: Seq<Seq<char>>)
    ensures
        is_subsequence(concat(collapse_runs(clusters)), concat(clusters)),
    decreases clusters.len(),
{
    if clusters.len() >= 1 {
        let kept = collapse_runs(clusters.drop_last());
        lemma_collapse_text_subsequence(clusters.drop_last());
        if is_excess(clusters, clusters.len() - 1) {
            lemma_subsequence_append(
                concat(kept),
                concat(clusters.drop_last()),
                Seq::empty(),
                clusters.last(),
            );
            assert(concat(kept) + Seq::<char>::empty() =~= concat(kept));
        } else {
            lemma_subsequence_refl(clusters.last());
            lemma_subsequence_append(
                concat(kept),
                concat(clusters.drop_last()),
                clusters.last(),
                clusters.last(),
            );
            assert(kept.push(clusters.last()).drop_last() =~= kept);
        }
    }
}

/// Takes the excess clusters out of a sequence of clusters.
pub fn collapse_repeats(clusters: &Vec<String>) -> (kept: Vec<String>)
    ensures
        texts(kept@) == collapse_runs(texts(clusters@)),
        kept@.len() <= clusters@.len(),
        has_no_triple(texts(kept@)),
{
    let mut kept: Vec<String> = Vec::new();
    let mut i: usize = 0;
    while i < clusters.len()
        invariant
            i <= clusters.len(),
            texts(kept@) == collapse_runs(texts(clusters@).take(i as int)),
        decreases clusters.len() - i,
    {
        let ghost seen = texts(clusters@).take(i as int);
        let ghost next = texts(clusters@).take(i + 1);
        proof {
            assert(next.drop_last() =~= seen);
            assert(next.last() == clusters@[i as int]@);
            lemma_collapse_tail(seen);
        }
        let cluster = &clusters[i];
        let k = kept.len();
        if k >= 2 && kept[k - 1] == *cluster && kept[k - 2] == *cluster {
            proof {
                lemma_collapse_len(seen);
                assert(texts(kept@)[k - 1] == kept@[k - 1]@);
                assert(texts(kept@)[k - 2] == kept@[k - 2]@);
                assert(is_excess(next, i as int));
            }
        } else {
            proof {
                if is_excess(next, i as int) {
                    assert(texts(kept@)[k - 1] == kept@[k - 1]@);
                    assert(texts(kept@)[k - 2] == kept@[k - 2]@);
                }
                assert(texts(kept@.push(*cluster)) =~= texts(kept@).push(cluster@));
            }
            kept.push(cluster.clone());
        }
        i += 1;
    }
    proof {
        assert(texts(clusters@).take(clusters.len() as int) =~= texts(clusters@));
        lemma_collapse_len(texts(clusters@));
        lemma_collapse_has_no_triple(texts(clusters@));
    }
    kept
}

/// Shortens every run of three or more equal grapheme clusters in the password
/// to two.
pub fn remove_more_than_two_repeating_chars(password: &str) -> (reduced: String)
    ensures
        reduced@ == without_long_runs(password@),
        is_subsequence(reduced@, password@),
        reduced@.len() <= password@.len(),
{
    let clusters = split_graphemes(password);
    let kept = collapse_repeats(&clusters);
    proof {
        lemma_collapse_text_subsequence(texts(clusters@));
        lemma_subsequence_len(concat(collapse_runs(texts(clusters@))), password@);
    }
    join(&kept)
}

} // verus!

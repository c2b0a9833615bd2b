//! The character classes that a password draws on.

use crate::segment::{concat, grapheme_clusters, join, split_graphemes, texts};
use crate::text::chars_of;
use vstd::prelude::*;

verus! {

/// An ASCII capital letter.
pub open spec fn is_upper(c: char) -> bool {
    'A' <= c && c <= 'Z'
}

/// An ASCII small letter.
pub open spec fn is_lower(c: char) -> bool {
    'a' <= c && c <= 'z'
}

/// An ASCII digit.
pub open spec fn is_digit(c: char) -> bool {
    '0' <= c && c <= '9'
}

/// A cluster that is one ASCII digit and nothing else.
pub open spec fn is_digit_cluster(cluster: Seq<char>) -> bool {
    cluster.len() == 1 && is_digit(cluster[0])
}

/// A cluster that is one ASCII letter or digit and nothing else.
pub open spec fn is_standard_cluster(cluster: Seq<char>) -> bool {
    cluster.len() == 1 && (is_upper(cluster[0]) || is_lower(cluster[0]) || is_digit(cluster[0]))
}

/// Whether one of the clusters is a digit.
pub open spec fn has_digit_cluster(clusters: Seq<Seq<char>>) -> bool {
    exists|i: int| 0 <= i < clusters.len() && is_digit_cluster(#[trigger] clusters[i])
}

/// Whether one of the clusters is anything but a single ASCII letter or digit.
pub open spec fn has_special_cluster(clusters: Seq<Seq<char>>) -> bool {
    exists|i: int| 0 <= i < clusters.len() && !is_standard_cluster(#[trigger] clusters[i])
}

/// The clusters that are left when the ASCII letters and digits are taken out.
pub open spec fn special_clusters(clusters: Seq<Seq<char>>) -> Seq<Seq<char>>
    decreases clusters.len(),
{
    if clusters.len() == 0 {
        Seq::empty()
    } else if is_standard_cluster(clusters.last()) {
        special_clusters(clusters.drop_last())
    } else {
        special_clusters(clusters.drop_last()).push(clusters.last())
    }
}

/// Where no cluster is empty, something is left of the text when the ASCII
/// letters and digits are taken out exactly if one of the clusters is anything
/// but a single ASCII letter or digit.
pub proof fn lemma_special_text(clusters: Seq<Seq<char>>)
    requires
        forall|i: int| 0 <= i < clusters.len() ==> (#[trigger] clusters[i]).len() > 0,
    ensures
        (concat(special_clusters(clusters)).len() > 0) == has_special_cluster(clusters),
    decreases clusters.len(),
{
    if clusters.len() > 0 {
        let shorter = clusters.drop_last();
        let n = clusters.len() - 1;
        assert forall|i: int| 0 <= i < shorter.len() implies (#[trigger] shorter[i]).len() > 0 by {
            assert(shorter[i] == clusters[i]);
        }
        lemma_special_text(shorter);
        if has_special_cluster(shorter) {
            let i = choose|i: int| 0 <= i < shorter.len() && !is_standard_cluster(shorter[i]);
            assert(!is_standard_cluster(clusters[i]));
        }
        if is_standard_cluster(clusters.last()) {
            if has_special_cluster(clusters) {
                let i = choose|i: int| 0 <= i < clusters.len() && !is_standard_cluster(clusters[i]);
                assert(i < n);
                assert(!is_standard_cluster(shorter[i]));
            }
        } else {
            assert(!is_standard_cluster(clusters[n]));
            assert(clusters[n].len() > 0);
            assert(special_clusters(shorter).push(clusters.last()).drop_last() =~= special_clusters(
                shorter,
            ));
        }
    }
}

/// Whether the text holds a space.
pub fn has_spaces(password: &str) -> (found: bool)
    ensures
        found == password@.contains(' '),
{
    let chars = chars_of(password);
    let n = chars.len();
    let mut i: usize = 0;
    while i < n
        invariant
            i <= n,
            n == chars.len(),
            chars@ == password@,
            forall|k: int| 0 <= k < i ==> password@[k] != ' ',
        decreases n - i,
    {
        if chars[i] == ' ' {
            return true;
        }
        i += 1;
    }
    false
}

/// Whether the text holds an ASCII capital letter.
pub fn has_upper(password: &str) -> (found: bool)
    ensures
        found == (exists|i: int| 0 <= i < password@.len() && is_upper(#[trigger] password@[i])),
{
    let chars = chars_of(password);
    let n = chars.len();
    let mut i: usize = 0;
    while i < n
        invariant
            i <= n,
            n == chars.len(),
            chars@ == password@,
            forall|k: int| 0 <= k < i ==> !is_upper(#[trigger] password@[k]),
        decreases n - i,
    {
        let c = chars[i];
        if 'A' <= c && c <= 'Z' {
            return true;
        }
        i += 1;
    }
    false
}

/// Whether the text holds an ASCII small letter.
pub fn has_lower(password: &str) -> (found: bool)
    ensures
        found == (exists|i: int| 0 <= i < password@.len() && is_lower(#[trigger] password@[i])),
{
    let chars = chars_of(password);
    let n = chars.len();
    let mut i: usize = 0;
    while i < n
        invariant
            i <= n,
            n == chars.len(),
            chars@ == password@,
            forall|k: int| 0 <= k < i ==> !is_lower(#[trigger] password@[k]),
        decreases n - i,
    {
        let c = chars[i];
        if 'a' <= c && c <= 'z' {
            return true;
        }
        i += 1;
    }
    false
}

/// Whether the cluster is a single ASCII digit.
fn is_digit_text(cluster: &str) -> (digit: bool)
    ensures
        digit == is_digit_cluster(cluster@),
{
    if cluster.unicode_len() != 1 {
        return false;
    }
    let c = cluster.get_char(0);
    '0' <= c && c <= '9'
}

/// Whether the cluster is a single ASCII letter or digit.
fn is_standard_text(cluster: &str) -> (standard: bool)
    ensures
        standard == is_standard_cluster(cluster@),
{
    if cluster.unicode_len() != 1 {
        return false;
    }
    let c = cluster.get_char(0);
    ('A' <= c && c <= 'Z') || ('a' <= c && c <= 'z') || ('0' <= c && c <= '9')
}

/// Whether one of the clusters is an ASCII digit.
pub fn any_digit(clusters: &Vec<String>) -> (found: bool)
    ensures
        found == has_digit_cluster(texts(clusters@)),
{
    let mut i: usize = 0;
    while i < clusters.len()
        invariant
            i <= clusters.len(),
            forall|k: int| 0 <= k < i ==> !is_digit_cluster(#[trigger] texts(clusters@)[k]),
        decreases clusters.len() - i,
    {
        if is_digit_text(clusters[i].as_str()) {
            proof {
                assert(is_digit_cluster(texts(clusters@)[i as int]));
            }
            return true;
        }
        i += 1;
    }
    false
}

/// Takes the ASCII letters and digits out of a sequence of clusters.
pub fn special_only(clusters: &Vec<String>) -> (kept: Vec<String>)
    ensures
        texts(kept@) == special_clusters(texts(clusters@)),
{
    let mut kept: Vec<String> = Vec::new();
    let mut i: usize = 0;
    while i < clusters.len()
        invariant
            i <= clusters.len(),
            texts(kept@) == special_clusters(texts(clusters@).take(i as int)),
        decreases clusters.len() - i,
    {
        let ghost next = texts(clusters@).take(i + 1);
        proof {
            assert(next.drop_last() =~= texts(clusters@).take(i as int));
            assert(next.last() == clusters@[i as int]@);
        }
        let cluster = &clusters[i];
        if !is_standard_text(cluster.as_str()) {
            proof {
                assert(texts(kept@.push(*cluster)) =~= texts(kept@).push(cluster@));
            }
            kept.push(cluster.clone());
        }
        i += 1;
    }
    proof {
        assert(texts(clusters@).take(clusters.len() as int) =~= texts(clusters@));
    }
    kept
}

/// Whether the password holds an ASCII digit as a grapheme cluster of its own.
pub fn has_numerical_digits(password: &str) -> (found: bool)
    ensures
        found == has_digit_cluster(grapheme_clusters(password@)),
{
    any_digit(&split_graphemes(password))
}

/// The password without its ASCII letters and digits.
pub fn remove_standard_characters(password: &str) -> (special: String)
    ensures
        special@ == concat(special_clusters(grapheme_clusters(password@))),
{
    join(&special_only(&split_graphemes(password)))
}

/// Whether anything is left of the password when its ASCII letters and digits
/// are taken out.
pub fn has_special_characters(password: &str) -> (found: bool)
    ensures
        found == (concat(special_clusters(grapheme_clusters(password@))).len() > 0),
        found == has_special_cluster(grapheme_clusters(password@)),
{
    let clusters = split_graphemes(password);
    proof {
        assert forall|i: int| 0 <= i < texts(clusters@).len() implies (#[trigger] texts(
            clusters@,
        )[i]).len() > 0 by {
            assert(texts(clusters@)[i] == clusters@[i]@);
        }
        lemma_special_text(texts(clusters@));
    }
    let special = join(&special_only(&clusters));
    !special.as_str().is_empty()
}

} // verus!

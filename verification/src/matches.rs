//! The matches that a list of scores stands for.
//!
//! A scan gives each candidate of the corpus a score, or none where the
//! candidate does not match. What is said here holds of every such list of
//! scores, wherever the scores come from.

use crate::counting::lemma_filter_map_len;
use crate::order::lemma_in_order;
use crate::ranking::{best, ranked, ScoredCandidate};
use vstd::prelude::*;

verus! {

/// The candidate at place `i`, with its score, if it has one.
pub open spec fn match_at(scores: Seq<Option<u32>>, i: int) -> Option<ScoredCandidate> {
    match scores[i] {
        Some(score) => Some(ScoredCandidate { score, index: i as usize }),
        None => None,
    }
}

/// The candidates that have a score, each with its score and its place, in
/// the order of the corpus.
pub open spec fn matches_of(scores: Seq<Option<u32>>) -> Seq<ScoredCandidate> {
    Seq::new(scores.len(), |i: int| i).filter_map(|i: int| match_at(scores, i))
}

/// The matches among the first `n` candidates, in the order of the corpus.
pub open spec fn matches_up_to(scores: Seq<Option<u32>>, n: int) -> Seq<ScoredCandidate> {
    Seq::new(scores.len(), |i: int| i).take(n).filter_map(|i: int| match_at(scores, i))
}

/// Whether the candidate at a place has a score.
pub open spec fn has_score(scores: Seq<Option<u32>>) -> spec_fn(int) -> bool {
    |i: int| scores[i] is Some
}

/// The number of candidates that have a score.
pub open spec fn match_count(scores: Seq<Option<u32>>) -> nat {
    Seq::new(scores.len(), |i: int| i).filter(has_score(scores)).len()
}

/// Whether every row is a candidate with a score, and holds that score.
pub open spec fn rows_are_matches(scores: Seq<Option<u32>>, rows: Seq<ScoredCandidate>) -> bool {
    forall|i: int|
        #![trigger rows[i]]
        0 <= i < rows.len() ==> {
            &&& rows[i].index < scores.len()
            &&& scores[rows[i].index as int] == Some(rows[i].score)
        }
}

/// There are as many matches as there are candidates with a score.
pub proof fn lemma_match_count(scores: Seq<Option<u32>>)
    ensures
        matches_of(scores).len() == match_count(scores),
{
    lemma_filter_map_len(
        Seq::new(scores.len(), |i: int| i),
        |i: int| match_at(scores, i),
        has_score(scores),
        |i: int| scores[i] is None,
    );
}

/// The matches are the candidates with a score, each once, with its score
/// and its place, in the order of the corpus.
pub proof fn lemma_matches_of(scores: Seq<Option<u32>>)
    requires
        scores.len() <= usize::MAX,
    ensures
        rows_are_matches(scores, matches_of(scores)),
        forall|k: int, l: int|
            0 <= k < l < matches_of(scores).len() ==> (#[trigger] matches_of(scores)[k]).index < (
            #[trigger] matches_of(scores)[l]).index,
        forall|i: int|
            0 <= i < scores.len() && (#[trigger] scores[i]) is Some ==> matches_of(scores).contains(
                ScoredCandidate { score: scores[i]->0, index: i as usize },
            ),
{
    lemma_matches_up_to_all(scores);
    lemma_matches_up_to(scores, scores.len() as int);
}

/// A match whose score is greater than that of every other match stands
/// first in the listing.
pub proof fn lemma_highest_score_is_first(matches: Seq<ScoredCandidate>, highest: ScoredCandidate)
    requires
        matches.contains(highest),
        forall|k: int|
            0 <= k < matches.len() && matches[k] != highest ==> (#[trigger] matches[k]).score
                < highest.score,
    ensures
        ranked(matches)[0] == highest,
        forall|limit: nat| limit > 0 ==> #[trigger] best(matches, limit)[0] == highest,
{
    let listing = ranked(matches);
    lemma_in_order(matches);
    // The listing holds `highest`, and what stands first in it is a match
    // whose score is no less.
    vstd::seq_lib::to_multiset_contains(matches, highest);
    vstd::seq_lib::to_multiset_contains(listing, highest);
    vstd::seq_lib::to_multiset_contains(matches, listing[0]);
    vstd::seq_lib::to_multiset_contains(listing, listing[0]);
}

/// Rows that are among the matches are candidates with a score, and hold
/// that score.
pub proof fn lemma_rows_are_matches(scores: Seq<Option<u32>>, rows: Seq<ScoredCandidate>)
    requires
        scores.len() <= usize::MAX,
        forall|i: int| 0 <= i < rows.len() ==> matches_of(scores).contains(#[trigger] rows[i]),
    ensures
        rows_are_matches(scores, rows),
{
    lemma_matches_of(scores);
}

/// The matches among no candidates are none.
pub proof fn lemma_matches_up_to_none(scores: Seq<Option<u32>>)
    ensures
        matches_up_to(scores, 0) == Seq::<ScoredCandidate>::empty(),
{
}

/// The matches among all candidates are the matches.
pub proof fn lemma_matches_up_to_all(scores: Seq<Option<u32>>)
    ensures
        matches_up_to(scores, scores.len() as int) == matches_of(scores),
{
    let places = Seq::new(scores.len(), |i: int| i);
    assert(places.take(scores.len() as int) == places);
}

/// The matches among the first `n + 1` candidates are those among the first
/// `n`, and the candidate at `n` if it has a score.
pub proof fn lemma_matches_step(scores: Seq<Option<u32>>, n: int)
    requires
        0 <= n < scores.len(),
    ensures
        matches_up_to(scores, n + 1) == matches_up_to(scores, n) + (match match_at(scores, n) {
            Some(found) => seq![found],
            None => Seq::empty(),
        }),
{
    let places = Seq::new(scores.len(), |i: int| i);
    places.lemma_filter_map_take_succ(|i: int| match_at(scores, i), n);
}

/// What [`lemma_matches_of`] says, of the first `n` candidates.
proof fn lemma_matches_up_to(scores: Seq<Option<u32>>, n: int)
    requires
        0 <= n <= scores.len() <= usize::MAX,
    ensures
        forall|k: int|
            #![trigger matches_up_to(scores, n)[k]]
            0 <= k < matches_up_to(scores, n).len() ==> {
                let found = matches_up_to(scores, n)[k];
                &&& found.index < n
                &&& scores[found.index as int] == Some(found.score)
            },
        forall|k: int, l: int|
            0 <= k < l < matches_up_to(scores, n).len() ==> (#[trigger] matches_up_to(
                scores,
                n,
            )[k]).index < (#[trigger] matches_up_to(scores, n)[l]).index,
        forall|i: int|
            0 <= i < n && (#[trigger] scores[i]) is Some ==> matches_up_to(scores, n).contains(
                ScoredCandidate { score: scores[i]->0, index: i as usize },
            ),
    decreases n,
{
    let now = matches_up_to(scores, n);
    if n == 0 {
        lemma_matches_up_to_none(scores);
    } else {
        let before = matches_up_to(scores, n - 1);
        lemma_matches_up_to(scores, n - 1);
        lemma_matches_step(scores, n - 1);
        if match_at(scores, n - 1) is Some {
            assert forall|i: int|
                0 <= i < n && (#[trigger] scores[i]) is Some implies now.contains(
                ScoredCandidate { score: scores[i]->0, index: i as usize },
            ) by {
                let wanted = ScoredCandidate { score: scores[i]->0, index: i as usize };
                if i < n - 1 {
                    let k = choose|k: int| 0 <= k < before.len() && before[k] == wanted;
                    assert(now[k] == wanted);
                } else {
                    assert(now[now.len() - 1] == wanted);
                }
            }
        }
    }
}

} // verus!

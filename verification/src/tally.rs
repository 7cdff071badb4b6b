//! What a benchmark scan notes of its matches: their number, and the best
//! of them.

use crate::order::lemma_in_order_is_unique;
use crate::ranking::{ranks_before, ScoredCandidate};
use crate::topk::{greatest_of, lemma_greatest_is_unique, TopK, TOP_K};
use vstd::prelude::*;

verus! {

/// What the scan of a corpus for one benchmark query gives.
#[derive(Debug)]
pub struct QueryRun {
    /// The number of candidates that matched.
    pub matches: usize,
    /// The [`TOP_K`] matches with the greatest keys, or all matches where
    /// there are fewer, listed by descending score.
    pub top: Vec<ScoredCandidate>,
}

/// Whether a count and a listing are those of the given matches: every match
/// is counted, and the listing holds the [`TOP_K`] matches with the greatest
/// keys, or all matches where there are fewer, by descending score and those
/// of one score in the order of the corpus.
pub open spec fn is_tally_of(
    matches: Seq<ScoredCandidate>,
    count: usize,
    top: Seq<ScoredCandidate>,
) -> bool {
    &&& count == matches.len()
    &&& greatest_of(matches.to_multiset(), top.to_multiset(), TOP_K as nat)
    &&& forall|i: int, j: int|
        0 <= i < j < top.len() ==> ranks_before(#[trigger] top[i], #[trigger] top[j])
}

/// Count and listing do not depend on the order in which the matches were
/// noted: two tallies of the same matches, however ordered, are the same.
pub proof fn lemma_tally_is_unique(
    matches: Seq<ScoredCandidate>,
    count: usize,
    top: Seq<ScoredCandidate>,
    other_matches: Seq<ScoredCandidate>,
    other_count: usize,
    other_top: Seq<ScoredCandidate>,
)
    requires
        matches.to_multiset() == other_matches.to_multiset(),
        is_tally_of(matches, count, top),
        is_tally_of(other_matches, other_count, other_top),
    ensures
        count == other_count,
        top == other_top,
{
    vstd::seq_lib::to_multiset_len(matches);
    vstd::seq_lib::to_multiset_len(other_matches);
    lemma_greatest_is_unique(
        matches.to_multiset(),
        top.to_multiset(),
        other_top.to_multiset(),
        TOP_K as nat,
    );
    lemma_in_order_is_unique(top, top);
    lemma_in_order_is_unique(top, other_top);
}

/// The listing of a tally is never longer than [`TOP_K`], and shorter only
/// where there are fewer matches.
pub proof fn lemma_tally_is_bounded(
    matches: Seq<ScoredCandidate>,
    count: usize,
    top: Seq<ScoredCandidate>,
)
    requires
        is_tally_of(matches, count, top),
    ensures
        top.len() <= TOP_K,
        top.len() == if count <= TOP_K {
            count as nat
        } else {
            TOP_K as nat
        },
        forall|i: int| 0 <= i < top.len() ==> matches.contains(#[trigger] top[i]),
{
    broadcast use vstd::multiset::group_multiset_axioms;

    vstd::seq_lib::to_multiset_len(matches);
    vstd::seq_lib::to_multiset_len(top);
    assert forall|i: int| 0 <= i < top.len() implies matches.contains(#[trigger] top[i]) by {
        vstd::seq_lib::to_multiset_contains(top, top[i]);
        vstd::seq_lib::to_multiset_contains(matches, top[i]);
    }
}

/// The tally of a scan in progress.
pub struct Tally {
    count: usize,
    top: TopK,
    noted: Ghost<Seq<ScoredCandidate>>,
}

impl Tally {
    /// The matches that were noted, in the order of their noting.
    pub closed spec fn noted(&self) -> Seq<ScoredCandidate> {
        self.noted@
    }

    /// The count is the number of noted matches, and the kept matches are
    /// the greatest of them.
    pub closed spec fn well_formed(&self) -> bool {
        &&& self.top.well_formed()
        &&& self.top.limit() == TOP_K
        &&& self.top.offered() == self.noted@.to_multiset()
        &&& self.count == self.noted@.len()
    }

    /// The tally of a scan that has noted nothing yet.
    pub fn new() -> (tally: Tally)
        ensures
            tally.well_formed(),
            tally.noted() == Seq::<ScoredCandidate>::empty(),
    {
        let tally = Tally { count: 0, top: TopK::new(TOP_K), noted: Ghost(Seq::empty()) };
        proof {
            broadcast use vstd::multiset::group_multiset_axioms;

            tally.noted@.to_multiset_ensures();
            assert(tally.top.offered() =~= tally.noted@.to_multiset());
        }
        tally
    }

    /// Notes what the matcher said of the candidate at `index`: with a
    /// score the candidate is a match, and without one nothing changes.
    pub fn note(&mut self, index: usize, score: Option<u32>)
        requires
            old(self).well_formed(),
            old(self).noted().len() < usize::MAX,
        ensures
            final(self).well_formed(),
            final(self).noted() == old(self).noted() + (match score {
                Some(score) => seq![ScoredCandidate { score, index }],
                None => Seq::empty(),
            }),
    {
        if let Some(score) = score {
            let found = ScoredCandidate { score, index };
            self.count += 1;
            self.top.offer(found);
            proof {
                vstd::seq_lib::to_multiset_build(self.noted@, found);
                self.noted@ = self.noted@.push(found);
            }
        }
    }

    /// The number of matches, and the best of them in the order of their
    /// listing.
    pub fn finish(self) -> (run: QueryRun)
        requires
            self.well_formed(),
        ensures
            is_tally_of(self.noted(), run.matches, run.top@),
    {
        proof {
            self.top.lemma_kept();
        }
        let top = self.top.into_ranked();
        QueryRun { matches: self.count, top }
    }
}

} // verus!

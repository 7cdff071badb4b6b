//! Scored candidates and the order in which they are listed.

use crate::order::{in_order, sort, Ordered};
use vstd::prelude::*;

verus! {

/// A candidate that matched: its score, and its place in the corpus.
#[derive(Clone, Copy, Debug, PartialEq, Eq, Structural)]
pub struct ScoredCandidate {
    pub score: u32,
    pub index: usize,
}

/// Whether `a` is listed before `b` or is `b`: the higher score comes first,
/// and of two equal scores the one that stands earlier in the corpus.
pub open spec fn ranks_before(a: ScoredCandidate, b: ScoredCandidate) -> bool {
    a.score > b.score || (a.score == b.score && a.index <= b.index)
}

impl Ordered for ScoredCandidate {
    open spec fn precedes(a: Self, b: Self) -> bool {
        ranks_before(a, b)
    }

    proof fn precedes_is_total() {
        // The order compares whole numbers, field by field.
    }

    fn comes_before(&self, other: &Self) -> (before: bool) {
        self.score > other.score || (self.score == other.score && self.index <= other.index)
    }
}

/// The candidates in the order of their listing.
pub open spec fn ranked(candidates: Seq<ScoredCandidate>) -> Seq<ScoredCandidate> {
    in_order(candidates)
}

/// The first `limit` candidates of the listing, or all of them where there
/// are fewer.
pub open spec fn best(candidates: Seq<ScoredCandidate>, limit: nat) -> Seq<ScoredCandidate> {
    if limit <= candidates.len() {
        ranked(candidates).take(limit as int)
    } else {
        ranked(candidates)
    }
}

/// Lists the candidates: by descending score, and those of one score in the
/// order of the corpus.
pub fn rank(candidates: &Vec<ScoredCandidate>) -> (listing: Vec<ScoredCandidate>)
    ensures
        listing@ == ranked(candidates@),
{
    sort(candidates)
}

/// The `limit` best candidates in the order of their listing.
pub fn rank_best(candidates: &Vec<ScoredCandidate>, limit: usize) -> (listing: Vec<ScoredCandidate>)
    ensures
        listing@ == best(candidates@, limit as nat),
{
    let mut listing = sort(candidates);
    proof {
        crate::order::lemma_in_order(candidates@);
    }
    if limit < listing.len() {
        listing.truncate(limit);
    }
    listing
}

} // verus!

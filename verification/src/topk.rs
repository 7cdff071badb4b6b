//! Keeping the best candidates of a scan in bounded memory.
//!
//! A [`TopK`] puts every candidate that it is offered on a [`MinHeap`] and,
//! once the heap is over its limit, takes the least one off again: what stays
//! are the candidates with the greatest keys.

use crate::heap::{below, MinHeap};
use crate::ranking::{rank, ranks_before, ScoredCandidate};
use vstd::multiset::Multiset;
use vstd::prelude::*;

verus! {

/// The number of candidates that a scan keeps for each query.
pub const TOP_K: usize = 100;

/// What a [`TopK`] holds of the candidates it was offered: at most `limit`
/// of them; all of them unless it is full; and no candidate that it dropped
/// has a greater key than one that it kept.
pub open spec fn keeps_greatest(
    kept: Multiset<ScoredCandidate>,
    dropped: Multiset<ScoredCandidate>,
    limit: nat,
) -> bool {
    &&& kept.len() <= limit
    &&& dropped.len() > 0 ==> kept.len() == limit
    &&& forall|a: ScoredCandidate, b: ScoredCandidate|
        dropped.count(a) > 0 && kept.count(b) > 0 ==> below(a, b)
}

/// Whether `kept` holds the greatest of the candidates in `all`, up to
/// `limit` of them.
pub open spec fn greatest_of(
    all: Multiset<ScoredCandidate>,
    kept: Multiset<ScoredCandidate>,
    limit: nat,
) -> bool {
    &&& kept.subset_of(all)
    &&& keeps_greatest(kept, all.sub(kept), limit)
}

/// The greatest candidates of a multiset, up to a limit, are determined by
/// the multiset and the limit: it does not matter in which order the
/// candidates were offered.
pub proof fn lemma_greatest_is_unique(
    all: Multiset<ScoredCandidate>,
    first: Multiset<ScoredCandidate>,
    second: Multiset<ScoredCandidate>,
    limit: nat,
)
    requires
        greatest_of(all, first, limit),
        greatest_of(all, second, limit),
    ensures
        first == second,
{
    broadcast use vstd::multiset::group_multiset_axioms;

    let only_first = first.sub(second);
    let only_second = second.sub(first);
    let both = first.sub(only_first);
    // The two hold the same number of candidates, so one holds a candidate
    // that the other lacks only if the other holds one too.
    assert(second =~= both.add(only_second));
    vstd::multiset::lemma_multiset_empty_len(only_first);
    vstd::multiset::lemma_multiset_empty_len(only_second);
    if only_first.len() > 0 {
        // Each of these two was dropped where the other was kept: neither
        // has the greater key, so they are one candidate.
        let a = choose|a: ScoredCandidate| 0 < only_first.count(a);
        let b = choose|b: ScoredCandidate| 0 < only_second.count(b);
        assert(below(a, b) && below(b, a));
    }
}

/// The candidates with the greatest keys among those offered so far, up to a
/// limit.
pub struct TopK {
    heap: MinHeap,
    limit: usize,
    dropped: Ghost<Multiset<ScoredCandidate>>,
}

impl TopK {
    /// The most candidates that are kept.
    pub closed spec fn limit(&self) -> nat {
        self.limit as nat
    }

    /// The candidates that are kept.
    pub closed spec fn kept(&self) -> Multiset<ScoredCandidate> {
        self.heap@
    }

    /// The candidates that were offered and not kept.
    pub closed spec fn dropped(&self) -> Multiset<ScoredCandidate> {
        self.dropped@
    }

    /// All candidates that were offered.
    pub open spec fn offered(&self) -> Multiset<ScoredCandidate> {
        self.kept().add(self.dropped())
    }

    /// The heap's shape holds.
    pub closed spec fn heap_well_formed(&self) -> bool {
        self.heap.well_formed()
    }

    /// The heap's shape holds, and the kept candidates are the greatest of
    /// those offered.
    pub open spec fn well_formed(&self) -> bool {
        &&& self.heap_well_formed()
        &&& keeps_greatest(self.kept(), self.dropped(), self.limit())
    }

    /// A collection that keeps up to `limit` candidates and was offered none
    /// yet.
    pub fn new(limit: usize) -> (top: TopK)
        ensures
            top.well_formed(),
            top.limit() == limit,
            top.kept() == Multiset::<ScoredCandidate>::empty(),
            top.dropped() == Multiset::<ScoredCandidate>::empty(),
    {
        let room = if limit < usize::MAX {
            limit + 1
        } else {
            limit
        };
        let top = TopK {
            heap: MinHeap::with_capacity(room),
            limit,
            dropped: Ghost(Multiset::empty()),
        };
        proof {
            broadcast use vstd::multiset::group_multiset_axioms;

        }
        top
    }

    /// The number of candidates that are kept.
    pub fn len(&self) -> (n: usize)
        ensures
            n == self.kept().len(),
    {
        self.heap.len()
    }

    /// Offers a candidate. It is kept unless the collection is full and the
    /// candidate's key is the least; where it is kept in a full collection,
    /// the kept candidate with the least key is dropped for it.
    pub fn offer(&mut self, item: ScoredCandidate)
        requires
            old(self).well_formed(),
        ensures
            final(self).well_formed(),
            final(self).limit() == old(self).limit(),
            final(self).offered() == old(self).offered().insert(item),
    {
        broadcast use vstd::multiset::group_multiset_axioms;

        let ghost kept = self.kept();
        let ghost dropped = self.dropped();
        self.heap.push(item);
        if self.heap.len() > self.limit {
            let least = self.heap.pop();
            proof {
                let least = least->0;
                self.dropped@ = dropped.insert(least);
                assert forall|a: ScoredCandidate, b: ScoredCandidate|
                    self.dropped().count(a) > 0 && self.kept().count(b) > 0 implies below(a, b) by {
                    if a != least && kept.count(b) == 0 {
                        // `b` is the new candidate, and the least one was
                        // kept before: it stands between `a` and `b`.
                        assert(below(a, least) && below(least, b));
                    }
                }
            }
        }
    }

    /// The kept candidates are the greatest of those offered, and their
    /// number is the limit or, where fewer were offered, the number offered.
    pub proof fn lemma_kept(&self)
        requires
            self.well_formed(),
        ensures
            greatest_of(self.offered(), self.kept(), self.limit()),
            self.kept().len() == if self.offered().len() <= self.limit() {
                self.offered().len()
            } else {
                self.limit()
            },
    {
        broadcast use vstd::multiset::group_multiset_axioms;

    }

    /// The kept candidates in the order of their listing: by descending
    /// score, and those of one score in the order of the corpus.
    pub fn into_ranked(self) -> (listing: Vec<ScoredCandidate>)
        requires
            self.well_formed(),
        ensures
            listing@.to_multiset() == self.kept(),
            listing@.len() == self.kept().len(),
            forall|i: int, j: int|
                0 <= i < j < listing@.len() ==> ranks_before(
                    #[trigger] listing@[i],
                    #[trigger] listing@[j],
                ),
    {
        let items = self.heap.into_vec();
        proof {
            crate::order::lemma_in_order(items@);
            vstd::seq_lib::to_multiset_len(items@);
        }
        rank(&items)
    }
}

} // verus!

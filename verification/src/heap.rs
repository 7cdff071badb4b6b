//! A binary heap of scored candidates that hands out the least one first.

use crate::ranking::ScoredCandidate;
use vstd::multiset::Multiset;
use vstd::prelude::*;

verus! {

/// Whether the key of `a`, its score and then its index, is at most that of
/// `b`. The candidate with the least key is the first to leave a full heap.
pub open spec fn below(a: ScoredCandidate, b: ScoredCandidate) -> bool {
    a.score < b.score || (a.score == b.score && a.index <= b.index)
}

/// Decides [`below`].
pub fn is_below(a: &ScoredCandidate, b: &ScoredCandidate) -> (r: bool)
    ensures
        r == below(*a, *b),
{
    a.score < b.score || (a.score == b.score && a.index <= b.index)
}

/// Whether each item but the first is no less than the item at half its
/// place: the shape of a binary heap with the least item in front.
pub open spec fn heap_ordered(s: Seq<ScoredCandidate>) -> bool {
    forall|i: int| 1 <= i < s.len() ==> below(s[(i - 1) / 2], #[trigger] s[i])
}

/// As [`heap_ordered`], but for the item at `gap`, which may be less than
/// the item above it; the items below `gap` are no less than the one above
/// it.
spec fn ordered_but_above(s: Seq<ScoredCandidate>, gap: int) -> bool {
    &&& forall|i: int| 1 <= i < s.len() && i != gap ==> below(s[(i - 1) / 2], #[trigger] s[i])
    &&& forall|i: int|
        1 <= i < s.len() && (i - 1) / 2 == gap && gap >= 1 ==> below(
            s[(gap - 1) / 2],
            #[trigger] s[i],
        )
}

/// As [`heap_ordered`], but for the item at `gap`, which may be greater than
/// the items below it; those are no less than the item above `gap`.
spec fn ordered_but_below(s: Seq<ScoredCandidate>, gap: int) -> bool {
    &&& forall|i: int|
        1 <= i < s.len() && (i - 1) / 2 != gap ==> below(s[(i - 1) / 2], #[trigger] s[i])
    &&& forall|i: int|
        1 <= i < s.len() && (i - 1) / 2 == gap && gap >= 1 ==> below(
            s[(gap - 1) / 2],
            #[trigger] s[i],
        )
}

/// In a heap no item is less than the first.
proof fn lemma_first_is_least(s: Seq<ScoredCandidate>, i: int)
    requires
        heap_ordered(s),
        0 <= i < s.len(),
    ensures
        below(s[0], s[i]),
    decreases i,
{
    if i > 0 {
        lemma_first_is_least(s, (i - 1) / 2);
    }
}

/// Exchanging two items of a sequence leaves its multiset as it was.
proof fn lemma_exchange_keeps_items(s: Seq<ScoredCandidate>, i: int, j: int)
    requires
        0 <= i < s.len(),
        0 <= j < s.len(),
    ensures
        s.update(i, s[j]).update(j, s[i]).to_multiset() == s.to_multiset(),
{
    broadcast use vstd::multiset::group_multiset_axioms;

    vstd::seq_lib::to_multiset_update(s, i, s[j]);
    vstd::seq_lib::to_multiset_update(s.update(i, s[j]), j, s[i]);
    vstd::seq_lib::to_multiset_contains(s, s[i]);
    vstd::seq_lib::to_multiset_contains(s, s[j]);
}

/// A binary heap of scored candidates with the least key in front.
pub struct MinHeap {
    items: Vec<ScoredCandidate>,
}

impl MinHeap {
    /// The candidates on the heap, each as often as it was pushed and not
    /// popped.
    pub closed spec fn view(&self) -> Multiset<ScoredCandidate> {
        self.items@.to_multiset()
    }

    /// The heap's shape holds.
    pub closed spec fn well_formed(&self) -> bool {
        heap_ordered(self.items@)
    }

    /// An empty heap with room for `capacity` candidates.
    pub fn with_capacity(capacity: usize) -> (heap: MinHeap)
        ensures
            heap.well_formed(),
            heap@ == Multiset::<ScoredCandidate>::empty(),
    {
        let heap = MinHeap { items: Vec::with_capacity(capacity) };
        proof {
            assert(heap.items@.to_multiset() =~= Multiset::<ScoredCandidate>::empty()) by {
                broadcast use vstd::seq_lib::group_to_multiset_ensures;
                broadcast use vstd::multiset::group_multiset_axioms;

                heap.items@.to_multiset_ensures();
            }
        }
        heap
    }

    /// The number of candidates on the heap.
    pub fn len(&self) -> (n: usize)
        ensures
            n == self@.len(),
    {
        proof {
            vstd::seq_lib::to_multiset_len(self.items@);
        }
        self.items.len()
    }

    /// Exchanges the items at `i` and `j`.
    fn exchange(&mut self, i: usize, j: usize)
        requires
            i < old(self).items.len(),
            j < old(self).items.len(),
        ensures
            final(self).items@ == old(self).items@.update(
                i as int,
                old(self).items@[j as int],
            ).update(j as int, old(self).items@[i as int]),
            final(self)@ == old(self)@,
    {
        let a = self.items[i];
        let b = self.items[j];
        proof {
            lemma_exchange_keeps_items(self.items@, i as int, j as int);
        }
        self.items.set(i, b);
        self.items.set(j, a);
    }

    /// Puts a candidate on the heap.
    pub fn push(&mut self, item: ScoredCandidate)
        requires
            old(self).well_formed(),
        ensures
            final(self).well_formed(),
            final(self)@ == old(self)@.insert(item),
    {
        proof {
            vstd::seq_lib::to_multiset_build(self.items@, item);
        }
        self.items.push(item);
        let mut gap: usize = self.items.len() - 1;
        while gap > 0 && !is_below(&self.items[(gap - 1) / 2], &self.items[gap])
            invariant
                gap < self.items.len(),
                self@ == old(self)@.insert(item),
                ordered_but_above(self.items@, gap as int),
            decreases gap,
        {
            let above = (gap - 1) / 2;
            self.exchange(above, gap);
            gap = above;
        }
    }

    /// Takes the candidate with the least key off the heap, if there is one.
    pub fn pop(&mut self) -> (least: Option<ScoredCandidate>)
        requires
            old(self).well_formed(),
        ensures
            final(self).well_formed(),
            old(self)@.len() == 0 ==> least is None && final(self)@ == old(self)@,
            old(self)@.len() > 0 ==> least is Some && old(self)@.count(least->0) > 0 && final(self)@
                == old(self)@.remove(least->0),
            forall|other: ScoredCandidate|
                least is Some && old(self)@.count(other) > 0 ==> below(least->0, other),
    {
        proof {
            vstd::seq_lib::to_multiset_len(self.items@);
        }
        if self.items.len() == 0 {
            return None;
        }
        let ghost s = self.items@;
        let first = self.items[0];
        proof {
            assert forall|other: ScoredCandidate| s.to_multiset().count(other) > 0 implies below(
                first,
                other,
            ) by {
                vstd::seq_lib::to_multiset_contains(s, other);
                let i = choose|i: int| 0 <= i < s.len() && s[i] == other;
                lemma_first_is_least(s, i);
            }
            vstd::seq_lib::to_multiset_contains(s, first);
        }
        let last = self.items.pop().unwrap();
        proof {
            assert(s == self.items@.push(last));
            vstd::seq_lib::to_multiset_build(self.items@, last);
        }
        if self.items.len() == 0 {
            return Some(first);
        }
        proof {
            vstd::seq_lib::to_multiset_update(self.items@, 0, last);
        }
        self.items.set(0, last);
        let ghost kept = self@;
        let mut gap: usize = 0;
        let n = self.items.len();
        while gap < n / 2
            invariant
                n == self.items.len(),
                gap < n,
                self@ == kept,
                ordered_but_below(self.items@, gap as int),
            ensures
                heap_ordered(self.items@),
                self@ == kept,
            decreases n - gap,
        {
            let left = 2 * gap + 1;
            let right = left + 1;
            let least = if right < n && !is_below(&self.items[left], &self.items[right]) {
                right
            } else {
                left
            };
            if is_below(&self.items[gap], &self.items[least]) {
                break;
            }
            self.exchange(gap, least);
            gap = least;
        }
        Some(first)
    }

    /// The candidates on the heap, in no stated order.
    pub fn into_vec(self) -> (items: Vec<ScoredCandidate>)
        ensures
            items@.to_multiset() == self@,
    {
        self.items
    }
}

} // verus!

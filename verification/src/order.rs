//! Total orders on the library's values, and sorting by them.

use vstd::prelude::*;
use vstd::relations::{sorted_by, total_ordering};
use vstd::seq_lib::{lemma_multiset_commutative, lemma_sorted_unique};

verus! {

/// A type whose values stand in a total order.
pub trait Ordered: Sized + Copy {
    /// Whether `a` comes before `b` or is `b`.
    spec fn precedes(a: Self, b: Self) -> bool;

    /// `precedes` is reflexive, antisymmetric, transitive, and holds one way
    /// or the other of any two values.
    proof fn precedes_is_total()
        ensures
            total_ordering(|a: Self, b: Self| Self::precedes(a, b)),
    ;

    /// Decides `precedes`.
    fn comes_before(&self, other: &Self) -> (before: bool)
        ensures
            before == Self::precedes(*self, *other),
    ;
}

/// The order of `T` as a relation.
pub open spec fn order_of<T: Ordered>() -> spec_fn(T, T) -> bool {
    |a: T, b: T| T::precedes(a, b)
}

/// `s` in the order of `T`: the one sequence with the items of `s` in which
/// each item precedes those behind it.
pub open spec fn in_order<T: Ordered>(s: Seq<T>) -> Seq<T> {
    s.sort_by(order_of::<T>())
}

/// A sequence that holds the items of `s` and is sorted is `in_order(s)`.
pub proof fn lemma_in_order_is_unique<T: Ordered>(s: Seq<T>, sorted: Seq<T>)
    requires
        sorted_by(sorted, order_of::<T>()),
        sorted.to_multiset() == s.to_multiset(),
    ensures
        sorted == in_order(s),
{
    T::precedes_is_total();
    s.lemma_sort_by_ensures(order_of::<T>());
    lemma_sorted_unique(sorted, in_order(s), order_of::<T>());
}

/// `in_order(s)` holds the items of `s`, as often as `s` does, and each of
/// its items precedes those behind it.
pub proof fn lemma_in_order<T: Ordered>(s: Seq<T>)
    ensures
        in_order(s).to_multiset() == s.to_multiset(),
        in_order(s).len() == s.len(),
        forall|i: int, j: int|
            0 <= i < j < s.len() ==> T::precedes(
                #[trigger] in_order(s)[i],
                #[trigger] in_order(s)[j],
            ),
{
    T::precedes_is_total();
    s.lemma_sort_by_ensures(order_of::<T>());
    vstd::seq_lib::to_multiset_len(s);
    vstd::seq_lib::to_multiset_len(in_order(s));
    assert forall|i: int, j: int| 0 <= i < j < s.len() implies T::precedes(
        #[trigger] in_order(s)[i],
        #[trigger] in_order(s)[j],
    ) by {
        assert(order_of::<T>()(in_order(s)[i], in_order(s)[j]));
    }
}

/// Merges two sorted vectors into one.
fn merge<T: Ordered>(left: &Vec<T>, right: &Vec<T>) -> (merged: Vec<T>)
    requires
        sorted_by(left@, order_of::<T>()),
        sorted_by(right@, order_of::<T>()),
    ensures
        sorted_by(merged@, order_of::<T>()),
        merged@.to_multiset() == left@.to_multiset().add(right@.to_multiset()),
{
    let mut merged: Vec<T> = Vec::new();
    let mut i: usize = 0;
    let mut j: usize = 0;
    proof {
        T::precedes_is_total();
        assert(left@.take(0) + right@.take(0) == merged@);
        lemma_multiset_commutative(left@.take(0), right@.take(0));
    }
    while i < left.len() || j < right.len()
        invariant
            i <= left.len(),
            j <= right.len(),
            total_ordering(order_of::<T>()),
            sorted_by(left@, order_of::<T>()),
            sorted_by(right@, order_of::<T>()),
            sorted_by(merged@, order_of::<T>()),
            merged@.to_multiset() == left@.take(i as int).to_multiset().add(
                right@.take(j as int).to_multiset(),
            ),
            forall|k: int|
                0 <= k < merged@.len() && i < left.len() ==> order_of::<T>()(
                    #[trigger] merged@[k],
                    left@[i as int],
                ),
            forall|k: int|
                0 <= k < merged@.len() && j < right.len() ==> order_of::<T>()(
                    #[trigger] merged@[k],
                    right@[j as int],
                ),
        decreases left.len() - i + right.len() - j,
    {
        let ghost before = merged@;
        let take_left = if i >= left.len() {
            false
        } else if j >= right.len() {
            true
        } else {
            left[i].comes_before(&right[j])
        };
        if take_left {
            let item = left[i];
            merged.push(item);
            proof {
                assert(left@.take(i + 1) == left@.take(i as int).push(item));
                vstd::seq_lib::to_multiset_build(left@.take(i as int), item);
                vstd::seq_lib::to_multiset_build(before, item);
                assert forall|k: int|
                    0 <= k < merged@.len() && i + 1 < left.len() implies order_of::<T>()(
                    #[trigger] merged@[k],
                    left@[i + 1],
                ) by {
                    assert(order_of::<T>()(left@[i as int], left@[i + 1]));
                }
            }
            i += 1;
        } else {
            let item = right[j];
            merged.push(item);
            proof {
                assert(right@.take(j + 1) == right@.take(j as int).push(item));
                vstd::seq_lib::to_multiset_build(right@.take(j as int), item);
                vstd::seq_lib::to_multiset_build(before, item);
                assert forall|k: int|
                    0 <= k < merged@.len() && j + 1 < right.len() implies order_of::<T>()(
                    #[trigger] merged@[k],
                    right@[j + 1],
                ) by {
                    assert(order_of::<T>()(right@[j as int], right@[j + 1]));
                }
                assert forall|k: int|
                    0 <= k < merged@.len() && i < left.len() implies order_of::<T>()(
                    #[trigger] merged@[k],
                    left@[i as int],
                ) by {
                    if k == before.len() {
                        // The right item was taken because the left one does
                        // not precede it.
                        assert(order_of::<T>()(left@[i as int], item) || order_of::<T>()(
                            item,
                            left@[i as int],
                        ));
                    }
                }
            }
            j += 1;
        }
    }
    proof {
        assert(left@.take(left@.len() as int) == left@);
        assert(right@.take(right@.len() as int) == right@);
    }
    merged
}

/// Sorts the items of `items` from `from` up to `to`.
fn sort_range<T: Ordered>(items: &Vec<T>, from: usize, to: usize) -> (sorted: Vec<T>)
    requires
        from <= to <= items.len(),
    ensures
        sorted_by(sorted@, order_of::<T>()),
        sorted@.to_multiset() == items@.subrange(from as int, to as int).to_multiset(),
    decreases to - from,
{
    if to - from <= 1 {
        let mut sorted: Vec<T> = Vec::new();
        if to - from == 1 {
            sorted.push(items[from]);
        }
        proof {
            assert(sorted@ == items@.subrange(from as int, to as int));
        }
        sorted
    } else {
        let middle = from + (to - from) / 2;
        let left = sort_range(items, from, middle);
        let right = sort_range(items, middle, to);
        proof {
            let low = items@.subrange(from as int, middle as int);
            let high = items@.subrange(middle as int, to as int);
            assert(low + high == items@.subrange(from as int, to as int));
            lemma_multiset_commutative(low, high);
        }
        merge(&left, &right)
    }
}

/// The items of `items` in the order of `T`.
pub fn sort<T: Ordered>(items: &Vec<T>) -> (sorted: Vec<T>)
    ensures
        sorted@ == in_order(items@),
{
    let sorted = sort_range(items, 0, items.len());
    proof {
        assert(items@.subrange(0, items@.len() as int) == items@);
        lemma_in_order_is_unique(items@, sorted@);
    }
    sorted
}

} // verus!

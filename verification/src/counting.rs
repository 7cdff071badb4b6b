//! Counting what a partial reading of a sequence keeps.

use vstd::prelude::*;

verus! {

/// A reading that keeps some items and passes over the others keeps as many
/// as there are items that it reads, and those together with the items that
/// it passes over are all the items.
pub proof fn lemma_filter_map_len<A, B>(
    s: Seq<A>,
    read: spec_fn(A) -> Option<B>,
    kept: spec_fn(A) -> bool,
    passed: spec_fn(A) -> bool,
)
    requires
        forall|a: A| #[trigger] kept(a) == read(a) is Some,
        forall|a: A| #[trigger] passed(a) == read(a) is None,
    ensures
        s.filter_map(read).len() == s.filter(kept).len(),
        s.filter_map(read).len() + s.filter(passed).len() == s.len(),
    decreases s.len(),
{
    if s.len() == 0 {
        s.lemma_filter_len(kept);
        s.lemma_filter_len(passed);
    } else {
        let shorter = s.drop_last();
        lemma_filter_map_len(shorter, read, kept, passed);
        assert(shorter.push(s.last()) == s);
        shorter.lemma_filter_len_push(kept, s.last());
        shorter.lemma_filter_len_push(passed, s.last());
    }
}

} // verus!

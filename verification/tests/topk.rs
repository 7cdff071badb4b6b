use nucleo_harness::ranking::{rank, rank_best, ScoredCandidate};
use nucleo_harness::heap::{is_below, MinHeap};
use std::cmp::Reverse;
use std::collections::BinaryHeap;
use nucleo_harness::tally::Tally;
use nucleo_harness::topk::{TopK, TOP_K};

fn scored(score: u32, index: usize) -> ScoredCandidate {
    ScoredCandidate { score, index }
}

#[test]
fn heap_pops_ascending_keys() {
    let mut heap = MinHeap::with_capacity(4);
    for (score, index) in [(5, 0), (1, 1), (9, 2), (1, 3), (7, 4), (5, 5), (0, 6)] {
        heap.push(scored(score, index));
    }
    assert_eq!(heap.len(), 7);
    let mut popped = Vec::new();
    while let Some(item) = heap.pop() {
        popped.push(item);
    }
    assert_eq!(
        popped,
        vec![
            scored(0, 6),
            scored(1, 1),
            scored(1, 3),
            scored(5, 0),
            scored(5, 5),
            scored(7, 4),
            scored(9, 2),
        ]
    );
    assert_eq!(heap.len(), 0);
    assert_eq!(heap.pop(), None);
}

#[test]
fn heap_gives_back_what_was_pushed() {
    let mut heap = MinHeap::with_capacity(0);
    let mut pushed = Vec::new();
    let mut seed: u32 = 12345;
    for index in 0..500 {
        seed = seed.wrapping_mul(1103515245).wrapping_add(12345);
        let item = scored((seed >> 16) % 50, index);
        pushed.push(item);
        heap.push(item);
    }
    let mut items = heap.into_vec();
    items.sort_by_key(|item| item.index);
    assert_eq!(items, pushed);
}

#[test]
fn heap_sorts_like_std() {
    let mut heap = MinHeap::with_capacity(16);
    let mut expected = Vec::new();
    let mut seed: u32 = 99;
    for index in 0..300 {
        seed = seed.wrapping_mul(1664525).wrapping_add(1013904223);
        let item = scored((seed >> 20) % 17, index % 40);
        expected.push((item.score, item.index));
        heap.push(item);
    }
    expected.sort();
    let mut popped = Vec::new();
    while let Some(item) = heap.pop() {
        popped.push((item.score, item.index));
    }
    assert_eq!(popped, expected);
}

#[test]
fn below_compares_score_then_index() {
    assert!(is_below(&scored(1, 9), &scored(2, 0)));
    assert!(!is_below(&scored(2, 0), &scored(1, 9)));
    assert!(is_below(&scored(2, 3), &scored(2, 4)));
    assert!(!is_below(&scored(2, 4), &scored(2, 3)));
    assert!(is_below(&scored(2, 3), &scored(2, 3)));
}

#[test]
fn top_k_is_one_hundred() {
    assert_eq!(TOP_K, 100);
}

#[test]
fn top_keeps_everything_below_its_limit() {
    let mut top = TopK::new(5);
    top.offer(scored(3, 0));
    top.offer(scored(8, 1));
    top.offer(scored(3, 2));
    assert_eq!(top.len(), 3);
    assert_eq!(top.into_ranked(), vec![scored(8, 1), scored(3, 0), scored(3, 2)]);
}

#[test]
fn top_drops_the_least_keys() {
    let mut top = TopK::new(3);
    for (score, index) in [(4, 0), (9, 1), (4, 2), (1, 3), (4, 4), (6, 5), (4, 6)] {
        top.offer(scored(score, index));
        assert!(top.len() <= 3);
    }
    assert_eq!(top.len(), 3);
    assert_eq!(top.into_ranked(), vec![scored(9, 1), scored(6, 5), scored(4, 6)]);
}

#[test]
fn top_with_no_room_keeps_nothing() {
    let mut top = TopK::new(0);
    top.offer(scored(4, 0));
    top.offer(scored(5, 1));
    assert_eq!(top.len(), 0);
    assert_eq!(top.into_ranked(), vec![]);
}

#[test]
fn top_agrees_with_sorting_everything() {
    let mut top = TopK::new(TOP_K);
    let mut all = Vec::new();
    let mut seed: u32 = 7;
    for index in 0..1000 {
        seed = seed.wrapping_mul(1103515245).wrapping_add(12345);
        let item = scored((seed >> 16) % 300, index);
        all.push(item);
        top.offer(item);
    }
    assert_eq!(top.len(), 100);
    all.sort_by_key(|item| Reverse((item.score, item.index)));
    all.truncate(100);
    all.sort_by_key(|item| (Reverse(item.score), item.index));
    assert_eq!(top.into_ranked(), all);
}

#[test]
fn ranking_is_by_descending_score_then_corpus_order() {
    let candidates = vec![scored(3, 0), scored(7, 1), scored(3, 2), scored(9, 3), scored(7, 4)];
    assert_eq!(
        rank(&candidates),
        vec![scored(9, 3), scored(7, 1), scored(7, 4), scored(3, 0), scored(3, 2)]
    );
    assert_eq!(rank(&Vec::new()), vec![]);
    assert_eq!(rank(&vec![scored(1, 1)]), vec![scored(1, 1)]);
}

#[test]
fn ranking_agrees_with_a_stable_sort_by_score() {
    let mut candidates = Vec::new();
    let mut seed: u32 = 4242;
    for index in 0..777 {
        seed = seed.wrapping_mul(1664525).wrapping_add(1013904223);
        candidates.push(scored((seed >> 18) % 23, index));
    }
    let mut expected = candidates.clone();
    expected.sort_by(|a, b| b.score.cmp(&a.score));
    assert_eq!(rank(&candidates), expected);
    expected.truncate(10);
    assert_eq!(rank_best(&candidates, 10), expected);
}

#[test]
fn best_of_few_is_all_of_them() {
    let candidates = vec![scored(3, 0), scored(7, 1)];
    assert_eq!(rank_best(&candidates, 10), vec![scored(7, 1), scored(3, 0)]);
    assert_eq!(rank_best(&candidates, 2), vec![scored(7, 1), scored(3, 0)]);
    assert_eq!(rank_best(&candidates, 1), vec![scored(7, 1)]);
    assert_eq!(rank_best(&candidates, 0), vec![]);
}

#[test]
fn tally_counts_scores_and_keeps_the_best() {
    let mut tally = Tally::new();
    for (index, score) in [Some(5), None, Some(7), Some(5), None, Some(9)].into_iter().enumerate() {
        tally.note(index, score);
    }
    let run = tally.finish();
    assert_eq!(run.matches, 4);
    assert_eq!(run.top, vec![scored(9, 5), scored(7, 2), scored(5, 0), scored(5, 3)]);
}

#[test]
fn tally_of_nothing_is_empty() {
    let run = Tally::new().finish();
    assert_eq!(run.matches, 0);
    assert_eq!(run.top, vec![]);
    let mut tally = Tally::new();
    tally.note(0, None);
    tally.note(1, None);
    let run = tally.finish();
    assert_eq!(run.matches, 0);
    assert_eq!(run.top, vec![]);
}

#[test]
fn tally_counts_beyond_what_it_keeps() {
    let mut tally = Tally::new();
    for index in 0..250usize {
        tally.note(index, Some((index % 7) as u32));
    }
    let run = tally.finish();
    assert_eq!(run.matches, 250);
    assert_eq!(run.top.len(), 100);
    assert_eq!(run.top[0], scored(6, 6));
    assert_eq!(run.top[34], scored(6, 244));
    assert_eq!(run.top[35], scored(5, 5));
    assert_eq!(run.top[69], scored(5, 243));
    // Of the 36 candidates with the least kept score, the 30 that stand last
    // in the corpus are kept.
    assert_eq!(run.top[70], scored(4, 46));
    assert_eq!(run.top[99], scored(4, 249));
}

#[test]
fn tally_keeps_what_a_bounded_heap_of_std_keeps() {
    let mut seed: u32 = 2024;
    for round in 0..20usize {
        let candidates = 50 + round * 37;
        let mut tally = Tally::new();
        let mut heap: BinaryHeap<Reverse<(u32, usize)>> = BinaryHeap::with_capacity(TOP_K + 1);
        let mut count = 0;
        for index in 0..candidates {
            seed = seed.wrapping_mul(1664525).wrapping_add(1013904223);
            let score = if (seed >> 28) % 3 == 0 { None } else { Some((seed >> 20) % 11) };
            tally.note(index, score);
            if let Some(score) = score {
                count += 1;
                heap.push(Reverse((score, index)));
                if heap.len() > TOP_K {
                    heap.pop();
                }
            }
        }
        let mut expected: Vec<ScoredCandidate> =
            heap.into_iter().map(|Reverse((score, index))| scored(score, index)).collect();
        expected.sort_by_key(|item| (Reverse(item.score), item.index));
        let run = tally.finish();
        assert_eq!(run.matches, count);
        assert_eq!(run.top, expected);
    }
}

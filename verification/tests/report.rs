use nucleo_harness::corpus::Query;
use nucleo_harness::order::sort;
use nucleo_harness::report::{
    category_totals, detail_order, display_text, listed_category, query_stats,
    summarize_categories, CategoryRow, QueryLog, QueryStats, TimedQuery, LISTED_CATEGORIES,
};
use nucleo_harness::stats::{median, summarize, Summary};

fn query(text: &str, category: &str) -> Query {
    Query { text: text.to_string(), field: "name".to_string(), category: category.to_string() }
}

#[test]
fn median_of_odd_count_is_the_middle() {
    assert_eq!(median(&vec![50, 10, 40, 20, 30]), 30);
    assert_eq!(median(&vec![7]), 7);
    assert_eq!(median(&vec![3, 1, 2]), 2);
}

#[test]
fn median_of_even_count_is_the_upper_middle() {
    assert_eq!(median(&vec![40, 10, 30, 20]), 30);
    assert_eq!(median(&vec![1, 2]), 2);
    assert_eq!(median(&vec![5, 5, 9, 1, 9, 1]), 5);
    assert_eq!(median(&vec![1, 100]), 100);
}

#[test]
fn summary_is_least_middle_greatest() {
    assert_eq!(summarize(&vec![30, 10, 20]), Summary { min: 10, median: 20, max: 30 });
    assert_eq!(summarize(&vec![4, 4, 4, 4]), Summary { min: 4, median: 4, max: 4 });
    assert_eq!(
        summarize(&vec![u64::MAX, 0, 17, 17]),
        Summary { min: 0, median: 17, max: u64::MAX }
    );
}

#[test]
fn timings_sort_ascending() {
    assert_eq!(sort(&vec![5u64, 3, 9, 3, 0]), vec![0, 3, 3, 5, 9]);
    assert_eq!(sort(&Vec::<u64>::new()), Vec::<u64>::new());
}

#[test]
fn query_stats_hold_least_and_middle() {
    assert_eq!(query_stats(&vec![9, 2, 5, 7], 42), QueryStats { min: 2, median: 7, matches: 42 });
}

#[test]
fn the_first_run_gives_the_match_count() {
    let mut log = QueryLog::new();
    log.record(900, 12);
    log.record(700, 99);
    log.record(800, 0);
    assert_eq!(log.timings, vec![900, 700, 800]);
    assert_eq!(log.matches, 12);
    assert_eq!(log.stats(), QueryStats { min: 700, median: 800, matches: 12 });
}

#[test]
fn category_totals_add_up_the_queries_of_the_category() {
    let queries = vec![
        query("aapl", "exact_symbol"),
        query("appl", "typo"),
        query("msft", "exact_symbol"),
        query("x", "unlisted"),
    ];
    let stats = vec![
        QueryStats { min: 10, median: 15, matches: 1 },
        QueryStats { min: 20, median: 25, matches: 7 },
        QueryStats { min: 30, median: 35, matches: 2 },
        QueryStats { min: 40, median: 45, matches: 3 },
    ];
    assert_eq!(
        category_totals(&queries, &stats, "exact_symbol"),
        CategoryRow {
            category: "exact_symbol".to_string(),
            queries: 2,
            median: 50,
            min: 40,
            matches: 3,
        }
    );
    assert_eq!(
        category_totals(&queries, &stats, "prefix"),
        CategoryRow { category: "prefix".to_string(), queries: 0, median: 0, min: 0, matches: 0 }
    );
}

#[test]
fn category_totals_do_not_overflow() {
    let queries = vec![query("a", "typo"), query("b", "typo")];
    let stats = vec![
        QueryStats { min: u64::MAX, median: u64::MAX, matches: usize::MAX },
        QueryStats { min: u64::MAX, median: 1, matches: usize::MAX },
    ];
    let row = category_totals(&queries, &stats, "typo");
    assert_eq!(row.min, 2 * (u64::MAX as u128));
    assert_eq!(row.median, u64::MAX as u128 + 1);
    assert_eq!(row.matches, 2 * (usize::MAX as u128));
}

#[test]
fn summary_lists_present_categories_in_the_fixed_order() {
    let queries = vec![
        query("a", "typo"),
        query("b", "unlisted"),
        query("c", "exact_symbol"),
        query("d", "typo"),
        query("e", "abbreviation"),
    ];
    let stats = vec![
        QueryStats { min: 1, median: 2, matches: 3 },
        QueryStats { min: 10, median: 20, matches: 30 },
        QueryStats { min: 100, median: 200, matches: 300 },
        QueryStats { min: 1000, median: 2000, matches: 3000 },
        QueryStats { min: 5, median: 6, matches: 7 },
    ];
    let rows = summarize_categories(&queries, &stats);
    assert_eq!(
        rows,
        vec![
            CategoryRow {
                category: "exact_symbol".to_string(),
                queries: 1,
                median: 200,
                min: 100,
                matches: 300,
            },
            CategoryRow {
                category: "typo".to_string(),
                queries: 2,
                median: 2002,
                min: 1001,
                matches: 3003,
            },
            CategoryRow {
                category: "abbreviation".to_string(),
                queries: 1,
                median: 6,
                min: 5,
                matches: 7,
            },
        ]
    );
    assert_eq!(summarize_categories(&Vec::new(), &Vec::new()), vec![]);
}

#[test]
fn listed_categories_are_nine() {
    let listed: Vec<&str> = (0..LISTED_CATEGORIES).map(listed_category).collect();
    assert_eq!(
        listed,
        vec![
            "exact_symbol",
            "exact_name",
            "exact_isin",
            "prefix",
            "typo",
            "substring",
            "multi_word",
            "symbol_spaces",
            "abbreviation",
        ]
    );
}

#[test]
fn detail_lists_slowest_first() {
    let stats = vec![
        QueryStats { min: 1, median: 20, matches: 0 },
        QueryStats { min: 1, median: 50, matches: 0 },
        QueryStats { min: 1, median: 20, matches: 0 },
        QueryStats { min: 1, median: 70, matches: 0 },
    ];
    assert_eq!(
        detail_order(&stats),
        vec![
            TimedQuery { median: 70, index: 3 },
            TimedQuery { median: 50, index: 1 },
            TimedQuery { median: 20, index: 0 },
            TimedQuery { median: 20, index: 2 },
        ]
    );
    assert_eq!(detail_order(&Vec::new()), vec![]);
}

#[test]
fn short_query_texts_are_shown_in_full() {
    assert_eq!(display_text("apple"), Some("apple".to_string()));
    assert_eq!(display_text(""), Some(String::new()));
    let thirty = "123456789012345678901234567890";
    assert_eq!(thirty.len(), 30);
    assert_eq!(display_text(thirty), Some(thirty.to_string()));
    assert_eq!(display_text("ééééééééééééééé"), Some("ééééééééééééééé".to_string()));
}

#[test]
fn long_query_texts_are_cut_after_27_bytes() {
    let long = "1234567890123456789012345678901";
    assert_eq!(long.len(), 31);
    assert_eq!(display_text(long), Some("123456789012345678901234567...".to_string()));
    let accented = "12345678901234567890123456éé and more";
    assert_eq!(display_text(accented), None);
    let fitting = "1234567890123456789012345éé and more";
    assert_eq!(display_text(fitting), Some("1234567890123456789012345é...".to_string()));
}

//! What the benchmark reports of its queries: a line for each, and totals
//! for each category.

use crate::corpus::Query;
use crate::order::{in_order, sort, Ordered};
use crate::stats::{summarize, summary_of};
use crate::text::{byte_len, same_text};
use vstd::prelude::*;
use vstd::string::StringExecFns;
use vstd::utf8::{decode_utf8, encode_utf8, encode_utf8_decode_utf8, is_char_boundary};

verus! {

/// What is reported of one query: the least and the middle of its timings,
/// and the number of its matches.
#[derive(Clone, Copy, Debug, PartialEq, Eq, Structural)]
pub struct QueryStats {
    pub min: u64,
    pub median: u64,
    pub matches: usize,
}

/// The report line of a query with at least one timing.
pub fn query_stats(timings: &Vec<u64>, matches: usize) -> (stats: QueryStats)
    requires
        timings.len() > 0,
    ensures
        stats == (QueryStats {
            min: summary_of(timings@).min,
            median: summary_of(timings@).median,
            matches,
        }),
{
    let summary = summarize(timings);
    QueryStats { min: summary.min, median: summary.median, matches }
}

/// What the runs of one query gave: the timing of each run, in the order of
/// the runs, and the number of matches of the first run, which stands for
/// all of them.
#[derive(Clone, Debug, PartialEq, Eq)]
pub struct QueryLog {
    pub timings: Vec<u64>,
    pub matches: usize,
}

impl QueryLog {
    /// The log of a query that has not run yet.
    pub fn new() -> (log: QueryLog)
        ensures
            log.timings@ == Seq::<u64>::empty(),
            log.matches == 0,
    {
        QueryLog { timings: Vec::new(), matches: 0 }
    }

    /// Notes one run: its timing, and its number of matches if it is the
    /// first run.
    pub fn record(&mut self, nanos: u64, matches: usize)
        ensures
            final(self).timings@ == old(self).timings@.push(nanos),
            final(self).matches == if old(self).timings@.len() == 0 {
                matches
            } else {
                old(self).matches
            },
    {
        if self.timings.len() == 0 {
            self.matches = matches;
        }
        self.timings.push(nanos);
    }

    /// The report line of a query that has run at least once.
    pub fn stats(&self) -> (stats: QueryStats)
        requires
            self.timings@.len() > 0,
        ensures
            stats == (QueryStats {
                min: summary_of(self.timings@).min,
                median: summary_of(self.timings@).median,
                matches: self.matches,
            }),
    {
        query_stats(&self.timings, self.matches)
    }
}

/// The totals of the queries of one category.
pub struct Totals {
    /// The number of queries.
    pub queries: int,
    /// The sum of their middle timings.
    pub median: int,
    /// The sum of their least timings.
    pub min: int,
    /// The sum of their match counts.
    pub matches: int,
}

/// The totals of those of the first `n` queries whose category is
/// `category`.
pub open spec fn totals_up_to(
    categories: Seq<Seq<char>>,
    stats: Seq<QueryStats>,
    category: Seq<char>,
    n: int,
) -> Totals
    decreases n,
{
    if n <= 0 {
        Totals { queries: 0, median: 0, min: 0, matches: 0 }
    } else {
        let before = totals_up_to(categories, stats, category, n - 1);
        if categories[n - 1] == category {
            Totals {
                queries: before.queries + 1,
                median: before.median + stats[n - 1].median,
                min: before.min + stats[n - 1].min,
                matches: before.matches + stats[n - 1].matches,
            }
        } else {
            before
        }
    }
}

/// The totals of all queries whose category is `category`.
pub open spec fn totals_of(
    categories: Seq<Seq<char>>,
    stats: Seq<QueryStats>,
    category: Seq<char>,
) -> Totals {
    totals_up_to(categories, stats, category, categories.len() as int)
}

/// The categories of a list of queries.
pub open spec fn categories_of(queries: Seq<Query>) -> Seq<Seq<char>> {
    queries.map_values(|query: Query| query.category@)
}

/// The totals of one category, as computed.
#[derive(Clone, Debug, PartialEq, Eq)]
pub struct CategoryRow {
    pub category: String,
    pub queries: usize,
    pub median: u128,
    pub min: u128,
    pub matches: u128,
}

impl CategoryRow {
    /// The totals that the row holds.
    pub open spec fn totals(&self) -> Totals {
        Totals {
            queries: self.queries as int,
            median: self.median as int,
            min: self.min as int,
            matches: self.matches as int,
        }
    }
}

/// The categories that the summary lists, in the order of their listing.
/// Queries of another category are counted in no row.
pub open spec fn listed_categories() -> Seq<Seq<char>> {
    seq![
        "exact_symbol"@,
        "exact_name"@,
        "exact_isin"@,
        "prefix"@,
        "typo"@,
        "substring"@,
        "multi_word"@,
        "symbol_spaces"@,
        "abbreviation"@,
    ]
}

/// The number of listed categories.
pub const LISTED_CATEGORIES: usize = 9;

/// The listed category at place `i`.
pub fn listed_category(i: usize) -> (category: &'static str)
    requires
        i < LISTED_CATEGORIES,
    ensures
        category@ == listed_categories()[i as int],
{
    if i == 0 {
        "exact_symbol"
    } else if i == 1 {
        "exact_name"
    } else if i == 2 {
        "exact_isin"
    } else if i == 3 {
        "prefix"
    } else if i == 4 {
        "typo"
    } else if i == 5 {
        "substring"
    } else if i == 6 {
        "multi_word"
    } else if i == 7 {
        "symbol_spaces"
    } else {
        "abbreviation"
    }
}

/// The totals of the queries of one category: their number, and the sums of
/// their middle timings, of their least timings and of their match counts.
/// `stats` holds the report line of each query, in the order of the queries.
pub fn category_totals(queries: &Vec<Query>, stats: &Vec<QueryStats>, category: &str) -> (row:
    CategoryRow)
    requires
        queries.len() == stats.len(),
    ensures
        row.category@ == category@,
        row.totals() == totals_of(categories_of(queries@), stats@, category@),
{
    let ghost categories = categories_of(queries@);
    let mut count: usize = 0;
    let mut median: u128 = 0;
    let mut min: u128 = 0;
    let mut matches: u128 = 0;
    let mut i: usize = 0;
    while i < queries.len()
        invariant
            i <= queries.len(),
            queries.len() == stats.len(),
            categories == categories_of(queries@),
            count <= i,
            median <= i * u64::MAX,
            min <= i * u64::MAX,
            matches <= i * u64::MAX,
            (Totals {
                queries: count as int,
                median: median as int,
                min: min as int,
                matches: matches as int,
            }) == totals_up_to(categories, stats@, category@, i as int),
        decreases queries.len() - i,
    {
        proof {
            assert((i + 1) * u64::MAX <= usize::MAX * u64::MAX) by (nonlinear_arith)
                requires
                    i + 1 <= usize::MAX,
            ;
            assert(usize::MAX * u64::MAX <= u64::MAX * u64::MAX) by (nonlinear_arith)
                requires
                    usize::MAX <= u64::MAX,
            ;
        }
        if same_text(queries[i].category.as_str(), category) {
            count += 1;
            median += stats[i].median as u128;
            min += stats[i].min as u128;
            matches += stats[i].matches as u128;
        }
        i += 1;
    }
    CategoryRow { category: category.to_owned(), queries: count, median, min, matches }
}

/// The row of a category in the summary: its totals, unless no query has
/// that category.
pub open spec fn summary_row(
    categories: Seq<Seq<char>>,
    stats: Seq<QueryStats>,
    category: Seq<char>,
) -> Option<(Seq<char>, Totals)> {
    let totals = totals_of(categories, stats, category);
    if totals.queries > 0 {
        Some((category, totals))
    } else {
        None
    }
}

/// The rows of the summary: one for each listed category that a query has,
/// in the order of the listing.
pub open spec fn summary_of_categories(categories: Seq<Seq<char>>, stats: Seq<QueryStats>) -> Seq<
    (Seq<char>, Totals),
> {
    listed_categories().filter_map(|category: Seq<char>| summary_row(categories, stats, category))
}

/// What each row holds: its category and its totals.
pub open spec fn rows_view(rows: Seq<CategoryRow>) -> Seq<(Seq<char>, Totals)> {
    rows.map_values(|row: CategoryRow| (row.category@, row.totals()))
}

/// The summary by category. `stats` holds the report line of each query, in
/// the order of the queries.
pub fn summarize_categories(queries: &Vec<Query>, stats: &Vec<QueryStats>) -> (rows: Vec<
    CategoryRow,
>)
    requires
        queries.len() == stats.len(),
    ensures
        rows_view(rows@) == summary_of_categories(categories_of(queries@), stats@),
{
    let ghost categories = categories_of(queries@);
    let ghost listed = listed_categories();
    let ghost row_of = |category: Seq<char>| summary_row(categories, stats@, category);
    let mut rows: Vec<CategoryRow> = Vec::new();
    let mut i: usize = 0;
    while i < LISTED_CATEGORIES
        invariant
            i <= LISTED_CATEGORIES,
            queries.len() == stats.len(),
            categories == categories_of(queries@),
            listed == listed_categories(),
            row_of == |category: Seq<char>| summary_row(categories, stats@, category),
            rows_view(rows@) == listed.take(i as int).filter_map(row_of),
        decreases LISTED_CATEGORIES - i,
    {
        let ghost before = rows_view(rows@);
        proof {
            listed.lemma_filter_map_take_succ(row_of, i as int);
        }
        let row = category_totals(queries, stats, listed_category(i));
        if row.queries > 0 {
            rows.push(row);
        }
        i += 1;
    }
    proof {
        assert(listed.take(listed.len() as int) == listed);
    }
    rows
}

/// A query's place in the list of queries, with its middle timing.
#[derive(Clone, Copy, Debug, PartialEq, Eq, Structural)]
pub struct TimedQuery {
    pub median: u64,
    pub index: usize,
}

/// Whether `a` is listed before `b` or is `b`: the slower query comes first,
/// and of two equally slow ones the one that stands earlier in the list of
/// queries.
pub open spec fn slower_first(a: TimedQuery, b: TimedQuery) -> bool {
    a.median > b.median || (a.median == b.median && a.index <= b.index)
}

impl Ordered for TimedQuery {
    open spec fn precedes(a: Self, b: Self) -> bool {
        slower_first(a, b)
    }

    proof fn precedes_is_total() {
        // The order compares whole numbers, field by field.
    }

    fn comes_before(&self, other: &Self) -> (before: bool) {
        self.median > other.median || (self.median == other.median && self.index <= other.index)
    }
}

/// Each query's place with its middle timing, in the order of the queries.
pub open spec fn timed(stats: Seq<QueryStats>) -> Seq<TimedQuery> {
    Seq::new(stats.len(), |i: int| TimedQuery { median: stats[i].median, index: i as usize })
}

/// The order in which the queries are listed in detail: by descending middle
/// timing, and those of one timing in the order of the queries.
pub fn detail_order(stats: &Vec<QueryStats>) -> (order: Vec<TimedQuery>)
    ensures
        order@ == in_order(timed(stats@)),
{
    let mut places: Vec<TimedQuery> = Vec::new();
    let mut i: usize = 0;
    while i < stats.len()
        invariant
            i <= stats.len(),
            places@ == timed(stats@).take(i as int),
        decreases stats.len() - i,
    {
        places.push(TimedQuery { median: stats[i].median, index: i });
        proof {
            assert(timed(stats@).take(i as int).push(timed(stats@)[i as int]) == timed(stats@).take(
                i + 1,
            ));
        }
        i += 1;
    }
    proof {
        assert(timed(stats@).take(stats@.len() as int) == timed(stats@));
    }
    sort(&places)
}

/// The most bytes of a query text that a detail line shows in full.
pub const SHOWN_IN_FULL: usize = 30;

/// The number of bytes that a detail line shows of a longer query text,
/// before the three dots that stand for the rest.
pub const SHOWN_OF_LONGER: usize = 27;

/// Whether a detail line can show the query text: it is short enough to be
/// shown in full, or the bytes that are shown of it end with a whole
/// character.
pub open spec fn can_be_shown(text: Seq<char>) -> bool {
    byte_len(text) <= SHOWN_IN_FULL || is_char_boundary(encode_utf8(text), SHOWN_OF_LONGER as int)
}

/// The query text as a detail line shows it: in full up to
/// [`SHOWN_IN_FULL`] bytes, and else its first [`SHOWN_OF_LONGER`] bytes
/// and three dots.
pub open spec fn shown_text(text: Seq<char>) -> Seq<char> {
    if byte_len(text) <= SHOWN_IN_FULL {
        text
    } else {
        decode_utf8(encode_utf8(text).take(SHOWN_OF_LONGER as int)) + "..."@
    }
}

/// The query text as a detail line shows it, or nothing where the text
/// would have to be cut inside a character.
pub fn display_text(text: &str) -> (shown: Option<String>)
    ensures
        shown is Some <==> can_be_shown(text@),
        shown matches Some(line) ==> line@ == shown_text(text@),
{
    if text.as_bytes().len() <= SHOWN_IN_FULL {
        Some(text.to_owned())
    } else if text.is_char_boundary(SHOWN_OF_LONGER) {
        let (head, _) = text.split_at(SHOWN_OF_LONGER);
        proof {
            encode_utf8_decode_utf8(head@);
            assert(encode_utf8(text@).take(SHOWN_OF_LONGER as int) == encode_utf8(text@).subrange(
                0,
                SHOWN_OF_LONGER as int,
            ));
        }
        Some(head.to_owned().concat("..."))
    } else {
        None
    }
}

} // verus!

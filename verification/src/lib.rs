//! Loading a tab-separated corpus of financial instruments, scoring it against
//! fuzzy queries, and aggregating the ranked results and their timings.
//!
//! - [`text`] cuts text into lines and columns.
//! - [`corpus`] reads instruments and queries from such text and selects the
//!   field of an instrument that a query is matched against.
//! - [`matcher`] scores one candidate text against one query text.
//! - [`scan`] scores a whole corpus against a query and lists the best
//!   matches.
//! - [`matches`] says which matches a list of scores stands for.
//! - [`heap`], [`topk`] and [`tally`] count the matches of a scan and keep
//!   the best of them in bounded memory.
//! - [`order`] and [`ranking`] sort matches and timings.
//! - [`stats`] and [`report`] sum up the timings of a benchmark.

pub mod corpus;
pub mod counting;
pub mod heap;
pub mod matcher;
pub mod matches;
pub mod order;
pub mod ranking;
pub mod report;
pub mod scan;
pub mod stats;
pub mod tally;
pub mod text;
pub mod topk;

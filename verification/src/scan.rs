//! Scoring a whole corpus against one query.

use crate::corpus::{candidate_texts, field_named, Field, Instrument};
use crate::matcher::{
    candidate_fits, fuzzy_score, lemma_short_ascii_query, query_fits, score_error, FuzzyQuery,
    ScoreError, Scorer, MAX_WORD_CHARS,
};
use crate::matches::{
    lemma_match_count, lemma_matches_step, lemma_matches_up_to_all, lemma_matches_up_to_none,
    lemma_rows_are_matches, match_count, matches_of, matches_up_to, rows_are_matches,
};
use crate::order::lemma_in_order;
use crate::ranking::{best, rank_best, ranked, ranks_before, ScoredCandidate};
use crate::tally::{is_tally_of, lemma_tally_is_bounded, QueryRun, Tally};
use crate::topk::TOP_K;
use vstd::prelude::*;
use vstd::utf8::is_ascii_chars;

verus! {

/// The number of rows that are listed for one query line.
pub const BEST_MATCHES: usize = 10;

/// Why a scan gave no result.
#[derive(Clone, Copy, Debug, PartialEq, Eq, Structural)]
pub enum ScanError {
    /// The query text has more than
    /// [`MAX_QUERY_BYTES`](crate::matcher::MAX_QUERY_BYTES) bytes, or one of
    /// its words has more than
    /// [`MAX_WORD_CHARS`](crate::matcher::MAX_WORD_CHARS) characters.
    QueryTooLong,
    /// The candidate at `index` has more than
    /// [`max_candidate_bytes`](crate::matcher::max_candidate_bytes) bytes,
    /// and the matcher was asked for every candidate before it.
    CandidateTooLong { index: usize },
    /// A character of the candidate at `index` does not fold alike while the
    /// query is not plain, and the matcher was asked for every candidate
    /// before it.
    CandidateFoldsTwoWays { index: usize },
}

/// What the matcher says of each candidate for a query, in the order of the
/// corpus: its score, or nothing where it does not match.
pub open spec fn scores_of(query: Seq<char>, candidates: Seq<Seq<char>>) -> Seq<Option<u32>> {
    candidates.map_values(|candidate: Seq<char>| fuzzy_score(query, candidate))
}

/// The place of the first candidate for which the matcher is not asked, or
/// the number of candidates where it is asked for all.
pub open spec fn first_refused(query: Seq<char>, candidates: Seq<Seq<char>>) -> int
    decreases candidates.len(),
{
    if candidates.len() == 0 || score_error(query, candidates[0]) is Some {
        0
    } else {
        1 + first_refused(query, candidates.drop_first())
    }
}

/// The error of a scan for the error of a score at a place.
pub open spec fn at_place(error: ScoreError, index: usize) -> ScanError {
    match error {
        ScoreError::CandidateTooLong => ScanError::CandidateTooLong { index },
        ScoreError::CandidateFoldsTwoWays => ScanError::CandidateFoldsTwoWays { index },
    }
}

/// The error that a scan ends with, if any: a query that is too long, or
/// else the error of the first candidate for which the matcher is not
/// asked.
pub open spec fn scan_error(query: Seq<char>, candidates: Seq<Seq<char>>) -> Option<ScanError> {
    let first = first_refused(query, candidates);
    if !query_fits(query) {
        Some(ScanError::QueryTooLong)
    } else if first < candidates.len() {
        Some(at_place(score_error(query, candidates[first])->0, first as usize))
    } else {
        None
    }
}

/// `first_refused` is the least place of a candidate for which the matcher
/// is not asked.
pub proof fn lemma_first_refused(query: Seq<char>, candidates: Seq<Seq<char>>)
    ensures
        0 <= first_refused(query, candidates) <= candidates.len(),
        forall|k: int|
            0 <= k < first_refused(query, candidates) ==> score_error(
                query,
                #[trigger] candidates[k],
            ) is None,
        first_refused(query, candidates) < candidates.len() ==> score_error(
            query,
            candidates[first_refused(query, candidates)],
        ) is Some,
    decreases candidates.len(),
{
    if candidates.len() > 0 && score_error(query, candidates[0]) is None {
        let rest = candidates.drop_first();
        lemma_first_refused(query, rest);
        assert forall|k: int| 0 <= k < first_refused(query, candidates) implies score_error(
            query,
            #[trigger] candidates[k],
        ) is None by {
            if k > 0 {
                assert(candidates[k] == rest[k - 1]);
            }
        }
        if first_refused(query, candidates) < candidates.len() {
            assert(candidates[first_refused(query, candidates)] == rest[first_refused(
                query,
                rest,
            )]);
        }
    }
}

/// A scan ends without an error if and only if the query fits the matcher
/// and the matcher is asked for every candidate.
pub proof fn lemma_scan_error(query: Seq<char>, candidates: Seq<Seq<char>>)
    ensures
        scan_error(query, candidates) is None <==> query_fits(query) && forall|i: int|
            0 <= i < candidates.len() ==> score_error(query, #[trigger] candidates[i]) is None,
{
    lemma_first_refused(query, candidates);
}

/// A scan for an ASCII query of up to half of
/// [`MAX_WORD_CHARS`](crate::matcher::MAX_WORD_CHARS) characters ends
/// without an error if and only if no candidate is too long, whatever
/// characters the candidates hold.
pub proof fn lemma_short_ascii_query_scans(query: Seq<char>, candidates: Seq<Seq<char>>)
    requires
        is_ascii_chars(query),
        2 * query.len() <= MAX_WORD_CHARS,
    ensures
        scan_error(query, candidates) is None <==> forall|i: int|
            0 <= i < candidates.len() ==> candidate_fits(#[trigger] candidates[i]),
{
    lemma_scan_error(query, candidates);
    lemma_short_ascii_query(query, Seq::empty());
}

/// A place before which the matcher is asked for every candidate, and which
/// is the number of candidates or holds one for which it is not asked, is
/// `first_refused`.
proof fn lemma_first_refused_is(query: Seq<char>, candidates: Seq<Seq<char>>, at: int)
    requires
        0 <= at <= candidates.len(),
        forall|k: int| 0 <= k < at ==> score_error(query, #[trigger] candidates[k]) is None,
        at < candidates.len() ==> score_error(query, candidates[at]) is Some,
    ensures
        first_refused(query, candidates) == at,
{
    lemma_first_refused(query, candidates);
}

/// The error of a scan for the error of a score at a place.
fn refused_at(error: ScoreError, index: usize) -> (refusal: ScanError)
    ensures
        refusal == at_place(error, index),
{
    match error {
        ScoreError::CandidateTooLong => ScanError::CandidateTooLong { index },
        ScoreError::CandidateFoldsTwoWays => ScanError::CandidateFoldsTwoWays { index },
    }
}

/// The matches of a corpus for a query, in the order of the corpus, where
/// the matcher is asked for every candidate; else the error that
/// [`scan_error`] names.
fn find_matches(scorer: &mut Scorer, corpus: &Vec<Instrument>, text: &str, field: Field) -> (found:
    Result<Vec<ScoredCandidate>, ScanError>)
    requires
        old(scorer).well_formed(),
    ensures
        final(scorer).well_formed(),
        match found {
            Ok(matches) => {
                let candidates = candidate_texts(corpus.deep_view(), field);
                &&& scan_error(text@, candidates) is None
                &&& candidates.len() <= usize::MAX
                &&& matches@ == matches_of(scores_of(text@, candidates))
            },
            Err(error) => scan_error(text@, candidate_texts(corpus.deep_view(), field)) == Some(
                error,
            ),
        },
{
    let ghost candidates = candidate_texts(corpus.deep_view(), field);
    let ghost scores = scores_of(text@, candidates);
    let query = match FuzzyQuery::new(text) {
        Some(query) => query,
        None => {
            return Err(ScanError::QueryTooLong);
        },
    };
    let mut matches: Vec<ScoredCandidate> = Vec::new();
    let mut i: usize = 0;
    proof {
        lemma_matches_up_to_none(scores);
    }
    while i < corpus.len()
        invariant
            i <= corpus.len(),
            candidates == candidate_texts(corpus.deep_view(), field),
            candidates.len() == corpus.len(),
            scores == scores_of(text@, candidates),
            query.well_formed(),
            scorer.well_formed(),
            query@ == text@,
            query_fits(text@),
            forall|k: int| 0 <= k < i ==> score_error(text@, #[trigger] candidates[k]) is None,
            matches@ == matches_up_to(scores, i as int),
        decreases corpus.len() - i,
    {
        let candidate = corpus[i].candidate(field);
        proof {
            lemma_matches_step(scores, i as int);
        }
        match query.score(scorer, candidate) {
            Ok(Some(score)) => {
                matches.push(ScoredCandidate { score, index: i });
            },
            Ok(None) => {},
            Err(error) => {
                proof {
                    lemma_first_refused_is(text@, candidates, i as int);
                }
                return Err(refused_at(error, i));
            },
        }
        i += 1;
    }
    proof {
        lemma_first_refused_is(text@, candidates, candidates.len() as int);
        lemma_matches_up_to_all(scores);
    }
    Ok(matches)
}

/// Scores the chosen field of every instrument against a query and lists the
/// [`BEST_MATCHES`] best matches, or all matches where there are fewer: by
/// descending score, and those of one score in the order of the corpus. The
/// field name chooses the field as [`field_named`] says. Where the matcher
/// is not asked for the query or for a candidate, the scan ends with the
/// error that [`scan_error`] names.
pub fn best_matches(
    scorer: &mut Scorer,
    corpus: &Vec<Instrument>,
    text: &str,
    field_name: &str,
) -> (listing: Result<Vec<ScoredCandidate>, ScanError>)
    requires
        old(scorer).well_formed(),
    ensures
        final(scorer).well_formed(),
        match listing {
            Ok(rows) => {
                let candidates = candidate_texts(corpus.deep_view(), field_named(field_name@));
                let scores = scores_of(text@, candidates);
                &&& scan_error(text@, candidates) is None
                &&& rows@ == best(matches_of(scores), BEST_MATCHES as nat)
                &&& rows@.len() <= BEST_MATCHES
                &&& rows_are_matches(scores, rows@)
                &&& forall|i: int, j: int|
                    0 <= i < j < rows@.len() ==> ranks_before(
                        #[trigger] rows@[i],
                        #[trigger] rows@[j],
                    )
            },
            Err(error) => scan_error(
                text@,
                candidate_texts(corpus.deep_view(), field_named(field_name@)),
            ) == Some(error),
        },
{
    let field = Field::named(field_name);
    match find_matches(scorer, corpus, text, field) {
        Ok(matches) => {
            let rows = rank_best(&matches, BEST_MATCHES);
            proof {
                let scores = scores_of(text@, candidate_texts(corpus.deep_view(), field));
                let listing = ranked(matches@);
                lemma_in_order(matches@);
                assert forall|i: int| 0 <= i < rows@.len() implies matches@.contains(
                    #[trigger] rows@[i],
                ) by {
                    vstd::seq_lib::to_multiset_contains(listing, listing[i]);
                    vstd::seq_lib::to_multiset_contains(matches@, listing[i]);
                }
                lemma_rows_are_matches(scores, rows@);
            }
            Ok(rows)
        },
        Err(error) => Err(error),
    }
}

/// Scores the chosen field of every instrument against a query, counts the
/// matches, and keeps the [`TOP_K`] of them with the greatest keys, listed
/// by descending score. The field name chooses the field as [`field_named`]
/// says. Where the matcher is not asked for the query or for a candidate,
/// the scan ends with the error that [`scan_error`] names.
pub fn run_query(
    scorer: &mut Scorer,
    corpus: &Vec<Instrument>,
    text: &str,
    field_name: &str,
) -> (outcome: Result<QueryRun, ScanError>)
    requires
        old(scorer).well_formed(),
    ensures
        final(scorer).well_formed(),
        match outcome {
            Ok(run) => {
                let candidates = candidate_texts(corpus.deep_view(), field_named(field_name@));
                let scores = scores_of(text@, candidates);
                &&& scan_error(text@, candidates) is None
                &&& is_tally_of(matches_of(scores), run.matches, run.top@)
                &&& run.matches == match_count(scores)
                &&& run.top@.len() <= TOP_K
                &&& rows_are_matches(scores, run.top@)
            },
            Err(error) => scan_error(
                text@,
                candidate_texts(corpus.deep_view(), field_named(field_name@)),
            ) == Some(error),
        },
{
    let field = Field::named(field_name);
    let ghost candidates = candidate_texts(corpus.deep_view(), field);
    let ghost scores = scores_of(text@, candidates);
    let query = match FuzzyQuery::new(text) {
        Some(query) => query,
        None => {
            return Err(ScanError::QueryTooLong);
        },
    };
    let mut tally = Tally::new();
    let mut i: usize = 0;
    proof {
        lemma_matches_up_to_none(scores);
    }
    while i < corpus.len()
        invariant
            i <= corpus.len(),
            field == field_named(field_name@),
            candidates == candidate_texts(corpus.deep_view(), field),
            candidates.len() == corpus.len(),
            scores == scores_of(text@, candidates),
            query.well_formed(),
            scorer.well_formed(),
            query@ == text@,
            query_fits(text@),
            forall|k: int| 0 <= k < i ==> score_error(text@, #[trigger] candidates[k]) is None,
            tally.well_formed(),
            tally.noted() == matches_up_to(scores, i as int),
            tally.noted().len() <= i,
        decreases corpus.len() - i,
    {
        let candidate = corpus[i].candidate(field);
        proof {
            lemma_matches_step(scores, i as int);
        }
        match query.score(scorer, candidate) {
            Ok(score) => {
                tally.note(i, score);
            },
            Err(error) => {
                proof {
                    lemma_first_refused_is(text@, candidates, i as int);
                }
                return Err(refused_at(error, i));
            },
        }
        i += 1;
    }
    let run = tally.finish();
    proof {
        lemma_first_refused_is(text@, candidates, candidates.len() as int);
        lemma_matches_up_to_all(scores);
        lemma_match_count(scores);
        lemma_tally_is_bounded(matches_of(scores), run.matches, run.top@);
        lemma_rows_are_matches(scores, run.top@);
    }
    Ok(run)
}

} // verus!

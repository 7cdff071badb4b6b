//! Fuzzy scoring of one candidate text against one query text.
//!
//! The scores come from the `nucleo_matcher` crate. Nothing here is proved of
//! them: the library takes a score as what the matcher says of a query and a
//! candidate, a higher one for a better match and none for no match, and
//! states its own results over [`fuzzy_score`].
//!
//! The matcher is asked only where it is known to answer. It is not asked
//! for a query with a word that is too long for its arithmetic, nor for a
//! candidate that is too long; and where the query holds a letter with a
//! diacritic, it is not asked for a candidate with a lower case character
//! that has a case folding of its own, such as the long s. See
//! [`query_fits`], [`candidate_fits`] and [`can_score`].

use crate::text::byte_len;
use nucleo_matcher::pattern::{AtomKind, CaseMatching, Normalization, Pattern};
use nucleo_matcher::{Config, Matcher, Utf32Str};
use vstd::prelude::*;
use vstd::utf8::{is_ascii_chars, is_ascii_chars_encode_utf8};

verus! {

/// `nucleo_matcher::pattern::Pattern`: a query text prepared for matching.
#[verifier::external_type_specification]
#[verifier::external_body]
pub struct ExPattern(Pattern);

/// `nucleo_matcher::Matcher`: the matcher's configuration and working memory.
#[verifier::external_type_specification]
#[verifier::external_body]
pub struct ExMatcher(Matcher);

/// The pattern that `Pattern::new` makes of a query text when it is told to
/// ignore case, to normalize Unicode smartly and to match fuzzily.
pub uninterp spec fn fuzzy_pattern(text: Seq<char>) -> Pattern;

/// The score that `Pattern::score` gives a candidate text for the pattern of
/// a query text, under the matcher's default configuration; `None` where the
/// candidate does not match.
pub uninterp spec fn fuzzy_score(query: Seq<char>, candidate: Seq<char>) -> Option<u32>;

/// Whether a matcher is configured as `Matcher::new` leaves it when it is
/// given `Config::DEFAULT`. The two settings on case and on normalization do
/// not count: `Pattern::score` writes them anew for each word of a pattern
/// before the matcher reads them, and writes no other setting.
pub uninterp spec fn default_configured(matcher: Matcher) -> bool;

/// The character that `nucleo_matcher::chars::to_lower_case` makes of a
/// character: its simple case folding.
pub uninterp spec fn case_folded(c: char) -> char;

/// The character that `nucleo_matcher::chars::normalize` makes of a
/// character: a Latin letter without its diacritic, and any other character
/// as it is.
pub uninterp spec fn normalized(c: char) -> char;

/// Whether std's `char::is_lowercase` holds of a character.
pub uninterp spec fn std_lowercase(c: char) -> bool;

/// The longest word of a query, in characters, that is handed to the
/// matcher. The matcher adds up a 16-bit score for each word of the query,
/// character by character, and bounds that sum only for words up to this
/// length. A backslash counts as two characters: the matcher writes it
/// twice into a word where no space follows it.
pub const MAX_WORD_CHARS: usize = 2048;

/// The longest query text, in bytes, that is handed to the matcher. The
/// matcher adds up the scores of the words in 32 bits, and a text of this
/// length has no more than 65536 words.
pub const MAX_QUERY_BYTES: usize = 131072;

/// The longest candidate text, in bytes, that is handed to the matcher. The
/// matcher takes no more than `u32::MAX` characters, and it multiplies the
/// length of a candidate with that of a word of the query in a `usize`.
pub open spec fn max_candidate_bytes() -> nat {
    let room = usize::MAX as nat / MAX_WORD_CHARS as nat;
    if room < u32::MAX {
        room
    } else {
        u32::MAX as nat
    }
}

/// Whether a word of the query ends before the character at place `i`: the
/// matcher cuts a query at every space but one that follows a backslash.
pub open spec fn ends_word(query: Seq<char>, i: int) -> bool {
    query[i] == ' ' && (i == 0 || query[i - 1] != '\\')
}

/// The number of characters that the matcher makes of a character of a
/// word, at most.
pub open spec fn weight(c: char) -> int {
    if c == '\\' {
        2
    } else {
        1
    }
}

/// The number of characters between place `n` and the end of the last word
/// before it, a backslash counted twice: how much of a word the first `n`
/// characters end with.
pub open spec fn word_before(query: Seq<char>, n: int) -> int
    decreases n,
{
    if n <= 0 || ends_word(query, n - 1) {
        0
    } else {
        weight(query[n - 1]) + word_before(query, n - 1)
    }
}

/// Whether no word of a query has more than [`MAX_WORD_CHARS`] characters.
pub open spec fn words_fit(query: Seq<char>) -> bool {
    forall|n: int| 0 <= n <= query.len() ==> #[trigger] word_before(query, n) <= MAX_WORD_CHARS
}

/// Whether a query text and each of its words are short enough for the
/// matcher.
pub open spec fn query_fits(query: Seq<char>) -> bool {
    byte_len(query) <= MAX_QUERY_BYTES && words_fit(query)
}

/// Whether a candidate text is short enough for the matcher.
pub open spec fn candidate_fits(candidate: Seq<char>) -> bool {
    byte_len(candidate) <= max_candidate_bytes()
}

/// Whether the matcher's normalization leaves a character of a query as it
/// is, once its case is folded. It leaves every ASCII character so: the
/// case folding of such a character is ASCII, and the normalization
/// changes no character below `U+00C0`.
pub open spec fn char_is_plain(c: char) -> bool {
    c <= '\u{7f}' || normalized(case_folded(c)) == case_folded(c)
}

/// Whether the matcher's normalization leaves every character of a query as
/// it is. The matcher normalizes the candidates for the words of such a
/// query, and for no other word.
pub open spec fn query_is_plain(query: Seq<char>) -> bool {
    forall|i: int| 0 <= i < query.len() ==> char_is_plain(#[trigger] query[i])
}

/// Whether the matcher's two ways of folding the case of a candidate's
/// character give one result where it does not normalize. One way folds
/// every character, the other one none that std counts as lower case: they
/// differ on a lower case character with a case folding of its own, such as
/// the long s, the final sigma and the micro sign.
pub open spec fn folds_alike(c: char) -> bool {
    !(std_lowercase(c) && case_folded(c) != c)
}

/// Whether every character of a candidate folds alike.
pub open spec fn candidate_folds_alike(candidate: Seq<char>) -> bool {
    forall|i: int| 0 <= i < candidate.len() ==> folds_alike(#[trigger] candidate[i])
}

/// Whether the matcher is asked for the score of a candidate for a query.
/// It is not where the query is not plain and a character of the candidate
/// does not fold alike: the matcher then fails an assertion of its own.
pub open spec fn can_score(query: Seq<char>, candidate: Seq<char>) -> bool {
    query_is_plain(query) || candidate_folds_alike(candidate)
}

/// Why the matcher was not asked for a score.
#[derive(Clone, Copy, Debug, PartialEq, Eq, Structural)]
pub enum ScoreError {
    /// The candidate has more than [`max_candidate_bytes`] bytes.
    CandidateTooLong,
    /// A character of the candidate does not fold alike, and the query is
    /// not plain.
    CandidateFoldsTwoWays,
}

/// The error that a score ends with, if any: the length of the candidate is
/// looked at first.
pub open spec fn score_error(query: Seq<char>, candidate: Seq<char>) -> Option<ScoreError> {
    if !candidate_fits(candidate) {
        Some(ScoreError::CandidateTooLong)
    } else if !can_score(query, candidate) {
        Some(ScoreError::CandidateFoldsTwoWays)
    } else {
        None
    }
}

/// The matcher with its working memory, made once and used for every score.
pub struct Scorer {
    matcher: Matcher,
    buffer: Vec<char>,
}

/// A query text together with the pattern that the matcher made of it, and
/// whether the text is plain.
pub struct FuzzyQuery {
    text: String,
    pattern: Pattern,
    plain: bool,
}

impl View for FuzzyQuery {
    type V = Seq<char>;

    /// The query text.
    closed spec fn view(&self) -> Seq<char> {
        self.text@
    }
}

/// `Matcher::new` with `Config::DEFAULT`: the matcher that it returns is
/// configured by default.
#[verifier::external_body]
fn new_matcher() -> (matcher: Matcher)
    ensures
        default_configured(matcher),
{
    Matcher::new(Config::DEFAULT)
}

/// `Pattern::new` with `CaseMatching::Ignore`, `Normalization::Smart` and
/// `AtomKind::Fuzzy`. The pattern depends on the text alone, and
/// [`fuzzy_pattern`] is its name.
#[verifier::external_body]
fn new_pattern(text: &str) -> (pattern: Pattern)
    ensures
        pattern == fuzzy_pattern(text@),
{
    Pattern::new(text, CaseMatching::Ignore, Normalization::Smart, AtomKind::Fuzzy)
}

/// `nucleo_matcher::chars::to_lower_case`, of which [`case_folded`] is the
/// name.
#[verifier::external_body]
fn fold_case(c: char) -> (folded: char)
    ensures
        folded == case_folded(c),
{
    nucleo_matcher::chars::to_lower_case(c)
}

/// `nucleo_matcher::chars::normalize`, of which [`normalized`] is the name.
#[verifier::external_body]
fn normalize_char(c: char) -> (plain: char)
    ensures
        plain == normalized(c),
{
    nucleo_matcher::chars::normalize(c)
}

/// std's `char::is_lowercase`, of which [`std_lowercase`] is the name.
#[verifier::external_body]
fn is_lowercase_char(c: char) -> (lower: bool)
    ensures
        lower == std_lowercase(c),
{
    c.is_lowercase()
}

/// `Utf32Str::new`, which writes the candidate into the scorer's buffer where
/// it is not ASCII, and `Pattern::score` on what that gives. With a matcher
/// that is configured by default the score depends on the query text and
/// the candidate alone, and [`fuzzy_score`] is its name; the call leaves the
/// matcher configured by default. The bounds in `requires` keep the
/// matcher's own arithmetic and its assertion on the candidate's length from
/// panicking. The last clause keeps the matcher from the one case in which
/// its two ways of folding a candidate's characters differ: it normalizes
/// the candidate for every word of a plain query, which makes the two ways
/// one, and without normalization they differ on no character that folds
/// alike.
#[verifier::external_body]
fn pattern_score(query: &FuzzyQuery, scorer: &mut Scorer, candidate: &str) -> (score: Option<u32>)
    requires
        query.well_formed(),
        old(scorer).well_formed(),
        candidate_fits(candidate@),
        can_score(query@, candidate@),
    ensures
        score == fuzzy_score(query@, candidate@),
        final(scorer).well_formed(),
{
    let haystack = Utf32Str::new(candidate, &mut scorer.buffer);
    query.pattern.score(haystack, &mut scorer.matcher)
}

impl Scorer {
    /// The matcher is configured by default, so that its scores are those
    /// that [`fuzzy_score`] names.
    pub closed spec fn well_formed(&self) -> bool {
        default_configured(self.matcher)
    }

    /// A scorer whose matcher is configured by default.
    pub fn new() -> (scorer: Scorer)
        ensures
            scorer.well_formed(),
    {
        Scorer { matcher: new_matcher(), buffer: Vec::new() }
    }
}

impl FuzzyQuery {
    /// The pattern is the one of the text, the text is short enough for the
    /// matcher, and it is known whether the text is plain.
    pub closed spec fn well_formed(&self) -> bool {
        &&& self.pattern == fuzzy_pattern(self.text@)
        &&& query_fits(self.text@)
        &&& self.plain == query_is_plain(self.text@)
    }

    /// Prepares a query text for matching. A text of more than
    /// [`MAX_QUERY_BYTES`] bytes, or with a word of more than
    /// [`MAX_WORD_CHARS`] characters, is refused.
    pub fn new(text: &str) -> (query: Option<FuzzyQuery>)
        ensures
            query is Some <==> query_fits(text@),
            query matches Some(q) ==> q.well_formed() && q@ == text@,
    {
        if text.as_bytes().len() <= MAX_QUERY_BYTES && words_are_short(text) {
            let plain = is_plain(text);
            Some(FuzzyQuery { text: text.to_owned(), pattern: new_pattern(text), plain })
        } else {
            None
        }
    }

    /// The query text.
    pub fn text(&self) -> (text: &str)
        ensures
            text@ == self@,
    {
        self.text.as_str()
    }

    /// The score of a candidate text for this query, or `None` where the
    /// candidate does not match. The matcher is not asked, and an error
    /// says why, where the candidate is too long, or where one of its
    /// characters does not fold alike and the query is not plain. The
    /// scorer stays fit for further scores.
    pub fn score(&self, scorer: &mut Scorer, candidate: &str) -> (outcome: Result<
        Option<u32>,
        ScoreError,
    >)
        requires
            self.well_formed(),
            old(scorer).well_formed(),
        ensures
            final(scorer).well_formed(),
            match outcome {
                Ok(score) => score_error(self@, candidate@) is None && score == fuzzy_score(
                    self@,
                    candidate@,
                ),
                Err(error) => score_error(self@, candidate@) == Some(error),
            },
    {
        if !fits_matcher(candidate) {
            Err(ScoreError::CandidateTooLong)
        } else if !self.plain && !folds_alike_throughout(candidate) {
            Err(ScoreError::CandidateFoldsTwoWays)
        } else {
            Ok(pattern_score(self, scorer, candidate))
        }
    }
}

/// Whether the matcher's normalization leaves every character of a query
/// text as it is.
pub fn is_plain(text: &str) -> (plain: bool)
    ensures
        plain == query_is_plain(text@),
{
    let mut plain = true;
    for c in it: text.chars()
        invariant
            it.seq() == text@,
            plain == query_is_plain(text@.take(it.index() as int)),
    {
        let ghost before = text@.take(it.index() as int);
        proof {
            assert(text@.take(it.index() + 1) == before.push(c));
            if query_is_plain(before.push(c)) {
                assert(before.push(c)[before.len() as int] == c);
            }
        }
        if c > '\u{7f}' {
            let folded = fold_case(c);
            if normalize_char(folded) != folded {
                plain = false;
            }
        }
    }
    proof {
        assert(text@.take(text@.len() as int) == text@);
    }
    plain
}

/// Whether every character of a candidate text folds alike.
pub fn folds_alike_throughout(candidate: &str) -> (alike: bool)
    ensures
        alike == candidate_folds_alike(candidate@),
{
    for c in it: candidate.chars()
        invariant
            it.seq() == candidate@,
            candidate_folds_alike(candidate@.take(it.index() as int)),
    {
        if is_lowercase_char(c) && fold_case(c) != c {
            return false;
        }
    }
    proof {
        assert(candidate@.take(candidate@.len() as int) == candidate@);
    }
    true
}

/// Whether no word of a query text has more than [`MAX_WORD_CHARS`]
/// characters.
pub fn words_are_short(text: &str) -> (short: bool)
    ensures
        short == words_fit(text@),
{
    let mut word: usize = 0;
    let mut after_backslash = false;
    for c in it: text.chars()
        invariant
            it.seq() == text@,
            word == word_before(text@, it.index() as int),
            word <= MAX_WORD_CHARS,
            after_backslash == (it.index() > 0 && text@[it.index() - 1] == '\\'),
            forall|n: int|
                0 <= n <= it.index() ==> #[trigger] word_before(text@, n) <= MAX_WORD_CHARS,
    {
        let weight: usize = if c == '\\' {
            2
        } else {
            1
        };
        if c == ' ' && !after_backslash {
            word = 0;
        } else if word > MAX_WORD_CHARS - weight {
            proof {
                assert(word_before(text@, it.index() + 1) > MAX_WORD_CHARS);
            }
            return false;
        } else {
            word = word + weight;
        }
        after_backslash = c == '\\';
    }
    true
}

/// An ASCII query is plain.
pub proof fn lemma_ascii_query_is_plain(query: Seq<char>)
    requires
        is_ascii_chars(query),
    ensures
        query_is_plain(query),
{
}

/// No more of a word stands before a place than there are characters before
/// it, each counted twice at most, so a query of up to half of
/// [`MAX_WORD_CHARS`] characters has no word that is too long.
pub proof fn lemma_word_before(query: Seq<char>, n: int)
    requires
        0 <= n,
    ensures
        0 <= word_before(query, n) <= 2 * n,
    decreases n,
{
    if n > 0 && !ends_word(query, n - 1) {
        lemma_word_before(query, n - 1);
    }
}

/// An ASCII query of up to half of [`MAX_WORD_CHARS`] characters fits the
/// matcher, and the matcher is asked for it on every candidate that is not
/// too long.
pub proof fn lemma_short_ascii_query(query: Seq<char>, candidate: Seq<char>)
    requires
        is_ascii_chars(query),
        2 * query.len() <= MAX_WORD_CHARS,
    ensures
        query_fits(query),
        score_error(query, candidate) is None <==> candidate_fits(candidate),
{
    is_ascii_chars_encode_utf8(query);
    lemma_ascii_query_is_plain(query);
    assert forall|n: int| 0 <= n <= query.len() implies #[trigger] word_before(query, n)
        <= MAX_WORD_CHARS by {
        lemma_word_before(query, n);
    }
}

/// Whether a candidate text is short enough for the matcher.
pub fn fits_matcher(candidate: &str) -> (fits: bool)
    ensures
        fits == candidate_fits(candidate@),
{
    let room = usize::MAX / MAX_WORD_CHARS;
    let limit = if room < 0xFFFF_FFFF {
        room
    } else {
        0xFFFF_FFFF
    };
    candidate.as_bytes().len() <= limit
}

} // verus!

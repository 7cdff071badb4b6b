use nucleo_harness::matcher::{FuzzyQuery, ScoreError, Scorer};
use nucleo_matcher::pattern::{AtomKind, CaseMatching, Normalization, Pattern};
use nucleo_matcher::{Config, Matcher, Utf32Str};

/// Letters with and without diacritics, lower case letters with a case
/// folding, and what else a query or a candidate may hold.
const ALPHABET: [char; 40] = [
    'ſ', 'ς', 'µ', 'ϐ', 'ϑ', 'ẛ', 'é', 'ü', 'É', 'Ü', 'ß', 'ẞ', 's', 'S', 'e', 'E', ' ', '\\',
    '日', 'İ', 'ı', 'K', '\u{301}', 'a', 'A', 'σ', 'Σ', 'μ', 'k', 'i', 'I', '/', '-', 'ñ', 'Å',
    'å', 'z', 'Z', '1', 'ǅ',
];

/// A text of up to twelve characters of the alphabet: of those that the
/// matcher does not normalize, or of those that fold alike, where that is
/// asked.
fn text(seed: &mut u32, plain_only: bool, alike_only: bool) -> String {
    *seed = seed.wrapping_mul(1664525).wrapping_add(1013904223);
    let len = ((*seed >> 24) % 13) as usize;
    let mut out = String::new();
    while out.chars().count() < len {
        *seed = seed.wrapping_mul(1664525).wrapping_add(1013904223);
        let c = ALPHABET[((*seed >> 16) as usize) % ALPHABET.len()];
        if alike_only && c.is_lowercase() && nucleo_matcher::chars::to_lower_case(c) != c {
            continue;
        }
        if plain_only {
            let folded = nucleo_matcher::chars::to_lower_case(c);
            if nucleo_matcher::chars::normalize(folded) != folded {
                continue;
            }
        }
        out.push(c);
    }
    out
}

#[test]
fn admitted_inputs_are_scored_as_the_matcher_scores_them() {
    let mut scorer = Scorer::new();
    let mut matcher = Matcher::new(Config::DEFAULT);
    let mut buffer = Vec::new();
    let mut seed: u32 = 20240607;
    let mut asked = 0usize;
    let mut refused = 0usize;
    for round in 0..90000usize {
        let kind = round % 3;
        let query = text(&mut seed, kind == 0, false);
        let candidate = text(&mut seed, false, kind == 1);
        let prepared = FuzzyQuery::new(&query).unwrap();
        match prepared.score(&mut scorer, &candidate) {
            Ok(score) => {
                asked += 1;
                let pattern = Pattern::new(
                    &query,
                    CaseMatching::Ignore,
                    Normalization::Smart,
                    AtomKind::Fuzzy,
                );
                let direct = pattern.score(Utf32Str::new(&candidate, &mut buffer), &mut matcher);
                assert_eq!(score, direct, "{:?} on {:?}", query, candidate);
            }
            Err(error) => {
                refused += 1;
                assert_eq!(error, ScoreError::CandidateFoldsTwoWays);
                assert!(candidate
                    .chars()
                    .any(|c| c.is_lowercase() && nucleo_matcher::chars::to_lower_case(c) != c));
            }
        }
    }
    assert!(asked > 45000);
    assert!(refused > 1000);
}

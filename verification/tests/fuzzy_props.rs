use op::fuzzy::scored_fuzzy_search;

#[test]
fn empty_pattern_matches_everything() {
    // An empty pattern is vacuously a full match and the score is one
    // unmatched-character penalty per candidate character.
    let (is_match, score) = scored_fuzzy_search("", "project");
    assert!(is_match);
    assert_eq!(score, -7);

    let (is_match, score) = scored_fuzzy_search("", "");
    assert!(is_match);
    assert_eq!(score, 0);

    let (is_match, _) = scored_fuzzy_search("", "a_b c");
    assert!(is_match);
}

#[test]
fn non_subsequence_never_matches() {
    assert!(!scored_fuzzy_search("xyz", "project").0);
    assert!(!scored_fuzzy_search("ject", "jet").0);
    assert!(!scored_fuzzy_search("aa", "a").0);
    assert!(!scored_fuzzy_search("a", "").0);
}

#[test]
fn subsequence_matches() {
    assert!(scored_fuzzy_search("prj", "project").0);
    assert!(scored_fuzzy_search("project", "project").0);
    assert!(scored_fuzzy_search("pot", "project").0);
}

#[test]
fn matching_is_case_insensitive() {
    assert!(scored_fuzzy_search("PRJ", "project").0);
    assert!(scored_fuzzy_search("prj", "PROJECT").0);
    assert!(scored_fuzzy_search("PrJ", "pRoJect").0);
}

#[test]
fn contiguous_match_beats_fragmented_match() {
    // Both are true matches; the fragmented one scores strictly lower.
    let (m1, s1) = scored_fuzzy_search("prj", "project");
    let (m2, s2) = scored_fuzzy_search("prj", "pxrxjx");
    assert!(m1);
    assert!(m2);
    assert_eq!(s1, 11);
    assert_eq!(s2, 7);
    assert!(s1 > s2);
}

#[test]
fn separator_and_camel_case_bonuses() {
    // A match right after an underscore earns the separator bonus, so the
    // separated candidate outscores the plain one.
    let (m1, s1) = scored_fuzzy_search("ab", "a_b");
    let (m2, s2) = scored_fuzzy_search("ab", "axb");
    assert!(m1 && m2);
    assert!(s1 > s2);

    // A match on a lowercase-to-uppercase boundary earns the camel-case
    // bonus.
    let (m3, s3) = scored_fuzzy_search("ab", "axB");
    assert!(m3);
    assert!(s3 > s2);
}

#[test]
fn pending_rematch_prefers_better_occurrence() {
    // With a repeated pattern character the walk keeps a pending occurrence
    // and re-opens it on every later candidate for the same character,
    // committing the better-scoring one.
    assert_eq!(scored_fuzzy_search("bb", "b_b"), (true, 30));
}

#[test]
fn leading_penalty_caps() {
    // The first pattern character pays three per skipped candidate
    // character, capped at nine.
    let (_, s0) = scored_fuzzy_search("a", "a");
    let (_, s1) = scored_fuzzy_search("a", "xa");
    let (_, s2) = scored_fuzzy_search("a", "xxa");
    let (_, s5) = scored_fuzzy_search("a", "xxxxxa");
    // A match at the very start also earns the separator bonus for the
    // string's start, so the first step down is the largest.
    assert_eq!(s0, 10);
    assert_eq!(s1, -4);
    assert_eq!(s1 - s2, 4); // one more unmatched char (-1) and -3 more lead
    // From position three on the lead penalty stays at its cap: scores
    // differ only by the unmatched-character penalty.
    let (_, s6) = scored_fuzzy_search("a", "xxxxxxa");
    assert_eq!(s5 - s6, 1);
}

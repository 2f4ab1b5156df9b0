use openbim_dt::pattern::matches_pattern;

#[test]
fn guid_pattern_matches_whole_values_only() {
    let guid = "[0-9a-fA-F]{8}-[0-9a-fA-F]{4}-[0-9a-fA-F]{4}-[0-9a-fA-F]{4}-[0-9a-fA-F]{12}";
    assert!(matches_pattern(guid, "11111111-1111-1111-1111-111111111111"));
    assert!(!matches_pattern(guid, "11111111-1111-1111-1111-11111111111"));
    assert!(!matches_pattern(guid, "x11111111-1111-1111-1111-111111111111"));
}

#[test]
fn alternation_and_repetition() {
    assert!(matches_pattern("ab|cd", "cd"));
    assert!(!matches_pattern("ab|cd", "abcd"));
    assert!(matches_pattern("a*b+", "bbb"));
    assert!(matches_pattern("a?b", "ab"));
    assert!(!matches_pattern("a?b", "aab"));
    assert!(matches_pattern("(ab){2,3}", "ababab"));
    assert!(!matches_pattern("(ab){2,3}", "ab"));
}

#[test]
fn unreadable_patterns_match_nothing() {
    assert!(!matches_pattern("(ab", "ab"));
}

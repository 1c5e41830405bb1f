use pog::search::{search_lines, CompiledPattern, SearchState};

#[test]
fn search_lines_reports_matches_with_columns() {
    let pattern = CompiledPattern::compile("error").unwrap();
    let lines = vec![
        (10, "no issue".to_string()),
        (11, "error here".to_string()),
        (12, "error again".to_string()),
    ];
    let matches = search_lines(&pattern, &lines);
    assert_eq!(matches.len(), 2);
    assert_eq!(matches[0].line_num, 11);
    assert_eq!(matches[0].start_col, 0);
    assert_eq!(matches[0].end_col, 5);
    assert_eq!(matches[1].line_num, 12);
    assert_eq!(matches[1].start_col, 0);
    assert_eq!(matches[1].end_col, 5);
}

#[test]
fn search_lines_finds_multiple_matches_per_line() {
    let pattern = CompiledPattern::compile("ab").unwrap();
    let lines = vec![(3, "ab ab".to_string())];
    let matches = search_lines(&pattern, &lines);
    assert_eq!(matches.len(), 2);
    assert_eq!((matches[0].start_col, matches[0].end_col), (0, 2));
    assert_eq!((matches[1].start_col, matches[1].end_col), (3, 5));
}

#[test]
fn set_pattern_rejects_malformed_regex() {
    let mut state = SearchState::new();
    assert!(!state.is_active);
    let err = state.set_pattern("[unclosed").unwrap_err();
    assert!(err.starts_with("invalid regex:"));
    assert!(!state.is_active);
    assert!(state.pattern.is_none());
}

#[test]
fn set_pattern_activates_and_resets() {
    let mut state = SearchState::new();
    state.set_pattern("foo").unwrap();
    assert!(state.is_active);
    assert_eq!(state.pattern_str, "foo");
    state.update_matches(
        vec![pog::search::SearchMatch { line_num: 4, start_col: 1, end_col: 2 }],
        (0, 10),
    );
    assert_eq!(state.last_searched_range, Some((0, 10)));
    assert_eq!(state.current_match_index, Some(0));
    // Installing a new pattern drops matches and the searched range.
    state.set_pattern("bar").unwrap();
    assert!(state.viewport_matches.is_empty());
    assert_eq!(state.current_match_index, None);
    assert_eq!(state.last_searched_range, None);
    // Clearing goes back to the inactive initial state.
    state.clear();
    assert!(!state.is_active);
    assert_eq!(state.pattern_str, "");
}

fn three_matches() -> Vec<pog::search::SearchMatch> {
    (0..3)
        .map(|i| pog::search::SearchMatch { line_num: 10 + i, start_col: 0, end_col: 1 })
        .collect()
}

#[test]
fn update_matches_keeps_index_in_bounds() {
    let mut state = SearchState::new();
    state.set_pattern("x").unwrap();
    state.update_matches(three_matches(), (0, 100));
    assert_eq!(state.current_match_index, Some(0));
    state.next_match_in_viewport();
    state.next_match_in_viewport();
    assert_eq!(state.current_match_index, Some(2));
    // The index survives while it stays in bounds...
    state.update_matches(three_matches(), (0, 100));
    assert_eq!(state.current_match_index, Some(2));
    // ...is reset to the first match when it falls out of bounds...
    state.update_matches(three_matches()[..1].to_vec(), (0, 100));
    assert_eq!(state.current_match_index, Some(0));
    // ...and is dropped when no match remains.
    state.update_matches(Vec::new(), (0, 100));
    assert_eq!(state.current_match_index, None);
    assert!(state.current_match().is_none());
}

#[test]
fn viewport_navigation_wraps_both_ways() {
    let mut state = SearchState::new();
    state.set_pattern("x").unwrap();
    state.update_matches(three_matches(), (0, 100));
    assert_eq!(state.current_match().unwrap().line_num, 10);
    assert_eq!(state.next_match_in_viewport().unwrap().line_num, 11);
    assert_eq!(state.next_match_in_viewport().unwrap().line_num, 12);
    assert_eq!(state.next_match_in_viewport().unwrap().line_num, 10);
    assert_eq!(state.prev_match_in_viewport().unwrap().line_num, 12);
    assert_eq!(state.prev_match_in_viewport().unwrap().line_num, 11);
}

#[test]
fn navigation_on_empty_viewport_returns_none() {
    let mut state = SearchState::new();
    state.set_pattern("x").unwrap();
    assert!(state.next_match_in_viewport().is_none());
    assert!(state.prev_match_in_viewport().is_none());
}

#[test]
fn needs_research_inactive_session() {
    let state = SearchState::new();
    assert!(state.needs_research(0, 50, 100));
    assert!(state.needs_research(1000, 50, 100));
}

#[test]
fn needs_research_without_searched_range() {
    let mut state = SearchState::new();
    state.set_pattern("x").unwrap();
    assert!(state.needs_research(0, 50, 100));
}

#[test]
fn needs_research_hysteresis_band() {
    let mut state = SearchState::new();
    state.set_pattern("x").unwrap();
    state.update_matches(Vec::new(), (100, 250));
    // Searched [100, 250), buffer 100, so half is 50: the window must stay
    // within [150, 200).
    assert!(state.needs_research(95, 50, 100));
    assert!(state.needs_research(120, 50, 100));
    assert!(!state.needs_research(150, 50, 100));
    assert!(state.needs_research(151, 50, 100));
    assert!(!state.needs_research(150, 49, 100));
}

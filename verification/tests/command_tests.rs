use pog::commands::{parse_command, CommandResponse, PogCommand};

#[test]
fn test_parse_goto() {
    assert_eq!(
        parse_command("goto 100"),
        Ok(PogCommand::Goto { line: 100 })
    );
    assert_eq!(
        parse_command("GOTO 1"),
        Ok(PogCommand::Goto { line: 1 })
    );
    assert_eq!(
        parse_command("  goto   42  "),
        Ok(PogCommand::Goto { line: 42 })
    );
}

#[test]
fn test_parse_lines() {
    assert_eq!(parse_command("lines"), Ok(PogCommand::Lines));
    assert_eq!(parse_command("LINES"), Ok(PogCommand::Lines));
    assert_eq!(parse_command("  lines  "), Ok(PogCommand::Lines));
    assert!(parse_command("lines extra").is_err());
}

#[test]
fn test_parse_top() {
    assert_eq!(parse_command("top"), Ok(PogCommand::Top));
    assert_eq!(parse_command("TOP"), Ok(PogCommand::Top));
    assert!(parse_command("top extra").is_err());
}

#[test]
fn test_parse_size() {
    assert_eq!(parse_command("size"), Ok(PogCommand::Size));
    assert_eq!(parse_command("SIZE"), Ok(PogCommand::Size));
    assert!(parse_command("size extra").is_err());
}

#[test]
fn test_parse_mark() {
    // Full-line marks
    assert_eq!(
        parse_command("mark 10 red"),
        Ok(PogCommand::Mark { line: 10, region: None, color: "red".to_string() })
    );
    assert_eq!(
        parse_command("MARK 5 #FF0000"),
        Ok(PogCommand::Mark { line: 5, region: None, color: "#FF0000".to_string() })
    );
    assert_eq!(
        parse_command("mark 1 light blue"),
        Ok(PogCommand::Mark { line: 1, region: None, color: "light blue".to_string() })
    );
    assert!(parse_command("mark").is_err());
    assert!(parse_command("mark 10").is_err());
    assert!(parse_command("mark abc red").is_err());
    assert!(parse_command("mark 0 red").is_err());
}

#[test]
fn test_parse_mark_region() {
    // Region marks
    assert_eq!(
        parse_command("mark 10 5-20 red"),
        Ok(PogCommand::Mark { line: 10, region: Some((5, 20)), color: "red".to_string() })
    );
    assert_eq!(
        parse_command("mark 100 1-50 #FF0000"),
        Ok(PogCommand::Mark { line: 100, region: Some((1, 50)), color: "#FF0000".to_string() })
    );
    assert_eq!(
        parse_command("mark 1 10-20 light blue"),
        Ok(PogCommand::Mark { line: 1, region: Some((10, 20)), color: "light blue".to_string() })
    );
    // Error cases
    assert!(parse_command("mark 10 0-5 red").is_err());   // column 0 invalid
    assert!(parse_command("mark 10 5-0 red").is_err());   // column 0 invalid
    assert!(parse_command("mark 10 5-5 red").is_err());   // start >= end
    assert!(parse_command("mark 10 10-5 red").is_err());  // start > end
    assert!(parse_command("mark 10 5-20").is_err());      // missing color
}

#[test]
fn test_parse_unmark() {
    // Full-line unmark
    assert_eq!(parse_command("unmark 10"), Ok(PogCommand::Unmark { line: 10, region: None }));
    assert_eq!(parse_command("UNMARK 1"), Ok(PogCommand::Unmark { line: 1, region: None }));
    assert!(parse_command("unmark").is_err());
    assert!(parse_command("unmark abc").is_err());
    assert!(parse_command("unmark 0").is_err());
}

#[test]
fn test_parse_unmark_region() {
    // Region unmark
    assert_eq!(
        parse_command("unmark 10 5-20"),
        Ok(PogCommand::Unmark { line: 10, region: Some((5, 20)) })
    );
    assert_eq!(
        parse_command("unmark 100 1-50"),
        Ok(PogCommand::Unmark { line: 100, region: Some((1, 50)) })
    );
    // Error cases
    assert!(parse_command("unmark 10 0-5").is_err());    // column 0 invalid
    assert!(parse_command("unmark 10 abc").is_err());   // invalid range format
    assert!(parse_command("unmark 10 5").is_err());     // not a range
}

#[test]
fn test_parse_errors() {
    assert!(parse_command("").is_err());
    assert!(parse_command("goto").is_err());
    assert!(parse_command("goto abc").is_err());
    assert!(parse_command("goto 0").is_err());
    assert!(parse_command("unknown 123").is_err());
}

#[test]
fn test_response_format() {
    assert_eq!(CommandResponse::Okay(None).to_text(), "OK");
    assert_eq!(
        CommandResponse::Okay(Some("done".to_string())).to_text(),
        "OK done"
    );
    assert_eq!(
        CommandResponse::Error("failed".to_string()).to_text(),
        "ERROR failed"
    );
}

#[test]
fn test_parse_search() {
    assert_eq!(
        parse_command("search error"),
        Ok(PogCommand::Search { pattern: "error".to_string() })
    );
    assert_eq!(
        parse_command("SEARCH Error"),
        Ok(PogCommand::Search { pattern: "Error".to_string() })
    );
    assert_eq!(
        parse_command("search error.*warning"),
        Ok(PogCommand::Search { pattern: "error.*warning".to_string() })
    );
    assert_eq!(
        parse_command("search multiple words"),
        Ok(PogCommand::Search { pattern: "multiple words".to_string() })
    );
    assert!(parse_command("search").is_err());
}

#[test]
fn test_parse_search_next() {
    assert_eq!(parse_command("search-next"), Ok(PogCommand::SearchNext));
    assert_eq!(parse_command("SEARCH-NEXT"), Ok(PogCommand::SearchNext));
    assert!(parse_command("search-next extra").is_err());
}

#[test]
fn test_parse_search_prev() {
    assert_eq!(parse_command("search-prev"), Ok(PogCommand::SearchPrev));
    assert_eq!(parse_command("SEARCH-PREV"), Ok(PogCommand::SearchPrev));
    assert!(parse_command("search-prev extra").is_err());
}

#[test]
fn test_parse_search_clear() {
    assert_eq!(parse_command("search-clear"), Ok(PogCommand::SearchClear));
    assert_eq!(parse_command("SEARCH-CLEAR"), Ok(PogCommand::SearchClear));
    assert!(parse_command("search-clear extra").is_err());
}

#[test]
fn test_parse_error_messages() {
    assert_eq!(parse_command(""), Err("empty command".to_string()));
    assert_eq!(parse_command("goto"), Err("usage: goto <line_number>".to_string()));
    assert_eq!(
        parse_command("goto abc"),
        Err("invalid line number: abc".to_string())
    );
    assert_eq!(parse_command("goto 0"), Err("line number must be >= 1".to_string()));
    assert_eq!(
        parse_command("bogus 123"),
        Err("unknown command: bogus".to_string())
    );
}

#[test]
fn test_parse_number_forms() {
    // usize parsing accepts one leading plus sign and rejects overflow.
    assert_eq!(parse_command("goto +7"), Ok(PogCommand::Goto { line: 7 }));
    assert!(parse_command("goto 99999999999999999999999999").is_err());
    assert!(parse_command("goto ++7").is_err());
}

#[test]
fn test_parse_mark_dash_color_falls_through() {
    // A second word with a dash that is not a numeric range is a color.
    assert_eq!(
        parse_command("mark 10 light-blue"),
        Ok(PogCommand::Mark { line: 10, region: None, color: "light-blue".to_string() })
    );
}

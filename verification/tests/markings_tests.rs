use pog::markings::{FilePath, LineMarkings, Region};
use pog::text::{parse_usize, split_lines, tokenize, trim};

#[test]
fn markings_default_is_empty() {
    let m = LineMarkings::default();
    assert!(m.is_empty());
}

#[test]
fn add_region_removes_overlaps_and_keeps_order() {
    let mut m = LineMarkings::default();
    m.add_region(0, 3, "red".to_string());
    m.add_region(10, 14, "blue".to_string());
    // Overlaps both nothing and [10, 14): the overlapped region goes away.
    m.add_region(12, 20, "green".to_string());
    let spans: Vec<(usize, usize)> =
        m.regions.iter().map(|r| (r.start_col, r.end_col)).collect();
    assert_eq!(spans, vec![(0, 3), (12, 20)]);
    // Insertion keeps start columns ordered.
    m.add_region(5, 8, "white".to_string());
    let spans: Vec<(usize, usize)> =
        m.regions.iter().map(|r| (r.start_col, r.end_col)).collect();
    assert_eq!(spans, vec![(0, 3), (5, 8), (12, 20)]);
    assert!(!m.is_empty());
}

#[test]
fn remove_region_is_exact() {
    let mut m = LineMarkings::default();
    m.add_region(1, 4, "red".to_string());
    m.add_region(6, 9, "blue".to_string());
    assert!(!m.remove_region(1, 5));
    assert!(m.remove_region(1, 4));
    assert_eq!(
        m.regions,
        vec![Region { start_col: 6, end_col: 9, color: "blue".to_string() }]
    );
    assert!(!m.remove_region(1, 4));
}

#[test]
fn full_line_color_is_kept_separately() {
    let mut m = LineMarkings::default();
    m.set_full_line("yellow".to_string());
    assert!(!m.is_empty());
    m.add_region(2, 4, "red".to_string());
    assert_eq!(m.full_line_color, Some("yellow".to_string()));
    assert!(m.remove_region(2, 4));
    assert_eq!(m.full_line_color, Some("yellow".to_string()));
}

#[test]
fn file_path_parses_remote_and_local() {
    assert_eq!(
        FilePath::parse("server1:/var/log/app.log"),
        FilePath::Remote { host: "server1".to_string(), path: "/var/log/app.log".to_string() }
    );
    assert_eq!(
        FilePath::parse("/var/log/app.log"),
        FilePath::Local("/var/log/app.log".to_string())
    );
    // A colon not followed by an absolute path stays local.
    assert_eq!(
        FilePath::parse("notes:todo.txt"),
        FilePath::Local("notes:todo.txt".to_string())
    );
    // A slash before the colon means the colon is part of a local name.
    assert_eq!(
        FilePath::parse("dir/odd:/name"),
        FilePath::Local("dir/odd:/name".to_string())
    );
}

#[test]
fn tokenize_splits_on_whitespace_runs() {
    assert_eq!(tokenize("  a  bb\tccc "), vec!["a", "bb", "ccc"]);
    assert!(tokenize("   ").is_empty());
    assert!(tokenize("").is_empty());
}

#[test]
fn parse_usize_accepts_plain_and_plus_forms() {
    assert_eq!(parse_usize("0"), Some(0));
    assert_eq!(parse_usize("42"), Some(42));
    assert_eq!(parse_usize("+42"), Some(42));
    assert_eq!(parse_usize(""), None);
    assert_eq!(parse_usize("+"), None);
    assert_eq!(parse_usize("4 2"), None);
    assert_eq!(parse_usize("-1"), None);
    assert_eq!(parse_usize("99999999999999999999999999"), None);
}

#[test]
fn trim_strips_ascii_whitespace() {
    assert_eq!(trim("  7\n"), "7");
    assert_eq!(trim("\t\r\n "), "");
    assert_eq!(trim("word"), "word");
}

#[test]
fn split_lines_matches_command_output_shape() {
    assert_eq!(split_lines("a\nb\n"), vec!["a", "b"]);
    assert_eq!(split_lines("a\r\nb"), vec!["a", "b"]);
    assert_eq!(split_lines("\n"), vec![""]);
    assert!(split_lines("").is_empty());
}

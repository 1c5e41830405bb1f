use memmap2::MmapOptions;
use pog::file_loader::MappedFile;
use pog::search::SearchDirection;
use pog::worker::{process_request, FileRequest, FileResponse};

fn local_file(data: &[u8]) -> MappedFile {
    let mut m = MmapOptions::new().len(data.len()).map_anon().unwrap();
    m[..].copy_from_slice(data);
    MappedFile::from_mmap(m.make_read_only().unwrap(), "w.log".to_string())
}

fn sample() -> MappedFile {
    let content = (0..30)
        .map(|i| {
            if i == 17 {
                "an error line\n".to_string()
            } else {
                format!("calm line {}\n", i)
            }
        })
        .collect::<String>();
    local_file(content.as_bytes())
}

#[test]
fn worker_serves_lines_with_request_id() {
    let mut f = sample();
    let r = process_request(&mut f, FileRequest::GetLines { start: 2, count: 3, request_id: 9 });
    match r {
        FileResponse::Lines { lines, request_id, start } => {
            assert_eq!(request_id, 9);
            assert_eq!(start, 2);
            assert_eq!(
                lines,
                vec![
                    (2, "calm line 2".to_string()),
                    (3, "calm line 3".to_string()),
                    (4, "calm line 4".to_string()),
                ]
            );
        },
        _ => panic!("expected a Lines response"),
    }
}

#[test]
fn worker_runs_windowed_search() {
    let mut f = sample();
    let r = process_request(
        &mut f,
        FileRequest::SearchRange {
            pattern: "error".to_string(),
            start_line: 0,
            end_line: 30,
            request_id: 4,
            navigate_to_first: true,
        },
    );
    match r {
        FileResponse::SearchResults { matches, request_id, searched_range, navigate_to_first } => {
            assert_eq!(request_id, 4);
            assert_eq!(searched_range, (0, 30));
            assert!(navigate_to_first);
            assert_eq!(matches.len(), 1);
            assert_eq!(matches[0].line_num, 17);
            assert_eq!(matches[0].start_col, 3);
            assert_eq!(matches[0].end_col, 8);
        },
        _ => panic!("expected a SearchResults response"),
    }
}

#[test]
fn worker_rejects_malformed_pattern() {
    let mut f = sample();
    let r = process_request(
        &mut f,
        FileRequest::SearchRange {
            pattern: "(".to_string(),
            start_line: 0,
            end_line: 30,
            request_id: 1,
            navigate_to_first: false,
        },
    );
    match r {
        FileResponse::Error { message } => assert!(message.starts_with("invalid regex:")),
        _ => panic!("expected an Error response"),
    }
}

#[test]
fn worker_finds_next_match() {
    let mut f = sample();
    let r = process_request(
        &mut f,
        FileRequest::FindNextMatch {
            pattern: "error".to_string(),
            from_line: 0,
            direction: SearchDirection::Forward,
            request_id: 7,
        },
    );
    match r {
        FileResponse::FoundMatch { match_info, line_num, request_id } => {
            assert_eq!(request_id, 7);
            assert_eq!(line_num, Some(17));
            let m = match_info.unwrap();
            assert_eq!((m.line_num, m.start_col, m.end_col), (17, 3, 8));
        },
        _ => panic!("expected a FoundMatch response"),
    }
}

#[test]
fn worker_find_next_reports_no_match() {
    let mut f = sample();
    let r = process_request(
        &mut f,
        FileRequest::FindNextMatch {
            pattern: "error".to_string(),
            from_line: 17,
            direction: SearchDirection::Forward,
            request_id: 8,
        },
    );
    match r {
        FileResponse::FoundMatch { match_info, line_num, .. } => {
            assert!(match_info.is_none());
            assert!(line_num.is_none());
        },
        _ => panic!("expected a FoundMatch response"),
    }
}

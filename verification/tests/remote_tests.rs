use std::cell::Cell;
use std::cell::RefCell;

use pog::error::PogError;
use pog::file_source::FileSource;
use pog::remote_loader::{ExecOutcome, RemoteFile};
use pog::search::{find_next, CompiledPattern, SearchDirection};

/// Parse the decimal number that follows `marker` in `cmd`.
fn number_after(cmd: &str, marker: &str) -> usize {
    let at = cmd.find(marker).unwrap() + marker.len();
    let digits: String = cmd[at..].chars().take_while(|c| c.is_ascii_digit()).collect();
    digits.parse().unwrap()
}

/// A fake remote host holding `lines`; answers count probes and chunk
/// fetches the way the real command pipeline would.
fn serve(lines: &[String], cmd: &str) -> ExecOutcome {
    if cmd.starts_with("wc -l") {
        return ExecOutcome::Output(format!("{}\n", lines.len()).into_bytes());
    }
    if cmd.starts_with("stat -c%s") {
        let total: usize = lines.iter().map(|l| l.len() + 1).sum();
        return ExecOutcome::Output(format!("{}\n", total).into_bytes());
    }
    let start1 = number_after(cmd, "tail -n +");
    let count = number_after(cmd, "head -n ");
    let mut out = String::new();
    for i in 0..count {
        let idx = start1 - 1 + i;
        if idx < lines.len() {
            out.push_str(&lines[idx]);
            out.push('\n');
        }
    }
    ExecOutcome::Output(out.into_bytes())
}

#[test]
fn remote_retry_succeeds_on_third_attempt() {
    let calls = Cell::new(0usize);
    let runner = |attempt: usize, _cmd: String| -> ExecOutcome {
        calls.set(calls.get() + 1);
        if attempt < 2 {
            ExecOutcome::Io(format!("transient {}", attempt))
        } else {
            ExecOutcome::Output(b"2000\n".to_vec())
        }
    };
    let rf = RemoteFile::open("host", "/var/log/big.log", runner).unwrap();
    assert_eq!(calls.get(), 3);
    assert_eq!(rf.line_count(), 2000);
    assert_eq!(rf.display_name(), "host:/var/log/big.log");
}

#[test]
fn remote_retry_surfaces_last_failure() {
    let runner = |attempt: usize, _cmd: String| -> ExecOutcome {
        ExecOutcome::Io(format!("boom {}", attempt))
    };
    let err = match RemoteFile::open("host", "/var/log/big.log", runner) {
        Err(e) => e,
        Ok(_) => panic!("expected an error"),
    };
    match err {
        PogError::Io(msg) => assert_eq!(msg, "boom 2"),
        other => panic!("unexpected error: {}", other.message()),
    }
}

#[test]
fn remote_open_classifies_missing_file() {
    let runner = |_a: usize, _cmd: String| -> ExecOutcome {
        ExecOutcome::Failed("bash: /gone.log: No such file or directory".to_string())
    };
    let err = match RemoteFile::open("host", "/gone.log", runner) {
        Err(e) => e,
        Ok(_) => panic!("expected an error"),
    };
    match err {
        PogError::FileNotFound { path } => assert_eq!(path, "host:/gone.log"),
        other => panic!("unexpected error: {}", other.message()),
    }
}

#[test]
fn remote_open_classifies_permission_denied() {
    let runner = |_a: usize, _cmd: String| -> ExecOutcome {
        ExecOutcome::Failed("bash: /secret.log: Permission denied".to_string())
    };
    let err = match RemoteFile::open("host", "/secret.log", runner) {
        Err(e) => e,
        Ok(_) => panic!("expected an error"),
    };
    match err {
        PogError::PermissionDenied { path } => assert_eq!(path, "host:/secret.log"),
        other => panic!("unexpected error: {}", other.message()),
    }
}

#[test]
fn remote_open_other_failures_are_generic() {
    let runner = |_a: usize, _cmd: String| -> ExecOutcome {
        ExecOutcome::Failed("kex_exchange_identification: closed".to_string())
    };
    let err = match RemoteFile::open("badhost", "/x.log", runner) {
        Err(e) => e,
        Ok(_) => panic!("expected an error"),
    };
    match err {
        PogError::Ssh { host, message } => {
            assert_eq!(host, "badhost");
            assert_eq!(message, "kex_exchange_identification: closed");
        },
        other => panic!("unexpected error: {}", other.message()),
    }
}

#[test]
fn remote_open_rejects_bad_count_output() {
    let runner = |_a: usize, _cmd: String| -> ExecOutcome {
        ExecOutcome::Output(b"not a number\n".to_vec())
    };
    let err = match RemoteFile::open("host", "/x.log", runner) {
        Err(e) => e,
        Ok(_) => panic!("expected an error"),
    };
    match err {
        PogError::Ssh { message, .. } => {
            assert_eq!(message, "Invalid line count: not a number");
        },
        other => panic!("unexpected error: {}", other.message()),
    }
}

#[test]
fn remote_open_rejects_invalid_utf8_output() {
    let runner = |_a: usize, _cmd: String| -> ExecOutcome { ExecOutcome::Output(vec![0xFF, 0xFE]) };
    let err = match RemoteFile::open("host", "/x.log", runner) {
        Err(e) => e,
        Ok(_) => panic!("expected an error"),
    };
    assert!(matches!(err, PogError::Utf8(_)));
}

#[test]
fn remote_get_lines_caches_chunks() {
    let lines: Vec<String> = (0..1234).map(|i| format!("entry {}", i)).collect();
    let fetches = RefCell::new(Vec::new());
    let runner = |_a: usize, cmd: String| -> ExecOutcome {
        let lines: Vec<String> = (0..1234).map(|i| format!("entry {}", i)).collect();
        if cmd.starts_with("tail") {
            fetches.borrow_mut().push(number_after(&cmd, "tail -n +"));
        }
        serve(&lines, &cmd)
    };
    let mut rf = RemoteFile::open("host", "/log", runner).unwrap();
    assert_eq!(rf.line_count(), lines.len());

    let got = rf.get_lines(498, 4).unwrap();
    assert_eq!(
        got,
        vec![
            (498, "entry 498".to_string()),
            (499, "entry 499".to_string()),
            (500, "entry 500".to_string()),
            (501, "entry 501".to_string()),
        ]
    );
    // Chunks 0 and 500 were fetched once each (1-based starts 1 and 501).
    assert_eq!(fetches.borrow().clone(), vec![1, 501]);

    // A second read of the same range is served from cache.
    let again = rf.get_lines(498, 4).unwrap();
    assert_eq!(again.len(), 4);
    assert_eq!(fetches.borrow().len(), 2);

    // The short final chunk clips at end of file.
    let tail = rf.get_lines(1232, 10).unwrap();
    assert_eq!(
        tail,
        vec![(1232, "entry 1232".to_string()), (1233, "entry 1233".to_string())]
    );
}

#[test]
fn remote_get_line_out_of_range_is_none() {
    let runner = |_a: usize, cmd: String| -> ExecOutcome {
        let lines = vec!["a".to_string(), "b".to_string()];
        serve(&lines, &cmd)
    };
    let mut rf = RemoteFile::open("host", "/log", runner).unwrap();
    assert_eq!(rf.get_line(1).unwrap(), Some("b".to_string()));
    assert_eq!(rf.get_line(2).unwrap(), None);
}

#[test]
fn remote_file_size_probes() {
    let runner = |_a: usize, cmd: String| -> ExecOutcome {
        if cmd.starts_with("stat -c%s") {
            ExecOutcome::Output(b" 40960\n".to_vec())
        } else {
            ExecOutcome::Output(b"3\n".to_vec())
        }
    };
    let rf = RemoteFile::open("host", "/log", runner).unwrap();
    assert_eq!(rf.file_size().unwrap(), 40960);
}

#[test]
fn find_next_scans_forward_in_strides() {
    let mut lines: Vec<String> = (0..2000).map(|i| format!("quiet {}", i)).collect();
    lines[1500] = "needle appears".to_string();
    let runner = {
        let lines = lines.clone();
        move |_a: usize, cmd: String| -> ExecOutcome { serve(&lines, &cmd) }
    };
    let mut rf = RemoteFile::open("host", "/log", runner).unwrap();
    let pattern = CompiledPattern::compile("needle").unwrap();
    let m = find_next(&mut rf, &pattern, 5, SearchDirection::Forward).unwrap();
    assert_eq!(m.line_num, 1500);
    assert_eq!(m.start_col, 0);
    assert_eq!(m.end_col, 6);
}

#[test]
fn find_next_backward_finds_latest_match() {
    let mut lines: Vec<String> = (0..2000).map(|i| format!("quiet {}", i)).collect();
    lines[100] = "needle one".to_string();
    lines[700] = "needle two".to_string();
    let runner = {
        let lines = lines.clone();
        move |_a: usize, cmd: String| -> ExecOutcome { serve(&lines, &cmd) }
    };
    let mut rf = RemoteFile::open("host", "/log", runner).unwrap();
    let pattern = CompiledPattern::compile("needle").unwrap();
    let m = find_next(&mut rf, &pattern, 1800, SearchDirection::Backward).unwrap();
    assert_eq!(m.line_num, 700);
    let m2 = find_next(&mut rf, &pattern, 700, SearchDirection::Backward).unwrap();
    assert_eq!(m2.line_num, 100);
    assert!(find_next(&mut rf, &pattern, 100, SearchDirection::Backward).is_none());
}

#[test]
fn remote_out_of_range_reads_need_no_fetch() {
    let runner = |_a: usize, cmd: String| -> ExecOutcome {
        if cmd.starts_with("wc -l") {
            ExecOutcome::Output(b"10\n".to_vec())
        } else {
            ExecOutcome::Failed("unreachable".to_string())
        }
    };
    let mut rf = RemoteFile::open("host", "/log", runner).unwrap();
    assert_eq!(rf.get_line(10).unwrap(), None);
    assert!(rf.get_lines(10, 5).unwrap().is_empty());
    assert!(rf.get_lines(3, 0).unwrap().is_empty());
}

#[test]
fn remote_cached_reads_survive_channel_loss() {
    let served = Cell::new(false);
    let runner = |_a: usize, cmd: String| -> ExecOutcome {
        if cmd.starts_with("wc -l") {
            return ExecOutcome::Output(b"3\n".to_vec());
        }
        if served.get() {
            return ExecOutcome::Failed("gone".to_string());
        }
        served.set(true);
        let lines = vec!["a".to_string(), "b".to_string(), "c".to_string()];
        serve(&lines, &cmd)
    };
    let mut rf = RemoteFile::open("host", "/log", runner).unwrap();
    assert_eq!(rf.get_lines(0, 3).unwrap().len(), 3);
    // The channel is gone now, but the chunk is cached.
    assert_eq!(rf.get_lines(0, 3).unwrap().len(), 3);
    assert_eq!(rf.get_line(1).unwrap(), Some("b".to_string()));
}

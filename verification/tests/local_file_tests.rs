use memmap2::{Mmap, MmapOptions};
use pog::file_loader::MappedFile;
use pog::file_source::FileSource;

fn map_bytes(data: &[u8]) -> Mmap {
    // A zero-length anonymous map is not portable, so every test maps at
    // least one byte.
    assert!(!data.is_empty());
    let mut m = MmapOptions::new().len(data.len()).map_anon().unwrap();
    m[..].copy_from_slice(data);
    m.make_read_only().unwrap()
}

fn local_file(data: &[u8]) -> MappedFile {
    MappedFile::from_mmap(map_bytes(data), "test.log".to_string())
}

#[test]
fn local_index_exact_500_lines_no_trailing_newline() {
    let mut content = String::new();
    for i in 0..500 {
        if i > 0 {
            content.push('\n');
        }
        content.push_str(&format!("line number {}", i));
    }
    let mut f = local_file(content.as_bytes());
    assert_eq!(f.line_count(), 500);
    assert_eq!(f.get_line(499).unwrap(), Some("line number 499".to_string()));
    assert_eq!(f.get_line(500).unwrap(), None);
}

#[test]
fn local_get_lines_clips_at_eof() {
    let content = (0..10).map(|i| format!("l{}\n", i)).collect::<String>();
    let mut f = local_file(content.as_bytes());
    assert_eq!(f.line_count(), 10);
    let got = f.get_lines(8, 5).unwrap();
    assert_eq!(got, vec![(8, "l8".to_string()), (9, "l9".to_string())]);
    let empty = f.get_lines(50, 5).unwrap();
    assert!(empty.is_empty());
}

#[test]
fn local_strips_crlf() {
    let mut f = local_file(b"one\r\ntwo\nthree");
    assert_eq!(f.line_count(), 3);
    assert_eq!(f.get_line(0).unwrap(), Some("one".to_string()));
    assert_eq!(f.get_line(1).unwrap(), Some("two".to_string()));
    assert_eq!(f.get_line(2).unwrap(), Some("three".to_string()));
}

#[test]
fn local_trailing_newline_adds_no_line() {
    let mut f = local_file(b"a\nb\n");
    assert_eq!(f.line_count(), 2);
    assert_eq!(f.get_line(1).unwrap(), Some("b".to_string()));
    assert_eq!(f.get_line(2).unwrap(), None);
}

#[test]
fn local_invalid_utf8_line_reported_absent() {
    let mut f = local_file(&[b'o', b'k', b'\n', 0xFF, 0xFE, b'\n', b'y', b'e', b's']);
    assert_eq!(f.line_count(), 3);
    assert_eq!(f.get_line(0).unwrap(), Some("ok".to_string()));
    assert_eq!(f.get_line(1).unwrap(), None);
    assert_eq!(f.get_line(2).unwrap(), Some("yes".to_string()));
    // get_lines skips the undecodable line instead of failing.
    let got = f.get_lines(0, 3).unwrap();
    assert_eq!(got, vec![(0, "ok".to_string()), (2, "yes".to_string())]);
}

#[test]
fn local_file_size_and_name() {
    let f = local_file(b"hello\nworld\n");
    assert_eq!(f.file_size().unwrap(), 12);
    assert_eq!(f.display_name(), "test.log");
}

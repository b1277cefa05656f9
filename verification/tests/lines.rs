use ci_report::error_line::{
    first_strong_line, first_weak_line, panic_header, same_bytes, strong, uninformative, weak,
};
use ci_report::excerpt::append;
use ci_report::lines::{line_end, next_line_start, offset_from};
use ci_report::normalize::{strip_timestamps, trim_log};

fn lines_of(text: &[u8]) -> Vec<Vec<u8>> {
    let mut lines = Vec::new();
    let mut start = 0;
    while start < text.len() {
        let end = line_end(text, start);
        lines.push(text[start..end].to_vec());
        start = next_line_start(text, start, end);
    }
    lines
}

#[test]
fn offsets_stop_at_the_first_byte_sought() {
    assert_eq!(offset_from(b"a b c", 0, b' '), 1);
    assert_eq!(offset_from(b"a b c", 1, b' '), 1);
    assert_eq!(offset_from(b"a b c", 2, b' '), 3);
    assert_eq!(offset_from(b"a b c", 4, b' '), 5);
    assert_eq!(offset_from(b"a b c", 5, b' '), 5);
    assert_eq!(offset_from(b"", 0, b' '), 0);
}

#[test]
fn a_line_ends_at_its_newline_or_at_the_end() {
    assert_eq!(line_end(b"ab\ncd", 0), 2);
    assert_eq!(line_end(b"ab\ncd", 2), 2);
    assert_eq!(line_end(b"ab\ncd", 3), 5);
    assert_eq!(next_line_start(b"ab\ncd", 0, 2), 3);
    assert_eq!(next_line_start(b"ab\ncd", 3, 5), 5);
    assert_eq!(next_line_start(b"ab\n", 0, 2), 3);
}

#[test]
fn a_text_is_walked_line_by_line() {
    assert_eq!(lines_of(b"a\nb\n"), vec![b"a".to_vec(), b"b".to_vec()]);
    assert_eq!(lines_of(b"a\nb"), vec![b"a".to_vec(), b"b".to_vec()]);
    assert_eq!(lines_of(b"a\n\nb"), vec![b"a".to_vec(), b"".to_vec(), b"b".to_vec()]);
    assert_eq!(lines_of(b"\n"), vec![b"".to_vec()]);
    assert_eq!(lines_of(b""), Vec::<Vec<u8>>::new());
    assert_eq!(lines_of(b"a\r\nb"), vec![b"a\r".to_vec(), b"b".to_vec()]);
}

#[test]
fn carriage_returns_are_bytes_of_the_line() {
    assert_eq!(strip_timestamps(b"a\r\nb\r\n"), b"a\r\nb\r\n".to_vec());
}

#[test]
fn a_second_timestamp_is_left_for_a_second_pass() {
    let raw = b"2025-05-01T00:00:00Z 2025-05-01T00:00:01Z x\n";
    let once = trim_log(raw).unwrap();
    assert_eq!(once, b"2025-05-01T00:00:01Z x\n".to_vec());
    assert_eq!(trim_log(&once), Ok(b"x\n".to_vec()));
}

#[test]
fn byte_strings_are_compared() {
    assert!(same_bytes(b"abc", b"abc"));
    assert!(same_bytes(b"", b""));
    assert!(!same_bytes(b"abc", b"abd"));
    assert!(!same_bytes(b"abc", b"ab"));
    assert!(!same_bytes(b"ab", b"abc"));
}

#[test]
fn the_kinds_of_lines() {
    assert!(strong(b"error: x"));
    assert!(strong(b"error[E0001]"));
    assert!(strong(b"##[error]Process completed with exit code 1"));
    assert!(!strong(b"##[error]Process completed with exit code 1."));
    assert!(!strong(b"error: test failed, to rerun pass `-p x`"));
    assert!(!strong(b"error:"));
    assert!(!strong(b"ERROR: x"));
    assert!(weak(b"ERROR: x"));
    assert!(weak(b"error in revision a"));
    assert!(weak(b"fatal: x"));
    assert!(!weak(b"error: x"));
    assert!(!weak(b"Fatal: x"));
    assert!(panic_header(b"thread 'main' panicked at src/lib.rs:1:1:"));
    assert!(panic_header(b"thread '' panicked at :"));
    assert!(!panic_header(b"thread 'main' panicked at src/lib.rs:1:1"));
    assert!(!panic_header(b" thread 'main' panicked at src/lib.rs:1:1:"));
    assert!(!panic_header(b"thread 'main' panicked:"));
    assert!(uninformative(b""));
    assert!(uninformative(b"   "));
    assert!(uninformative(b"explicit panic"));
    assert!(uninformative(b"assertion `left == right` failed"));
    assert!(!uninformative(b"explicit panic!"));
    assert!(!uninformative(b"assertion `left != right` failed"));
}

#[test]
fn the_two_passes_apart() {
    let log = b"fatal: first\nerror: second\n";
    assert_eq!(first_strong_line(log), Some(&b"error: second"[..]));
    assert_eq!(first_weak_line(log), Some(&b"fatal: first"[..]));
    assert_eq!(first_strong_line(b"fatal: first\n"), None);
    assert_eq!(first_weak_line(b"error: second\n"), None);
}

#[test]
fn bytes_are_appended() {
    let mut out = b"ab".to_vec();
    append(&mut out, b"cd");
    append(&mut out, b"");
    assert_eq!(out, b"abcd".to_vec());
}

use ci_report::error_line::{error_line, is_blank};
use ci_report::excerpt::{group_line, short_log};
use ci_report::encoding::EncodingError;
use ci_report::normalize::{
    drop_cleanup, drop_head, keep_last_group, strip_timestamp, strip_timestamps, trim_log,
};
use ci_report::tail::tail_lines;
use ci_report::text::{contains, ends_with, find, matches_at, rfind, starts_with};

fn numbered(count: usize) -> Vec<u8> {
    let mut text = String::new();
    for i in 0..count {
        text.push_str(&format!("line {i}\n"));
    }
    text.into_bytes()
}

#[test]
fn find_returns_the_first_occurrence() {
    assert_eq!(find(b"abcabc", b"bc"), Some(1));
    assert_eq!(find(b"abcabc", b"abcabc"), Some(0));
    assert_eq!(find(b"abcabc", b"x"), None);
    assert_eq!(find(b"ab", b"abc"), None);
    assert_eq!(find(b"abc", b""), Some(0));
    assert_eq!(find(b"", b""), Some(0));
    assert_eq!(find(b"aab", b"ab"), Some(1));
}

#[test]
fn rfind_returns_the_last_occurrence() {
    assert_eq!(rfind(b"abcabc", b"bc"), Some(4));
    assert_eq!(rfind(b"abcabc", b"abcabc"), Some(0));
    assert_eq!(rfind(b"abcabc", b"x"), None);
    assert_eq!(rfind(b"ab", b"abc"), None);
    assert_eq!(rfind(b"abc", b""), Some(3));
    assert_eq!(rfind(b"aaa", b"aa"), Some(1));
}

#[test]
fn prefixes_suffixes_and_occurrences() {
    assert!(starts_with(b"error: x", b"error: "));
    assert!(!starts_with(b"error", b"error: "));
    assert!(starts_with(b"abc", b""));
    assert!(ends_with(b"main.rs:10:5:", b":"));
    assert!(!ends_with(b"", b":"));
    assert!(ends_with(b"abc", b"abc"));
    assert!(contains(b"thread 'main' panicked at x", b"' panicked at "));
    assert!(!contains(b"thread 'main' panicked", b"' panicked at "));
    assert!(matches_at(b"abc", b"bc", 1));
    assert!(!matches_at(b"abc", b"bc", 2));
    assert!(!matches_at(b"abc", b"bc", 7));
    assert!(matches_at(b"abc", b"", 3));
    assert!(!matches_at(b"abc", b"", 4));
}

#[test]
fn tail_of_a_short_text_is_the_text() {
    assert_eq!(tail_lines(b"a\nb\nc\n", 3), b"a\nb\nc\n");
    assert_eq!(tail_lines(b"a\nb\nc\n", 4), b"a\nb\nc\n");
    assert_eq!(tail_lines(b"a\nb\nc", 3), b"a\nb\nc");
    assert_eq!(tail_lines(b"", 5), b"");
    assert_eq!(tail_lines(b"a", 1), b"a");
}

#[test]
fn tail_of_a_long_text_is_its_last_lines() {
    assert_eq!(tail_lines(b"a\nb\nc\n", 2), b"b\nc\n");
    assert_eq!(tail_lines(b"a\nb\nc\n", 1), b"c\n");
    assert_eq!(tail_lines(b"a\nb\nc", 2), b"b\nc");
    assert_eq!(tail_lines(b"a\nb\nc", 1), b"c");
    assert_eq!(tail_lines(b"a\n\n\n", 2), b"\n\n");
    assert_eq!(tail_lines(b"\n\n", 1), b"\n");
    assert_eq!(tail_lines(b"\nb", 1), b"b");
}

#[test]
fn tail_of_no_lines_is_empty() {
    assert_eq!(tail_lines(b"a\nb\n", 0), b"");
    assert_eq!(tail_lines(b"a\nb", 0), b"");
    assert_eq!(tail_lines(b"", 0), b"");
}

#[test]
fn tail_counts_lines_exactly() {
    let text = numbered(10);
    let tail = tail_lines(&text, 4);
    assert_eq!(tail, b"line 6\nline 7\nline 8\nline 9\n");
    assert_eq!(tail_lines(&text, 10), &text[..]);
    assert_eq!(tail_lines(&text, 11), &text[..]);
}

#[test]
fn timestamp_heads_are_dropped() {
    assert_eq!(strip_timestamp(b"2025-05-01T12:34:56.1234567Z hello world"), b"hello world");
    assert_eq!(strip_timestamp(b"2025-05-01T12:34:56+02:00 x"), b"x");
    assert_eq!(strip_timestamp(b"2025-05-01T12:34:56Z "), b"");
}

#[test]
fn other_heads_are_kept() {
    assert_eq!(strip_timestamp(b"hello world"), b"hello world");
    assert_eq!(strip_timestamp(b"2025-05-01T12:34:56Z"), b"2025-05-01T12:34:56Z");
    assert_eq!(strip_timestamp(b"2025-05-01 12:34:56"), b"2025-05-01 12:34:56");
    assert_eq!(strip_timestamp(b"2025-05-01T12:34:56 no offset"), b"2025-05-01T12:34:56 no offset");
    assert_eq!(strip_timestamp(b" leading space"), b" leading space");
    assert_eq!(strip_timestamp(b""), b"");
}

#[test]
fn drop_head_follows_the_answer_it_is_given() {
    assert_eq!(drop_head(b"head tail of line", true), b"tail of line");
    assert_eq!(drop_head(b"head tail of line", false), b"head tail of line");
    assert_eq!(drop_head(b"nospace", true), b"nospace");
    assert_eq!(drop_head(b"", true), b"");
    assert_eq!(drop_head(b" x", true), b"x");
}

#[test]
fn every_line_is_ended_by_a_newline() {
    assert_eq!(strip_timestamps(b"a\nb"), b"a\nb\n".to_vec());
    assert_eq!(strip_timestamps(b"a\nb\n"), b"a\nb\n".to_vec());
    assert_eq!(strip_timestamps(b""), Vec::<u8>::new());
    assert_eq!(strip_timestamps(b"\n"), b"\n".to_vec());
    assert_eq!(strip_timestamps(b"\n\nx"), b"\n\nx\n".to_vec());
    assert_eq!(
        strip_timestamps(b"2025-05-01T00:00:00Z one\ntwo three\n2025-05-01T00:00:01Z four"),
        b"one\ntwo three\nfour\n".to_vec()
    );
}

#[test]
fn the_cleanup_section_is_cut() {
    assert_eq!(drop_cleanup(b"a\nPost job cleanup.\nb\n"), b"a\n");
    assert_eq!(drop_cleanup(b"a\nb\n"), b"a\nb\n");
    assert_eq!(
        drop_cleanup(b"a\nPost job cleanup.\nb\nPost job cleanup.\nc"),
        b"a\nPost job cleanup.\nb\n"
    );
    assert_eq!(drop_cleanup(b"Post job cleanup.\nb\n"), b"Post job cleanup.\nb\n");
}

#[test]
fn only_the_last_group_is_kept() {
    assert_eq!(keep_last_group(b"x\n##[group]one\na\n##[group]two\nb\n"), b"##[group]two\nb\n");
    assert_eq!(keep_last_group(b"##[group]one\na\n"), b"##[group]one\na\n");
    assert_eq!(keep_last_group(b"a\nb\n"), b"a\nb\n");
}

#[test]
fn trim_log_runs_the_four_steps_in_order() {
    let raw = b"2025-05-01T00:00:00Z ##[group]first\n\
2025-05-01T00:00:01Z \x1b[1mbuilding\x1b[0m\n\
2025-05-01T00:00:02Z ##[group]second\n\
2025-05-01T00:00:03Z error: it broke\n\
2025-05-01T00:00:04Z Post job cleanup.\n\
2025-05-01T00:00:05Z cleaning";
    assert_eq!(trim_log(raw), Ok(b"##[group]second\nerror: it broke\n".to_vec()));
}

#[test]
fn trim_log_of_a_plain_text_ends_its_last_line() {
    assert_eq!(trim_log(b"a\nb"), Ok(b"a\nb\n".to_vec()));
    assert_eq!(trim_log(b""), Ok(Vec::new()));
}

#[test]
fn trim_log_twice_is_trim_log_once() {
    let raw = b"2025-05-01T00:00:00Z ##[group]first\n\
2025-05-01T00:00:02Z ##[group]second\n\
2025-05-01T00:00:03Z \x1b[31merror\x1b[0m: it broke\n\
2025-05-01T00:00:04Z Post job cleanup.\n";
    let once = trim_log(raw).unwrap();
    assert_eq!(once, b"##[group]second\nerror: it broke\n".to_vec());
    assert_eq!(trim_log(&once), Ok(once.clone()));
}

#[test]
fn trim_log_rejects_what_is_not_text() {
    assert_eq!(trim_log(b"a\xffb\n"), Err(EncodingError));
    assert_eq!(trim_log(b"\xc3"), Err(EncodingError));
}

#[test]
fn trim_log_keeps_text_of_several_bytes() {
    let raw = "2025-05-01T00:00:00Z h\u{e9}llo \x1b[1mw\u{f6}rld\x1b[0m \u{1f600}\n".as_bytes();
    assert_eq!(trim_log(raw), Ok("h\u{e9}llo w\u{f6}rld \u{1f600}\n".as_bytes().to_vec()));
}

#[test]
fn group_line_is_the_first_line_of_a_group() {
    assert_eq!(group_line(b"##[group]Run tests\nmore\n"), Some(&b"##[group]Run tests"[..]));
    assert_eq!(group_line(b"##[group"), Some(&b"##[group"[..]));
    assert_eq!(group_line(b"x##[group]\n"), None);
    assert_eq!(group_line(b""), None);
}

#[test]
fn excerpt_starts_at_the_summary_of_failures() {
    let log = b"##[group]Run tests\nrunning\n\nfailures:\n\n---- a stdout ----\nboom\n";
    assert_eq!(short_log(log), b"\nfailures:\n\n---- a stdout ----\nboom\n".to_vec());
}

#[test]
fn failures_win_over_an_llvm_build() {
    let log = b"##[group]Building LLVM for x86_64\nstep\nFAILED: something\n\nfailures:\nbad\n";
    assert_eq!(short_log(log), b"\nfailures:\nbad\n".to_vec());
}

#[test]
fn excerpt_starts_at_the_shutdown_signal() {
    let log = b"##[group]Building LLVM for x86_64\nstep\n##[error]The runner has received a shutdown signal. This can happen.\nrest\n";
    assert_eq!(
        short_log(log),
        b"\n##[error]The runner has received a shutdown signal. This can happen.\nrest\n".to_vec()
    );
}

#[test]
fn llvm_build_with_a_failed_step() {
    let log = b"##[group]Building LLVM for x86_64\n...\nFAILED: something\nmore\n";
    let short = short_log(log);
    assert!(short.starts_with(b"##[group]Building LLVM for x86_64"));
    assert!(short.ends_with(b"FAILED: something\nmore\n"));
    assert_eq!(short, b"##[group]Building LLVM for x86_64\nFAILED: something\nmore\n".to_vec());
}

#[test]
fn llvm_build_without_a_failed_step_keeps_fifty_lines() {
    let mut log = b"##[group]Building LLVM for x86_64\n".to_vec();
    log.extend_from_slice(&numbered(60));
    let mut expected = b"##[group]Building LLVM for x86_64\n".to_vec();
    expected.extend_from_slice(&numbered(60)[b"line 0\n".len() * 10..]);
    assert_eq!(short_log(&log), expected);
}

#[test]
fn llvm_build_of_one_line() {
    assert_eq!(
        short_log(b"##[group]Building LLVM for x86_64"),
        b"##[group]Building LLVM for x86_64\n".to_vec()
    );
    assert_eq!(
        short_log(b"##[group]Building LLVM for x86_64\nfew\nlines\n"),
        b"##[group]Building LLVM for x86_64\nfew\nlines\n".to_vec()
    );
}

#[test]
fn a_short_log_is_its_own_excerpt() {
    let log = b"##[group]Run tests\nerror: it broke\n";
    assert_eq!(short_log(log), log.to_vec());
    assert_eq!(short_log(b""), Vec::<u8>::new());
    assert_eq!(short_log(&numbered(500)), numbered(500));
}

#[test]
fn a_long_log_is_cut_to_five_hundred_lines() {
    let log = numbered(600);
    let expected: Vec<u8> = tail_lines(&log, 500).to_vec();
    assert!(expected.starts_with(b"line 100\n"));
    assert_eq!(short_log(&log), expected);
}

#[test]
fn a_long_group_keeps_its_group_line() {
    let mut log = b"##[group]Run tests\n".to_vec();
    log.extend_from_slice(&numbered(600));
    let mut expected = b"##[group]Run tests".to_vec();
    expected.extend_from_slice(tail_lines(&numbered(600), 500));
    assert_eq!(short_log(&log), expected);
}

#[test]
fn blank_lines() {
    assert!(is_blank(b""));
    assert!(is_blank(b" \t\r\x0b\x0c"));
    assert!(is_blank("\u{85}\u{a0}\u{1680}\u{2000}\u{200a}\u{2028}\u{2029}\u{202f}\u{205f}\u{3000}".as_bytes()));
    assert!(!is_blank(b" x "));
    assert!(!is_blank("\u{200b}".as_bytes()));
    assert!(!is_blank(b"\xc2"));
    assert!(!is_blank(b"\xe2\x80"));
}

#[test]
fn strong_signals_are_returned() {
    assert_eq!(error_line(b"ok\nerror: it broke\nmore\n"), Some(&b"error: it broke"[..]));
    assert_eq!(error_line(b"error[E0308]: mismatched types\n"), Some(&b"error[E0308]: mismatched types"[..]));
    assert_eq!(error_line(b"rustc exited with signal: 11\n"), Some(&b"rustc exited with signal: 11"[..]));
    assert_eq!(error_line(b"##[error]Something\n"), Some(&b"##[error]Something"[..]));
    assert_eq!(error_line(b"TypeError: x is undefined"), Some(&b"TypeError: x is undefined"[..]));
    assert_eq!(error_line(b"a\ndyld[123]: missing\n"), Some(&b"dyld[123]: missing"[..]));
}

#[test]
fn the_generic_failure_line_is_skipped() {
    assert_eq!(error_line(b"##[error]Process completed with exit code 1.\n"), None);
    assert_eq!(
        error_line(b"##[error]Process completed with exit code 1.\nerror: real\n"),
        Some(&b"error: real"[..])
    );
    assert_eq!(
        error_line(b"##[error]Process completed with exit code 101.\n"),
        Some(&b"##[error]Process completed with exit code 101."[..])
    );
}

#[test]
fn a_strong_signal_wins_over_a_panic() {
    let log = b"thread 'main' panicked at src/main.rs:10:5:\nboom\nerror[E0308]: mismatched types\n";
    assert_eq!(error_line(log), Some(&b"error[E0308]: mismatched types"[..]));
}

#[test]
fn a_rerun_hint_is_no_error_line() {
    assert_eq!(error_line(b"error: test failed, to rerun pass '--test foo'"), None);
    assert_eq!(error_line(b"error: test failed, to rerun pass '--test foo'\n"), None);
    assert_eq!(
        error_line(b"error: test failed, to rerun pass '--test foo'\nfatal: bad\n"),
        Some(&b"fatal: bad"[..])
    );
}

#[test]
fn weak_signals_are_returned() {
    assert_eq!(error_line(b"a\nERROR: failed\n"), Some(&b"ERROR: failed"[..]));
    assert_eq!(error_line(b"error in revision `x`: y\n"), Some(&b"error in revision `x`: y"[..]));
    assert_eq!(error_line(b"fatal: not a git repository\nERROR: later\n"), Some(&b"fatal: not a git repository"[..]));
}

#[test]
fn a_panic_gives_its_message() {
    let log = b"start\nthread 'main' panicked at src/main.rs:10:5:\nindex out of bounds\n";
    assert_eq!(error_line(log), Some(&b"index out of bounds"[..]));
}

#[test]
fn a_panic_without_a_message_gives_its_header() {
    let header = &b"thread 'main' panicked at src/main.rs:10:5:"[..];
    assert_eq!(error_line(b"start\nthread 'main' panicked at src/main.rs:10:5:\n\n"), Some(header));
    assert_eq!(error_line(b"thread 'main' panicked at src/main.rs:10:5:\n  \t\nx\n"), Some(header));
    assert_eq!(error_line(b"thread 'main' panicked at src/main.rs:10:5:\nexplicit panic\n"), Some(header));
    assert_eq!(
        error_line(b"thread 'main' panicked at src/main.rs:10:5:\nassertion `left == right` failed\n  left: 1\n"),
        Some(header)
    );
}

#[test]
fn a_panic_header_on_the_last_line_gives_nothing() {
    assert_eq!(error_line(b"thread 'main' panicked at src/main.rs:10:5:"), None);
    assert_eq!(error_line(b"thread 'main' panicked at src/main.rs:10:5:\n"), None);
}

#[test]
fn a_line_that_only_looks_like_a_panic_header_is_passed() {
    assert_eq!(error_line(b"thread 'main' panicked at src/main.rs:10:5\nfatal: x\n"), Some(&b"fatal: x"[..]));
    assert_eq!(error_line(b"thread 'main' exited:\nnext\n"), None);
}

#[test]
fn a_log_without_signals_has_no_error_line() {
    assert_eq!(error_line(b""), None);
    assert_eq!(error_line(b"all good\n warning: unused\n"), None);
    assert_eq!(error_line(b" error: indented\n"), None);
}

#[test]
fn the_whole_pipeline() {
    let raw = b"2025-05-01T00:00:00Z ##[group]Run tests\n\
2025-05-01T00:00:01Z running 2 tests\n\
2025-05-01T00:00:02Z \n\
2025-05-01T00:00:02Z failures:\n\
2025-05-01T00:00:03Z     \x1b[31mtests::it_works\x1b[0m\n\
2025-05-01T00:00:04Z error: test failed, to rerun pass `--lib`\n\
2025-05-01T00:00:05Z ##[error]Process completed with exit code 1.\n\
2025-05-01T00:00:06Z Post job cleanup.\n\
2025-05-01T00:00:07Z done\n";
    let log = trim_log(raw).unwrap();
    let short = short_log(&log);
    assert_eq!(
        short,
        b"\nfailures:\n    tests::it_works\nerror: test failed, to rerun pass `--lib`\n##[error]Process completed with exit code 1.\n".to_vec()
    );
    assert_eq!(error_line(&short), None);
}

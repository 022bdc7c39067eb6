use lmake_md_to_doc_comments::error::SyncError;
use lmake_md_to_doc_comments::markers::{CODE_END_PATTERN, CODE_START_PATTERN};
use lmake_md_to_doc_comments::pattern::{find_lines, line_after, LineMatch};
use lmake_md_to_doc_comments::segments::{MD_END_PATTERN, MD_START_PATTERN};

fn some(bytes: &[u8]) -> Option<Vec<u8>> {
    Some(bytes.to_vec())
}

#[test]
fn find_lines_reports_offsets_and_groups() {
    let text = b"ab 12\ncd 345\n";
    let found = find_lines("(?m)^([a-z]+) ([0-9]+)$", text).unwrap();
    assert_eq!(
        found,
        vec![
            LineMatch { start: 0, end: 5, groups: vec![some(b"ab 12"), some(b"ab"), some(b"12")] },
            LineMatch { start: 6, end: 12, groups: vec![some(b"cd 345"), some(b"cd"), some(b"345")] },
        ]
    );
}

#[test]
fn find_lines_without_a_match_is_empty() {
    let found = find_lines("(?m)^x$", b"abc\n").unwrap();
    assert!(found.is_empty());
}

#[test]
fn find_lines_keeps_idle_groups_as_none() {
    let found = find_lines("(a)|(b)", b"b").unwrap();
    assert_eq!(found, vec![LineMatch { start: 0, end: 1, groups: vec![some(b"b"), None, some(b"b")] }]);
}

#[test]
fn find_lines_rejects_a_broken_pattern() {
    assert_eq!(find_lines("(", b"abc"), Err(SyncError::BadPattern));
}

#[test]
fn group_of_an_idle_or_missing_group_is_empty() {
    let found = find_lines("(a)|(b)", b"b").unwrap();
    assert_eq!(found[0].group(0), b"b".to_vec());
    assert_eq!(found[0].group(1), Vec::<u8>::new());
    assert_eq!(found[0].group(2), b"b".to_vec());
    assert_eq!(found[0].group(3), Vec::<u8>::new());
}

#[test]
fn line_after_steps_over_one_terminator() {
    assert_eq!(line_after(0), 1);
    assert_eq!(line_after(41), 42);
    assert_eq!(line_after(usize::MAX), usize::MAX);
}

#[test]
fn code_start_pattern_takes_three_names() {
    let text = b"  // region: lmake_md_to_doc_comments include README.md A //!\n";
    let found = find_lines(CODE_START_PATTERN, text).unwrap();
    assert_eq!(found.len(), 1);
    assert_eq!(found[0].start, 0);
    assert_eq!(found[0].end, text.len() - 1);
    assert_eq!(found[0].group(1), b"README.md".to_vec());
    assert_eq!(found[0].group(2), b"A".to_vec());
    assert_eq!(found[0].group(3), b"//!".to_vec());
}

#[test]
fn code_start_pattern_gives_the_rest_of_the_line_to_the_symbol() {
    let text = b"// region: lmake_md_to_doc_comments include README.md A // x y\n";
    let found = find_lines(CODE_START_PATTERN, text).unwrap();
    assert_eq!(found.len(), 1);
    assert_eq!(found[0].group(3), b"// x y".to_vec());
}

#[test]
fn code_start_pattern_wants_the_whole_line() {
    let text = b"let x = 1; // region: lmake_md_to_doc_comments include README.md A //!\n";
    assert!(find_lines(CODE_START_PATTERN, text).unwrap().is_empty());
    let short = b"// region: lmake_md_to_doc_comments include README.md A\n";
    assert!(find_lines(CODE_START_PATTERN, short).unwrap().is_empty());
}

#[test]
fn code_end_pattern_does_not_take_a_start_line() {
    let text = b"// region: lmake_md_to_doc_comments include README.md A //!\n";
    assert!(find_lines(CODE_END_PATTERN, text).unwrap().is_empty());
    let end = b"// endregion: lmake_md_to_doc_comments include README.md A //!\n";
    assert_eq!(find_lines(CODE_END_PATTERN, end).unwrap().len(), 1);
    assert!(find_lines(CODE_START_PATTERN, end).unwrap().is_empty());
}

#[test]
fn markdown_patterns_take_the_segment_name() {
    let text = b"[comment]: # (lmake_md_to_doc_comments segment start A)\nbody\n[comment]: # (lmake_md_to_doc_comments segment end A)\n";
    let starts = find_lines(MD_START_PATTERN, text).unwrap();
    let ends = find_lines(MD_END_PATTERN, text).unwrap();
    assert_eq!(starts.len(), 1);
    assert_eq!(ends.len(), 1);
    assert_eq!(starts[0].start, 0);
    assert_eq!(starts[0].end, 55);
    assert_eq!(starts[0].group(1), b"A".to_vec());
    assert_eq!(ends[0].start, 61);
    assert_eq!(ends[0].group(1), b"A".to_vec());
}

#[test]
fn markdown_patterns_allow_no_indent() {
    let text = b" [comment]: # (lmake_md_to_doc_comments segment start A)\n";
    assert!(find_lines(MD_START_PATTERN, text).unwrap().is_empty());
}

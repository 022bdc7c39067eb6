use lmake_md_to_doc_comments::error::SyncError;
use lmake_md_to_doc_comments::pattern::LineMatch;
use lmake_md_to_doc_comments::cache::{cache_holds_file, cached_segment_text, get_md_segments_using_cache};
use lmake_md_to_doc_comments::segments::{find_segment, md_file_segments, segments_from_matches, MdSegment};

const MD_START_A: &str = "[comment]: # (lmake_md_to_doc_comments segment start A)\n";
const MD_END_A: &str = "[comment]: # (lmake_md_to_doc_comments segment end A)\n";
const MD_START_B: &str = "[comment]: # (lmake_md_to_doc_comments segment start B)\n";
const MD_END_B: &str = "[comment]: # (lmake_md_to_doc_comments segment end B)\n";

fn segment(file: &str, name: &str, pos_start: usize, pos_end: usize, text: &str) -> MdSegment {
    MdSegment {
        md_filename: file.as_bytes().to_vec(),
        marker_name: name.as_bytes().to_vec(),
        pos_start,
        pos_end,
        text: text.as_bytes().to_vec(),
    }
}

fn named_line(start: usize, end: usize, name: &str) -> LineMatch {
    LineMatch { start, end, groups: vec![Some(Vec::new()), Some(name.as_bytes().to_vec())] }
}

#[test]
fn one_segment_is_rendered_behind_the_symbol() {
    let md = format!("# Title\n{}\nline1\n\nline2\n\n{}rest\n", MD_START_A, MD_END_A);
    let from = 8 + MD_START_A.len();
    let found = md_file_segments(b"README.md", md.as_bytes(), b"//!").unwrap();
    assert_eq!(found, vec![segment("README.md", "A", from, from + 15, "//! line1\n//!\n//! line2\n//!\n")]);
}

#[test]
fn a_file_without_segment_lines_has_no_segments() {
    assert_eq!(md_file_segments(b"README.md", b"# Title\ntext\n", b"//!"), Ok(vec![]));
}

#[test]
fn two_segments_come_in_order_of_their_start_lines() {
    let md = format!("{}a\n{}{}b\n{}", MD_START_A, MD_END_A, MD_START_B, MD_END_B);
    let a = MD_START_A.len();
    let b = a + 2 + MD_END_A.len() + MD_START_B.len();
    let found = md_file_segments(b"f.md", md.as_bytes(), b"//").unwrap();
    assert_eq!(found, vec![segment("f.md", "A", a, a + 2, "// a\n"), segment("f.md", "B", b, b + 2, "// b\n")]);
}

#[test]
fn a_segment_inside_another_leaves_no_directive_in_it() {
    let md = format!("{}one\n{}\ntwo\n{}three\n{}", MD_START_A, MD_START_B, MD_END_B, MD_END_A);
    let a = MD_START_A.len();
    let b = a + 4 + MD_START_B.len();
    let found = md_file_segments(b"f.md", md.as_bytes(), b"///").unwrap();
    assert_eq!(
        found,
        vec![
            segment("f.md", "A", a, b + 5 + MD_END_B.len() + 6, "/// one\n/// two\n/// three\n"),
            segment("f.md", "B", b, b + 5, "/// two\n"),
        ]
    );
}

#[test]
fn an_end_line_without_a_start_line_is_an_error() {
    let md = format!("text\n{}", MD_END_A);
    assert_eq!(md_file_segments(b"f.md", md.as_bytes(), b"//"), Err(SyncError::UnmatchedEnd));
    let other = format!("{}text\n{}", MD_START_A, MD_END_B);
    assert_eq!(md_file_segments(b"f.md", other.as_bytes(), b"//"), Err(SyncError::UnmatchedEnd));
}

#[test]
fn an_end_line_before_its_start_line_is_an_error() {
    let md = format!("{}text\n{}", MD_END_A, MD_START_A);
    assert_eq!(md_file_segments(b"f.md", md.as_bytes(), b"//"), Err(SyncError::BrokenRange));
}

#[test]
fn a_start_line_without_an_end_line_stays_empty() {
    let md = format!("{}text\n", MD_START_A);
    let found = md_file_segments(b"f.md", md.as_bytes(), b"//").unwrap();
    assert_eq!(found, vec![segment("f.md", "A", MD_START_A.len(), 0, "")]);
}

#[test]
fn a_second_end_line_adds_to_the_text() {
    let md = format!("{}a\n{}b\n{}", MD_START_A, MD_END_A, MD_END_A);
    let a = MD_START_A.len();
    let found = md_file_segments(b"f.md", md.as_bytes(), b"//").unwrap();
    assert_eq!(found, vec![segment("f.md", "A", a, a + 2 + MD_END_A.len() + 2, "// a\n// a\n// b\n")]);
}

#[test]
fn segments_by_hand() {
    let text = b"0123456789\nab\ncd\n";
    let starts = vec![named_line(0, 10, "A")];
    let ends = vec![named_line(14, 16, "A")];
    assert_eq!(
        segments_from_matches(b"f.md", text, b"#", &starts, &ends),
        Ok(vec![segment("f.md", "A", 11, 14, "# ab\n")])
    );
    let beyond = vec![named_line(18, 20, "A")];
    assert_eq!(segments_from_matches(b"f.md", text, b"#", &starts, &beyond), Err(SyncError::BrokenRange));
    let early = vec![named_line(3, 5, "A")];
    assert_eq!(segments_from_matches(b"f.md", text, b"#", &starts, &early), Err(SyncError::BrokenRange));
    let stray = vec![named_line(14, 16, "B")];
    assert_eq!(segments_from_matches(b"f.md", text, b"#", &starts, &stray), Err(SyncError::UnmatchedEnd));
}

#[test]
fn find_segment_gives_the_first_of_that_name_in_that_file() {
    let cache = vec![segment("f.md", "A", 0, 0, "1"), segment("g.md", "A", 0, 0, "2"), segment("g.md", "A", 0, 0, "3")];
    assert_eq!(find_segment(&cache, b"g.md", b"A"), Some(1));
    assert_eq!(find_segment(&cache, b"g.md", b"B"), None);
    assert_eq!(cached_segment_text(&cache, b"g.md", b"A"), Ok(b"2".to_vec()));
    assert_eq!(cached_segment_text(&cache, b"h.md", b"A"), Err(SyncError::SegmentNotFound));
    assert!(cache_holds_file(&cache, b"f.md"));
    assert!(!cache_holds_file(&cache, b"h.md"));
    assert!(!cache_holds_file(&vec![], b"f.md"));
}

#[test]
fn the_first_request_reads_the_file_into_the_cache() {
    let md = format!("{}a\n{}{}b\n{}", MD_START_A, MD_END_A, MD_START_B, MD_END_B);
    let mut cache: Vec<MdSegment> = Vec::new();
    let text = get_md_segments_using_cache(&mut cache, b"f.md", b"B", b"//!", md.as_bytes());
    assert_eq!(text, Ok(b"//! b\n".to_vec()));
    assert_eq!(cache.len(), 2);
    assert!(cache_holds_file(&cache, b"f.md"));
    assert_eq!(cached_segment_text(&cache, b"f.md", b"A"), Ok(b"//! a\n".to_vec()));
}

#[test]
fn the_cache_keeps_the_symbol_it_saw_first() {
    let md = format!("{}a\n{}{}b\n{}", MD_START_A, MD_END_A, MD_START_B, MD_END_B);
    let mut cache: Vec<MdSegment> = Vec::new();
    let first = get_md_segments_using_cache(&mut cache, b"f.md", b"A", b"//!", md.as_bytes());
    let second = get_md_segments_using_cache(&mut cache, b"f.md", b"A", b"///", md.as_bytes());
    let third = get_md_segments_using_cache(&mut cache, b"f.md", b"B", b"///", b"changed on disk");
    assert_eq!(first, Ok(b"//! a\n".to_vec()));
    assert_eq!(second, Ok(b"//! a\n".to_vec()));
    assert_eq!(third, Ok(b"//! b\n".to_vec()));
    assert_eq!(cache.len(), 2);
}

#[test]
fn files_are_kept_apart_in_the_cache() {
    let f = format!("{}from f\n{}", MD_START_A, MD_END_A);
    let g = format!("{}from g\n{}", MD_START_A, MD_END_A);
    let mut cache: Vec<MdSegment> = Vec::new();
    assert_eq!(get_md_segments_using_cache(&mut cache, b"f.md", b"A", b"//", f.as_bytes()), Ok(b"// from f\n".to_vec()));
    assert_eq!(get_md_segments_using_cache(&mut cache, b"g.md", b"A", b"#", g.as_bytes()), Ok(b"# from g\n".to_vec()));
    assert_eq!(get_md_segments_using_cache(&mut cache, b"f.md", b"A", b"#", b""), Ok(b"// from f\n".to_vec()));
    assert_eq!(cache.len(), 2);
}

#[test]
fn a_missing_segment_is_an_error() {
    let md = format!("{}a\n{}", MD_START_A, MD_END_A);
    let mut cache: Vec<MdSegment> = Vec::new();
    let text = get_md_segments_using_cache(&mut cache, b"f.md", b"Z", b"//!", md.as_bytes());
    assert_eq!(text, Err(SyncError::SegmentNotFound));
    assert_eq!(cache.len(), 1);
    let again = get_md_segments_using_cache(&mut cache, b"f.md", b"Z", b"//!", md.as_bytes());
    assert_eq!(again, Err(SyncError::SegmentNotFound));
}

#[test]
fn a_file_without_segments_is_not_held() {
    let mut cache: Vec<MdSegment> = Vec::new();
    let text = get_md_segments_using_cache(&mut cache, b"f.md", b"A", b"//!", b"# nothing\n");
    assert_eq!(text, Err(SyncError::SegmentNotFound));
    assert!(cache.is_empty());
    assert!(!cache_holds_file(&cache, b"f.md"));
}

#[test]
fn a_malformed_file_leaves_the_cache_as_it_was() {
    let good = format!("{}a\n{}", MD_START_A, MD_END_A);
    let bad = format!("{}a\n{}", MD_START_A, MD_END_B);
    let mut cache: Vec<MdSegment> = Vec::new();
    assert!(get_md_segments_using_cache(&mut cache, b"f.md", b"A", b"//", good.as_bytes()).is_ok());
    let before = cache.clone();
    let text = get_md_segments_using_cache(&mut cache, b"g.md", b"A", b"//", bad.as_bytes());
    assert_eq!(text, Err(SyncError::UnmatchedEnd));
    assert_eq!(cache, before);
}

use lmake_md_to_doc_comments::format::{format_segment, is_directive_line};
use lmake_md_to_doc_comments::text::{append_bytes, begins_with, copy_bytes, is_blank, line_end, same_bytes, trim_bytes};

#[test]
fn interior_blank_line_is_kept_as_bare_symbol() {
    let out = format_segment(b"line1\n\nline2\n", b"//!");
    assert_eq!(out, b"//! line1\n//!\n//! line2\n".to_vec());
}

#[test]
fn blank_line_right_after_the_directive_is_left_out() {
    let out = format_segment(b"\nline1\n\nline2\n", b"//!");
    assert_eq!(out, b"//! line1\n//!\n//! line2\n".to_vec());
}

#[test]
fn only_one_blank_line_is_swallowed() {
    let out = format_segment(b"\n\nline1\n", b"//!");
    assert_eq!(out, b"//!\n//! line1\n".to_vec());
}

#[test]
fn directives_inside_the_body_are_left_out() {
    let body = b"one\n[comment]: # (lmake_md_to_doc_comments segment start B)\n\ntwo\n[comment]: # (anything)\nthree\n";
    let out = format_segment(body, b"///");
    assert_eq!(out, b"/// one\n/// two\n/// three\n".to_vec());
}

#[test]
fn an_empty_body_gives_no_lines() {
    assert_eq!(format_segment(b"", b"//!"), Vec::<u8>::new());
    assert_eq!(format_segment(b"\n", b"//!"), Vec::<u8>::new());
}

#[test]
fn a_last_line_without_terminator_is_a_line() {
    assert_eq!(format_segment(b"one\ntwo", b"//"), b"// one\n// two\n".to_vec());
}

#[test]
fn carriage_returns_before_line_feeds_are_dropped() {
    assert_eq!(format_segment(b"one\r\n\r\ntwo\r\n", b"//"), b"// one\n//\n// two\n".to_vec());
    assert_eq!(format_segment(b"one\r", b"//"), b"// one\r\n".to_vec());
    assert_eq!(format_segment(b"on\re\n", b"//"), b"// on\re\n".to_vec());
}

#[test]
fn an_empty_symbol_still_separates_with_a_blank() {
    assert_eq!(format_segment(b"one\n\ntwo\n", b""), b" one\n\n two\n".to_vec());
}

#[test]
fn trailing_blanks_of_a_line_are_kept() {
    assert_eq!(format_segment(b"one  \n", b"//!"), b"//! one  \n".to_vec());
}

#[test]
fn directive_lines_begin_with_the_tag() {
    assert!(is_directive_line(b"[comment]: # (x)"));
    assert!(is_directive_line(b"[comment]: # ("));
    assert!(!is_directive_line(b"[comment]: # "));
    assert!(!is_directive_line(b" [comment]: # (x)"));
    assert!(!is_directive_line(b""));
}

#[test]
fn byte_string_helpers() {
    assert!(same_bytes(b"abc", b"abc"));
    assert!(!same_bytes(b"abc", b"abd"));
    assert!(!same_bytes(b"abc", b"ab"));
    assert!(same_bytes(b"", b""));
    assert!(begins_with(b"abc", b"ab"));
    assert!(begins_with(b"abc", b""));
    assert!(!begins_with(b"ab", b"abc"));
    assert!(!begins_with(b"abc", b"bc"));
    let mut v = b"ab".to_vec();
    append_bytes(&mut v, b"cd");
    assert_eq!(v, b"abcd".to_vec());
    assert_eq!(copy_bytes(b"xyz"), b"xyz".to_vec());
}

#[test]
fn line_end_finds_the_next_line_feed() {
    assert_eq!(line_end(b"ab\ncd\n", 0), 2);
    assert_eq!(line_end(b"ab\ncd\n", 2), 2);
    assert_eq!(line_end(b"ab\ncd\n", 3), 5);
    assert_eq!(line_end(b"ab\ncd", 3), 5);
    assert_eq!(line_end(b"ab", 2), 2);
}

#[test]
fn trim_bytes_cuts_white_space_at_both_ends() {
    assert_eq!(trim_bytes(b"//!"), b"//!".to_vec());
    assert_eq!(trim_bytes(b"//!  "), b"//!".to_vec());
    assert_eq!(trim_bytes(b" \t//! \r\n"), b"//!".to_vec());
    assert_eq!(trim_bytes(b"  a  b  "), b"a  b".to_vec());
    assert_eq!(trim_bytes(b"\x0b\x0ca\x0b\x0c"), b"a".to_vec());
    assert_eq!(trim_bytes(b"   "), Vec::<u8>::new());
    assert_eq!(trim_bytes(b""), Vec::<u8>::new());
    assert_eq!(trim_bytes(b"\x08a\x0e"), b"\x08a\x0e".to_vec());
}

#[test]
fn white_space_is_the_blank_and_the_bytes_from_tab_to_carriage_return() {
    for b in 0..=255u8 {
        assert_eq!(is_blank(b), b == 32 || (9..=13).contains(&b));
    }
}

//! Turning the body of a markdown segment into comment lines.

use vstd::prelude::*;
use crate::text::{append_bytes, begins_with, line_end, lines_of, lemma_line_length, without_return, CARRIAGE_RETURN, LINE_FEED, SPACE};

verus! {

/// The bytes of `[comment]: # (`, with which a comment directive of markdown
/// begins.
pub const DIRECTIVE: [u8; 14] = [
    0x5b, 0x63, 0x6f, 0x6d, 0x6d, 0x65, 0x6e, 0x74, 0x5d, 0x3a, 0x20, 0x23, 0x20, 0x28,
];

/// Whether `line` is a comment directive. Such a line never reaches a code
/// file.
pub open spec fn is_directive(line: Seq<u8>) -> bool {
    DIRECTIVE@.is_prefix_of(line)
}

/// One line behind the comment symbol: the symbol, a blank unless the line is
/// empty, the line, a line feed.
pub open spec fn rendered_line(line: Seq<u8>, symbol: Seq<u8>) -> Seq<u8> {
    symbol + (if line.len() > 0 {
        seq![SPACE]
    } else {
        Seq::empty()
    }) + line + seq![LINE_FEED]
}

/// The comment lines for `lines`. `after_directive` says whether the line
/// before the first of them was a comment directive.
///
/// A comment directive is left out. So is an empty line that follows one
/// directly. Every other line is rendered, the empty ones among them as the
/// bare comment symbol.
pub open spec fn rendered(lines: Seq<Seq<u8>>, symbol: Seq<u8>, after_directive: bool) -> Seq<u8>
    decreases lines.len(),
{
    if lines.len() == 0 {
        Seq::empty()
    } else if is_directive(lines[0]) {
        rendered(lines.drop_first(), symbol, true)
    } else if after_directive && lines[0].len() == 0 {
        rendered(lines.drop_first(), symbol, false)
    } else {
        rendered_line(lines[0], symbol) + rendered(lines.drop_first(), symbol, false)
    }
}

/// The comment lines for the body of a segment. The body follows the
/// directive that opens the segment, so an empty first line is left out.
pub open spec fn formatted(body: Seq<u8>, symbol: Seq<u8>) -> Seq<u8> {
    rendered(lines_of(body), symbol, true)
}

/// What becomes of empty lines.
///
/// A body that begins with an empty line is rendered without it: the line
/// follows the directive that opens the segment. An empty line that does not
/// follow a directive is kept as the bare comment symbol and a line feed, with
/// no blank between the two.
pub proof fn lemma_empty_lines(body: Seq<u8>, rest: Seq<Seq<u8>>, symbol: Seq<u8>)
    ensures
        formatted(seq![LINE_FEED] + body, symbol) == rendered(lines_of(body), symbol, false),
        rendered(seq![Seq::<u8>::empty()] + rest, symbol, true) == rendered(rest, symbol, false),
        rendered(seq![Seq::<u8>::empty()] + rest, symbol, false) == symbol + seq![LINE_FEED] + rendered(
            rest,
            symbol,
            false,
        ),
{
    let empty = Seq::<u8>::empty();
    assert((seq![empty] + rest).drop_first() =~= rest);
    // the lines of the body behind an empty first line
    let whole = seq![LINE_FEED] + body;
    assert(whole.take(0) =~= empty);
    assert(whole.skip(1) =~= body);
    assert((seq![empty] + lines_of(body)).drop_first() =~= lines_of(body));
}

/// Whether `line` is a comment directive.
pub fn is_directive_line(line: &[u8]) -> (directive: bool)
    ensures
        directive == is_directive(line@),
{
    let tag = DIRECTIVE;
    begins_with(line, tag.as_slice())
}

/// Renders the body of a segment as comment lines behind `comment_symbol`.
pub fn format_segment(body: &[u8], comment_symbol: &[u8]) -> (text: Vec<u8>)
    ensures
        text@ == formatted(body@, comment_symbol@),
{
    let mut text: Vec<u8> = Vec::new();
    let mut after_directive = true;
    let mut pos: usize = 0;
    assert(body@.skip(0) =~= body@);
    while pos < body.len()
        invariant
            pos <= body@.len(),
            formatted(body@, comment_symbol@) == text@ + rendered(
                lines_of(body@.skip(pos as int)),
                comment_symbol@,
                after_directive,
            ),
        decreases body@.len() - pos,
    {
        let ghost rest = body@.skip(pos as int);
        let ghost before = text@;
        let ghost flag = after_directive;
        let end = line_end(body, pos);
        let stop = if end < body.len() && pos < end && body[end - 1] == CARRIAGE_RETURN {
            end - 1
        } else {
            end
        };
        let next = if end < body.len() {
            end + 1
        } else {
            end
        };
        let line = vstd::slice::slice_subrange(body, pos, stop);
        proof {
            // the lines of `rest` are this line and the lines of what follows it
            lemma_line_length(rest);
            if end < body@.len() {
                assert(rest.take(end - pos) =~= body@.subrange(pos as int, end as int));
                assert(line@ =~= without_return(rest.take(end - pos)));
                assert(rest.skip(end - pos + 1) =~= body@.skip(next as int));
            }
            assert(lines_of(rest).drop_first() =~= lines_of(body@.skip(next as int)));
        }
        if is_directive_line(line) {
            after_directive = true;
        } else if after_directive && line.len() == 0 {
            after_directive = false;
        } else {
            after_directive = false;
            append_bytes(&mut text, comment_symbol);
            if line.len() > 0 {
                text.push(SPACE);
            }
            append_bytes(&mut text, line);
            text.push(LINE_FEED);
        }
        pos = next;
        assert(before + rendered(lines_of(rest), comment_symbol@, flag) =~= text@ + rendered(
            lines_of(body@.skip(pos as int)),
            comment_symbol@,
            after_directive,
        ));
    }
    text
}

} // verus!

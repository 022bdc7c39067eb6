//! The segments of a markdown file.

use vstd::prelude::*;
use crate::error::SyncError;
use crate::format::{format_segment, formatted};
use crate::pattern::{find_lines, found_lines, line_after, after_line, scanned, FoundLine, LineMatch};
use crate::text::{append_bytes, copy_bytes, same_bytes};

verus! {

/// The pattern of the line that opens a segment of a markdown file.
pub const MD_START_PATTERN: &'static str =
    r"(?m)^\[comment\]: # \(lmake_md_to_doc_comments segment start (.*?)\)$";

/// The pattern of the line that closes a segment of a markdown file.
pub const MD_END_PATTERN: &'static str =
    r"(?m)^\[comment\]: # \(lmake_md_to_doc_comments segment end (.*?)\)$";

/// A named segment of a markdown file, with the comment lines made of it.
#[derive(Debug, Clone, PartialEq, Eq)]
pub struct MdSegment {
    /// Name of the markdown file.
    pub md_filename: Vec<u8>,
    /// Name of the segment.
    pub marker_name: Vec<u8>,
    /// Offset of the first byte of the body: just behind the line terminator
    /// of the start line.
    pub pos_start: usize,
    /// Offset just behind the body: where the end line begins. 0 as long as
    /// no end line has been found.
    pub pos_end: usize,
    /// The body as comment lines, behind the comment symbol that was at hand
    /// when the file was read.
    pub text: Vec<u8>,
}

/// A segment as a mathematical value.
pub struct Segment {
    pub md_filename: Seq<u8>,
    pub marker_name: Seq<u8>,
    pub pos_start: int,
    pub pos_end: int,
    pub text: Seq<u8>,
}

impl View for MdSegment {
    type V = Segment;

    open spec fn view(&self) -> Segment {
        Segment {
            md_filename: self.md_filename@,
            marker_name: self.marker_name@,
            pos_start: self.pos_start as int,
            pos_end: self.pos_end as int,
            text: self.text@,
        }
    }
}

impl Segment {
    /// Whether this is the segment of that name in that file.
    pub open spec fn names(self, md_filename: Seq<u8>, marker_name: Seq<u8>) -> bool {
        self.md_filename == md_filename && self.marker_name == marker_name
    }

    /// The same segment with its end at `pos_end` and `more` behind its text.
    pub open spec fn closed_at(self, pos_end: int, more: Seq<u8>) -> Segment {
        Segment { pos_end, text: self.text + more, ..self }
    }
}

/// The views of a list of segments, in order.
pub open spec fn segment_views(segments: Seq<MdSegment>) -> Seq<Segment> {
    segments.map_values(|s: MdSegment| s@)
}

/// The result of an extraction as a mathematical value.
pub open spec fn extraction_view(r: Result<Vec<MdSegment>, SyncError>) -> Result<Seq<Segment>, SyncError> {
    match r {
        Ok(segments) => Ok(segment_views(segments@)),
        Err(e) => Err(e),
    }
}

/// The result of a lookup as a mathematical value.
pub open spec fn text_view(r: Result<Vec<u8>, SyncError>) -> Result<Seq<u8>, SyncError> {
    match r {
        Ok(text) => Ok(text@),
        Err(e) => Err(e),
    }
}

/// The segment that a start line opens: its name from the capture group, the
/// body beginning behind the line, the end not yet known, no text yet.
pub open spec fn opened_segment(md_filename: Seq<u8>, line: FoundLine) -> Segment {
    Segment {
        md_filename,
        marker_name: line.group(1),
        pos_start: after_line(line.end),
        pos_end: 0,
        text: Seq::empty(),
    }
}

/// The segments that the start lines open, in order of appearance.
pub open spec fn opened_segments(md_filename: Seq<u8>, starts: Seq<FoundLine>) -> Seq<Segment> {
    starts.map_values(|line: FoundLine| opened_segment(md_filename, line))
}

/// Index of the first segment at or behind `from` with that name in that
/// file.
pub open spec fn first_segment_from(
    segments: Seq<Segment>,
    md_filename: Seq<u8>,
    marker_name: Seq<u8>,
    from: int,
) -> Option<int>
    decreases segments.len() - from,
{
    if from < 0 || from >= segments.len() {
        None
    } else if segments[from].names(md_filename, marker_name) {
        Some(from)
    } else {
        first_segment_from(segments, md_filename, marker_name, from + 1)
    }
}

/// Index of the first segment with that name in that file.
pub open spec fn first_segment(segments: Seq<Segment>, md_filename: Seq<u8>, marker_name: Seq<u8>) -> Option<int> {
    first_segment_from(segments, md_filename, marker_name, 0)
}

/// The segments after one end line. The first segment of the line's name ends
/// where the line begins, and the comment lines made of its body are put
/// behind its text. An end line that no segment answers to is an error, and so
/// is one that stands before the body it should close.
pub open spec fn close_segment(
    segments: Seq<Segment>,
    md_filename: Seq<u8>,
    md_text: Seq<u8>,
    symbol: Seq<u8>,
    line: FoundLine,
) -> Result<Seq<Segment>, SyncError> {
    match first_segment(segments, md_filename, line.group(1)) {
        Some(i) => if segments[i].pos_start <= line.start <= md_text.len() {
            Ok(
                segments.update(
                    i,
                    segments[i].closed_at(
                        line.start,
                        formatted(md_text.subrange(segments[i].pos_start, line.start), symbol),
                    ),
                ),
            )
        } else {
            Err(SyncError::BrokenRange)
        },
        None => Err(SyncError::UnmatchedEnd),
    }
}

/// The segments after the end lines, taken in order of appearance.
pub open spec fn close_segments(
    segments: Seq<Segment>,
    md_filename: Seq<u8>,
    md_text: Seq<u8>,
    symbol: Seq<u8>,
    ends: Seq<FoundLine>,
) -> Result<Seq<Segment>, SyncError>
    decreases ends.len(),
{
    if ends.len() == 0 {
        Ok(segments)
    } else {
        match close_segments(segments, md_filename, md_text, symbol, ends.drop_last()) {
            Ok(closed) => close_segment(closed, md_filename, md_text, symbol, ends.last()),
            Err(e) => Err(e),
        }
    }
}

/// The segments of a markdown file with these start lines and these end
/// lines.
pub open spec fn paired_segments(
    md_filename: Seq<u8>,
    md_text: Seq<u8>,
    symbol: Seq<u8>,
    starts: Seq<FoundLine>,
    ends: Seq<FoundLine>,
) -> Result<Seq<Segment>, SyncError> {
    close_segments(opened_segments(md_filename, starts), md_filename, md_text, symbol, ends)
}

/// The segments of the markdown file `md_text`, as comment lines behind
/// `symbol`.
pub open spec fn md_segments(md_filename: Seq<u8>, md_text: Seq<u8>, symbol: Seq<u8>) -> Result<
    Seq<Segment>,
    SyncError,
> {
    match scanned(MD_START_PATTERN@, md_text) {
        Ok(starts) => match scanned(MD_END_PATTERN@, md_text) {
            Ok(ends) => paired_segments(md_filename, md_text, symbol, starts, ends),
            Err(e) => Err(e),
        },
        Err(e) => Err(e),
    }
}

/// Once an end line has failed, the end lines behind it change nothing.
proof fn lemma_close_segments_stays_failed(
    segments: Seq<Segment>,
    md_filename: Seq<u8>,
    md_text: Seq<u8>,
    symbol: Seq<u8>,
    ends: Seq<FoundLine>,
    n: int,
)
    requires
        0 <= n <= ends.len(),
        close_segments(segments, md_filename, md_text, symbol, ends.take(n)) is Err,
    ensures
        close_segments(segments, md_filename, md_text, symbol, ends) == close_segments(
            segments,
            md_filename,
            md_text,
            symbol,
            ends.take(n),
        ),
    decreases ends.len() - n,
{
    if n == ends.len() {
        assert(ends.take(n) =~= ends);
    } else {
        assert(ends.take(n + 1).drop_last() =~= ends.take(n));
        lemma_close_segments_stays_failed(segments, md_filename, md_text, symbol, ends, n + 1);
    }
}

/// What the search for a segment finds: the segment at the index has the
/// name and lies in the file, and none before it does; or none does at all.
pub proof fn lemma_first_segment_from(segments: Seq<Segment>, md_filename: Seq<u8>, marker_name: Seq<u8>, from: int)
    requires
        0 <= from,
    ensures
        match first_segment_from(segments, md_filename, marker_name, from) {
            Some(i) => from <= i < segments.len() && segments[i].names(md_filename, marker_name) && forall|k: int|
                from <= k < i ==> !(#[trigger] segments[k]).names(md_filename, marker_name),
            None => forall|k: int|
                from <= k < segments.len() ==> !(#[trigger] segments[k]).names(md_filename, marker_name),
        },
    decreases segments.len() - from,
{
    if from < segments.len() && !segments[from].names(md_filename, marker_name) {
        lemma_first_segment_from(segments, md_filename, marker_name, from + 1);
    }
}

/// The end lines change the ends and the texts of the segments and nothing
/// else, and there are two ways to fail.
pub proof fn lemma_close_segments_shape(
    segments: Seq<Segment>,
    md_filename: Seq<u8>,
    md_text: Seq<u8>,
    symbol: Seq<u8>,
    ends: Seq<FoundLine>,
)
    ensures
        match close_segments(segments, md_filename, md_text, symbol, ends) {
            Ok(closed) => closed.len() == segments.len() && forall|i: int|
                0 <= i < segments.len() ==> {
                    &&& (#[trigger] closed[i]).md_filename == segments[i].md_filename
                    &&& closed[i].marker_name == segments[i].marker_name
                    &&& closed[i].pos_start == segments[i].pos_start
                },
            Err(e) => e == SyncError::UnmatchedEnd || e == SyncError::BrokenRange,
        },
    decreases ends.len(),
{
    if ends.len() > 0 {
        lemma_close_segments_shape(segments, md_filename, md_text, symbol, ends.drop_last());
        match close_segments(segments, md_filename, md_text, symbol, ends.drop_last()) {
            Ok(closed) => {
                lemma_first_segment_from(closed, md_filename, ends.last().group(1), 0);
            },
            Err(_) => {},
        }
    }
}

/// Two lists of segments that bear the same names answer a search alike.
proof fn lemma_same_names_same_first(
    a: Seq<Segment>,
    b: Seq<Segment>,
    md_filename: Seq<u8>,
    marker_name: Seq<u8>,
    from: int,
)
    requires
        a.len() == b.len(),
        forall|i: int|
            0 <= i < a.len() ==> (#[trigger] a[i]).names(md_filename, marker_name) == b[i].names(
                md_filename,
                marker_name,
            ),
    ensures
        first_segment_from(a, md_filename, marker_name, from) == first_segment_from(b, md_filename, marker_name, from),
    decreases a.len() - from,
{
    if 0 <= from < a.len() && !a[from].names(md_filename, marker_name) {
        lemma_same_names_same_first(a, b, md_filename, marker_name, from + 1);
    }
}

/// Whether an end line closes a body: a segment has its name, and the first
/// such segment begins no later than the line, which lies in a text of `len`
/// bytes.
pub open spec fn closes_body(segments: Seq<Segment>, md_filename: Seq<u8>, len: int, line: FoundLine) -> bool {
    match first_segment(segments, md_filename, line.group(1)) {
        Some(i) => segments[i].pos_start <= line.start <= len,
        None => false,
    }
}

/// Extraction fails if and only if some end line closes no body.
pub proof fn lemma_extraction_fails(
    segments: Seq<Segment>,
    md_filename: Seq<u8>,
    md_text: Seq<u8>,
    symbol: Seq<u8>,
    ends: Seq<FoundLine>,
)
    ensures
        close_segments(segments, md_filename, md_text, symbol, ends) is Err <==> exists|j: int|
            0 <= j < ends.len() && !closes_body(segments, md_filename, md_text.len() as int, #[trigger] ends[j]),
    decreases ends.len(),
{
    if ends.len() > 0 {
        let front = ends.drop_last();
        let line = ends.last();
        lemma_extraction_fails(segments, md_filename, md_text, symbol, front);
        lemma_close_segments_shape(segments, md_filename, md_text, symbol, front);
        assert forall|j: int| 0 <= j < front.len() implies front[j] == ends[j] by {}
        match close_segments(segments, md_filename, md_text, symbol, front) {
            Ok(closed) => {
                // the segments bear their names and begin as before
                lemma_same_names_same_first(closed, segments, md_filename, line.group(1), 0);
                lemma_first_segment_from(segments, md_filename, line.group(1), 0);
            },
            Err(_) => {},
        }
    }
}

/// Index of the first segment with that name in that file.
pub fn find_segment(segments: &Vec<MdSegment>, md_filename: &[u8], marker_name: &[u8]) -> (found: Option<usize>)
    ensures
        match found {
            Some(i) => first_segment(segment_views(segments@), md_filename@, marker_name@) == Some(i as int)
                && i < segments@.len(),
            None => first_segment(segment_views(segments@), md_filename@, marker_name@) is None,
        },
{
    let ghost views = segment_views(segments@);
    let mut i: usize = 0;
    while i < segments.len()
        invariant
            i <= segments@.len(),
            views == segment_views(segments@),
            first_segment(views, md_filename@, marker_name@) == first_segment_from(
                views,
                md_filename@,
                marker_name@,
                i as int,
            ),
        decreases segments@.len() - i,
    {
        let same_file = same_bytes(segments[i].md_filename.as_slice(), md_filename);
        let same_name = same_bytes(segments[i].marker_name.as_slice(), marker_name);
        if same_file && same_name {
            return Some(i);
        }
        i += 1;
    }
    None
}

/// Pairs the start lines and the end lines of a markdown file and renders
/// the bodies.
///
/// Every start line opens a segment, in order of appearance. Every end line
/// then closes the first segment of its name: the body between the two lines
/// is rendered behind `comment_symbol` and put behind the text of the segment.
pub fn segments_from_matches(
    md_filename: &[u8],
    md_text_content: &[u8],
    comment_symbol: &[u8],
    starts: &Vec<LineMatch>,
    ends: &Vec<LineMatch>,
) -> (r: Result<Vec<MdSegment>, SyncError>)
    ensures
        extraction_view(r) == paired_segments(
            md_filename@,
            md_text_content@,
            comment_symbol@,
            found_lines(starts@),
            found_lines(ends@),
        ),
{
    let ghost opened = opened_segments(md_filename@, found_lines(starts@));
    let mut segments: Vec<MdSegment> = Vec::new();
    let mut i: usize = 0;
    while i < starts.len()
        invariant
            i <= starts@.len(),
            opened == opened_segments(md_filename@, found_lines(starts@)),
            segments@.len() == i,
            segment_views(segments@) == opened.take(i as int),
        decreases starts@.len() - i,
    {
        let line = &starts[i];
        let segment = MdSegment {
            md_filename: copy_bytes(md_filename),
            marker_name: line.group(1),
            pos_start: line_after(line.end),
            pos_end: 0,
            text: Vec::new(),
        };
        segments.push(segment);
        assert(segment_views(segments@) =~= opened.take(i as int + 1)) by {
            assert forall|k: int| 0 <= k < i implies segment_views(segments@)[k] == opened[k] by {
                assert(opened.take(i as int)[k] == opened[k]);
            }
        }
        i += 1;
    }
    assert(opened.take(starts@.len() as int) =~= opened);
    let ghost lines = found_lines(ends@);
    let mut j: usize = 0;
    while j < ends.len()
        invariant
            j <= ends@.len(),
            lines == found_lines(ends@),
            opened == opened_segments(md_filename@, found_lines(starts@)),
            close_segments(opened, md_filename@, md_text_content@, comment_symbol@, lines.take(j as int)) == Ok::<
                Seq<Segment>,
                SyncError,
            >(segment_views(segments@)),
        decreases ends@.len() - j,
    {
        let line = &ends[j];
        let marker_name = line.group(1);
        let ghost before = segment_views(segments@);
        proof {
            assert(lines.take(j as int + 1).drop_last() =~= lines.take(j as int));
            assert(close_segments(opened, md_filename@, md_text_content@, comment_symbol@, lines.take(j as int + 1))
                == close_segment(before, md_filename@, md_text_content@, comment_symbol@, line@));
        }
        match find_segment(&segments, md_filename, marker_name.as_slice()) {
            Some(k) => {
                let from = segments[k].pos_start;
                if from <= line.start && line.start <= md_text_content.len() {
                    let body = vstd::slice::slice_subrange(md_text_content, from, line.start);
                    let more = format_segment(body, comment_symbol);
                    segments[k].pos_end = line.start;
                    append_bytes(&mut segments[k].text, more.as_slice());
                    assert(segment_views(segments@) =~= before.update(
                        k as int,
                        before[k as int].closed_at(line.start as int, more@),
                    ));
                } else {
                    proof {
                        lemma_close_segments_stays_failed(
                            opened,
                            md_filename@,
                            md_text_content@,
                            comment_symbol@,
                            lines,
                            j as int + 1,
                        );
                    }
                    return Err(SyncError::BrokenRange);
                }
            },
            None => {
                proof {
                    lemma_close_segments_stays_failed(
                        opened,
                        md_filename@,
                        md_text_content@,
                        comment_symbol@,
                        lines,
                        j as int + 1,
                    );
                }
                return Err(SyncError::UnmatchedEnd);
            },
        }
        j += 1;
    }
    assert(lines.take(ends@.len() as int) =~= lines);
    Ok(segments)
}

/// Extracts the segments of a markdown file, as comment lines behind
/// `comment_symbol`.
pub fn md_file_segments(md_filename: &[u8], md_text_content: &[u8], comment_symbol: &[u8]) -> (r: Result<
    Vec<MdSegment>,
    SyncError,
>)
    ensures
        extraction_view(r) == md_segments(md_filename@, md_text_content@, comment_symbol@),
{
    let starts = find_lines(MD_START_PATTERN, md_text_content)?;
    let ends = find_lines(MD_END_PATTERN, md_text_content)?;
    segments_from_matches(md_filename, md_text_content, comment_symbol, &starts, &ends)
}

} // verus!

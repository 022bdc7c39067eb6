//! The markers of a code file.

use vstd::prelude::*;
use crate::error::SyncError;
use crate::pattern::{find_lines, found_lines, line_after, after_line, scanned, FoundLine, LineMatch};
use crate::text::{same_bytes, trim_bytes, trimmed};

verus! {

/// The pattern of the line that opens a region of a code file.
pub const CODE_START_PATTERN: &'static str =
    "(?m)^ *?// region: lmake_md_to_doc_comments include (.*?) (.*?) (.*?)$";

/// The pattern of the line that closes a region of a code file.
pub const CODE_END_PATTERN: &'static str =
    "(?m)^ *?// endregion: lmake_md_to_doc_comments include (.*?) (.*?) (.*?)$";

/// A pair of markers in a code file.
#[derive(Debug, Clone, PartialEq, Eq)]
pub struct RsMarker {
    /// Name of the markdown file that the region is filled from.
    pub md_filename: Vec<u8>,
    /// Name of the segment of that file.
    pub marker_name: Vec<u8>,
    /// What stands before every line of the region: the rest of the start
    /// marker's line, without the white space around it.
    pub comment_symbol: Vec<u8>,
    /// Offset of the first byte of the region: just behind the line
    /// terminator of the start marker.
    pub pos_start: usize,
    /// Offset just behind the region: where the line of the end marker
    /// begins. 0 as long as no end marker has been found.
    pub pos_end: usize,
}

/// A pair of markers as a mathematical value.
pub struct Marker {
    pub md_filename: Seq<u8>,
    pub marker_name: Seq<u8>,
    pub comment_symbol: Seq<u8>,
    pub pos_start: int,
    pub pos_end: int,
}

impl View for RsMarker {
    type V = Marker;

    open spec fn view(&self) -> Marker {
        Marker {
            md_filename: self.md_filename@,
            marker_name: self.marker_name@,
            comment_symbol: self.comment_symbol@,
            pos_start: self.pos_start as int,
            pos_end: self.pos_end as int,
        }
    }
}

impl Marker {
    /// Whether the marker names this file and this segment.
    pub open spec fn names(self, md_filename: Seq<u8>, marker_name: Seq<u8>) -> bool {
        self.md_filename == md_filename && self.marker_name == marker_name
    }

    /// The same marker with its end at `pos_end`.
    pub open spec fn closed_at(self, pos_end: int) -> Marker {
        Marker { pos_end, ..self }
    }
}

/// The views of a list of markers, in order.
pub open spec fn marker_views(markers: Seq<RsMarker>) -> Seq<Marker> {
    markers.map_values(|m: RsMarker| m@)
}

/// The result of a scan as a mathematical value.
pub open spec fn scan_view(r: Result<Vec<RsMarker>, SyncError>) -> Result<Seq<Marker>, SyncError> {
    match r {
        Ok(markers) => Ok(marker_views(markers@)),
        Err(e) => Err(e),
    }
}

/// The marker that a start line opens: the names of the file and of the
/// segment from its first two capture groups, the comment symbol from the
/// third, which holds the rest of the line, without the white space around
/// it; the region beginning behind the line, the end not yet known.
pub open spec fn opened_marker(line: FoundLine) -> Marker {
    Marker {
        md_filename: line.group(1),
        marker_name: line.group(2),
        comment_symbol: trimmed(line.group(3)),
        pos_start: after_line(line.end),
        pos_end: 0,
    }
}

/// The markers that the start lines open, in order of appearance.
pub open spec fn opened_markers(starts: Seq<FoundLine>) -> Seq<Marker> {
    starts.map_values(|line: FoundLine| opened_marker(line))
}

/// Index of the first marker at or behind `from` that names this file and
/// this segment.
pub open spec fn first_marker_from(
    markers: Seq<Marker>,
    md_filename: Seq<u8>,
    marker_name: Seq<u8>,
    from: int,
) -> Option<int>
    decreases markers.len() - from,
{
    if from < 0 || from >= markers.len() {
        None
    } else if markers[from].names(md_filename, marker_name) {
        Some(from)
    } else {
        first_marker_from(markers, md_filename, marker_name, from + 1)
    }
}

/// Index of the first marker that names this file and this segment.
pub open spec fn first_marker(markers: Seq<Marker>, md_filename: Seq<u8>, marker_name: Seq<u8>) -> Option<int> {
    first_marker_from(markers, md_filename, marker_name, 0)
}

/// The markers after one end line: the first marker that names the file and
/// the segment of the line ends where the line begins. An end line that no
/// marker answers to is an error.
pub open spec fn close_marker(markers: Seq<Marker>, line: FoundLine) -> Result<Seq<Marker>, SyncError> {
    match first_marker(markers, line.group(1), line.group(2)) {
        Some(i) => Ok(markers.update(i, markers[i].closed_at(line.start))),
        None => Err(SyncError::UnmatchedEnd),
    }
}

/// The markers after the end lines, taken in order of appearance.
pub open spec fn close_markers(markers: Seq<Marker>, ends: Seq<FoundLine>) -> Result<Seq<Marker>, SyncError>
    decreases ends.len(),
{
    if ends.len() == 0 {
        Ok(markers)
    } else {
        match close_markers(markers, ends.drop_last()) {
            Ok(closed) => close_marker(closed, ends.last()),
            Err(e) => Err(e),
        }
    }
}

/// The markers of a code file with these start lines and these end lines.
pub open spec fn paired_markers(starts: Seq<FoundLine>, ends: Seq<FoundLine>) -> Result<Seq<Marker>, SyncError> {
    close_markers(opened_markers(starts), ends)
}

/// The markers of the code file `text`.
pub open spec fn code_markers(text: Seq<u8>) -> Result<Seq<Marker>, SyncError> {
    match scanned(CODE_START_PATTERN@, text) {
        Ok(starts) => match scanned(CODE_END_PATTERN@, text) {
            Ok(ends) => paired_markers(starts, ends),
            Err(e) => Err(e),
        },
        Err(e) => Err(e),
    }
}

/// Once an end line has no marker, the end lines behind it change nothing.
proof fn lemma_close_markers_stays_failed(markers: Seq<Marker>, ends: Seq<FoundLine>, n: int)
    requires
        0 <= n <= ends.len(),
        close_markers(markers, ends.take(n)) is Err,
    ensures
        close_markers(markers, ends) == close_markers(markers, ends.take(n)),
    decreases ends.len() - n,
{
    if n == ends.len() {
        assert(ends.take(n) =~= ends);
    } else {
        assert(ends.take(n + 1).drop_last() =~= ends.take(n));
        lemma_close_markers_stays_failed(markers, ends, n + 1);
    }
}

/// What the search for a marker finds: the marker at the index names the file
/// and the segment and none before it does; or none does at all.
pub proof fn lemma_first_marker_from(markers: Seq<Marker>, md_filename: Seq<u8>, marker_name: Seq<u8>, from: int)
    requires
        0 <= from,
    ensures
        match first_marker_from(markers, md_filename, marker_name, from) {
            Some(i) => from <= i < markers.len() && markers[i].names(md_filename, marker_name) && forall|k: int|
                from <= k < i ==> !(#[trigger] markers[k]).names(md_filename, marker_name),
            None => forall|k: int|
                from <= k < markers.len() ==> !(#[trigger] markers[k]).names(md_filename, marker_name),
        },
    decreases markers.len() - from,
{
    if from < markers.len() && !markers[from].names(md_filename, marker_name) {
        lemma_first_marker_from(markers, md_filename, marker_name, from + 1);
    }
}

/// The end lines change the ends of the markers and nothing else, and the
/// only way to fail is an end line without a marker.
pub proof fn lemma_close_markers_shape(markers: Seq<Marker>, ends: Seq<FoundLine>)
    ensures
        match close_markers(markers, ends) {
            Ok(closed) => closed.len() == markers.len() && forall|i: int|
                0 <= i < markers.len() ==> (#[trigger] closed[i]) == markers[i].closed_at(closed[i].pos_end),
            Err(e) => e == SyncError::UnmatchedEnd,
        },
    decreases ends.len(),
{
    if ends.len() > 0 {
        lemma_close_markers_shape(markers, ends.drop_last());
        match close_markers(markers, ends.drop_last()) {
            Ok(closed) => {
                lemma_first_marker_from(closed, ends.last().group(1), ends.last().group(2), 0);
            },
            Err(_) => {},
        }
    }
}

/// Two lists of markers that bear the same names answer a search alike.
proof fn lemma_same_names_same_first(
    a: Seq<Marker>,
    b: Seq<Marker>,
    md_filename: Seq<u8>,
    marker_name: Seq<u8>,
    from: int,
)
    requires
        a.len() == b.len(),
        forall|i: int|
            0 <= i < a.len() ==> (#[trigger] a[i]).names(md_filename, marker_name) == b[i].names(
                md_filename,
                marker_name,
            ),
    ensures
        first_marker_from(a, md_filename, marker_name, from) == first_marker_from(b, md_filename, marker_name, from),
    decreases a.len() - from,
{
    if 0 <= from < a.len() && !a[from].names(md_filename, marker_name) {
        lemma_same_names_same_first(a, b, md_filename, marker_name, from + 1);
    }
}

/// Pairing fails if and only if some end line names a file and a segment that
/// no start line names.
pub proof fn lemma_unmatched_end_fails(markers: Seq<Marker>, ends: Seq<FoundLine>)
    ensures
        close_markers(markers, ends) is Err <==> exists|j: int|
            0 <= j < ends.len() && first_marker(markers, (#[trigger] ends[j]).group(1), ends[j].group(2)) is None,
    decreases ends.len(),
{
    if ends.len() > 0 {
        let front = ends.drop_last();
        let line = ends.last();
        lemma_unmatched_end_fails(markers, front);
        lemma_close_markers_shape(markers, front);
        assert forall|j: int| 0 <= j < front.len() implies front[j] == ends[j] by {}
        match close_markers(markers, front) {
            Ok(closed) => {
                // the markers bear their names as before, so the search finds what it found
                lemma_same_names_same_first(closed, markers, line.group(1), line.group(2), 0);
            },
            Err(_) => {},
        }
    }
}

/// Index of the first marker that names this file and this segment.
pub fn find_marker(markers: &Vec<RsMarker>, md_filename: &[u8], marker_name: &[u8]) -> (found: Option<usize>)
    ensures
        match found {
            Some(i) => first_marker(marker_views(markers@), md_filename@, marker_name@) == Some(i as int)
                && i < markers@.len(),
            None => first_marker(marker_views(markers@), md_filename@, marker_name@) is None,
        },
{
    let ghost views = marker_views(markers@);
    let mut i: usize = 0;
    while i < markers.len()
        invariant
            i <= markers@.len(),
            views == marker_views(markers@),
            first_marker(views, md_filename@, marker_name@) == first_marker_from(
                views,
                md_filename@,
                marker_name@,
                i as int,
            ),
        decreases markers@.len() - i,
    {
        let same_file = same_bytes(markers[i].md_filename.as_slice(), md_filename);
        let same_name = same_bytes(markers[i].marker_name.as_slice(), marker_name);
        if same_file && same_name {
            return Some(i);
        }
        i += 1;
    }
    None
}

/// Pairs the start lines and the end lines of a code file.
///
/// Every start line opens a marker, in order of appearance. Every end line
/// then closes the first marker that names its file and its segment; an end
/// line that finds none stops the work.
pub fn markers_from_matches(starts: &Vec<LineMatch>, ends: &Vec<LineMatch>) -> (r: Result<Vec<RsMarker>, SyncError>)
    ensures
        scan_view(r) == paired_markers(found_lines(starts@), found_lines(ends@)),
{
    let ghost opened = opened_markers(found_lines(starts@));
    let mut markers: Vec<RsMarker> = Vec::new();
    let mut i: usize = 0;
    while i < starts.len()
        invariant
            i <= starts@.len(),
            opened == opened_markers(found_lines(starts@)),
            markers@.len() == i,
            marker_views(markers@) == opened.take(i as int),
        decreases starts@.len() - i,
    {
        let line = &starts[i];
        let marker = RsMarker {
            md_filename: line.group(1),
            marker_name: line.group(2),
            comment_symbol: trim_bytes(line.group(3).as_slice()),
            pos_start: line_after(line.end),
            pos_end: 0,
        };
        markers.push(marker);
        assert(marker_views(markers@) =~= opened.take(i as int + 1)) by {
            assert forall|k: int| 0 <= k < i implies marker_views(markers@)[k] == opened[k] by {
                assert(opened.take(i as int)[k] == opened[k]);
            }
        }
        i += 1;
    }
    assert(opened.take(starts@.len() as int) =~= opened);
    let ghost lines = found_lines(ends@);
    let mut j: usize = 0;
    while j < ends.len()
        invariant
            j <= ends@.len(),
            lines == found_lines(ends@),
            opened == opened_markers(found_lines(starts@)),
            close_markers(opened, lines.take(j as int)) == Ok::<Seq<Marker>, SyncError>(marker_views(markers@)),
        decreases ends@.len() - j,
    {
        let line = &ends[j];
        let md_filename = line.group(1);
        let marker_name = line.group(2);
        let ghost before = marker_views(markers@);
        proof {
            assert(lines.take(j as int + 1).drop_last() =~= lines.take(j as int));
        }
        match find_marker(&markers, md_filename.as_slice(), marker_name.as_slice()) {
            Some(k) => {
                markers[k].pos_end = line.start;
                assert(marker_views(markers@) =~= before.update(k as int, before[k as int].closed_at(line.start as int)));
            },
            None => {
                proof {
                    lemma_close_markers_stays_failed(opened, lines, j as int + 1);
                }
                return Err(SyncError::UnmatchedEnd);
            },
        }
        j += 1;
    }
    assert(lines.take(ends@.len() as int) =~= lines);
    Ok(markers)
}

/// Finds the markers of a code file.
///
/// The start lines are searched first, then the end lines; the lines are
/// paired as `markers_from_matches` says.
pub fn rs_file_markers(rs_text_content: &[u8]) -> (r: Result<Vec<RsMarker>, SyncError>)
    ensures
        scan_view(r) == code_markers(rs_text_content@),
{
    let starts = find_lines(CODE_START_PATTERN, rs_text_content)?;
    let ends = find_lines(CODE_END_PATTERN, rs_text_content)?;
    markers_from_matches(&starts, &ends)
}

} // verus!

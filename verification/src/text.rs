//! Byte strings: comparing, copying and cutting into lines.

use vstd::prelude::*;

verus! {

/// The byte that ends a line.
pub const LINE_FEED: u8 = 10;

/// The byte that may stand before the line feed of a line.
pub const CARRIAGE_RETURN: u8 = 13;

/// The byte of a blank.
pub const SPACE: u8 = 32;

/// Whether two byte strings hold the same bytes.
pub fn same_bytes(a: &[u8], b: &[u8]) -> (same: bool)
    ensures
        same == (a@ == b@),
{
    if a.len() != b.len() {
        return false;
    }
    let mut i: usize = 0;
    while i < a.len()
        invariant
            i <= a.len(),
            a.len() == b.len(),
            forall|k: int| 0 <= k < i ==> a@[k] == b@[k],
        decreases a.len() - i,
    {
        if a[i] != b[i] {
            return false;
        }
        i += 1;
    }
    assert(a@ =~= b@);
    true
}

/// Whether `text` begins with `prefix`.
pub fn begins_with(text: &[u8], prefix: &[u8]) -> (begins: bool)
    ensures
        begins == prefix@.is_prefix_of(text@),
{
    if prefix.len() > text.len() {
        return false;
    }
    let mut i: usize = 0;
    while i < prefix.len()
        invariant
            i <= prefix.len() <= text.len(),
            forall|k: int| 0 <= k < i ==> text@[k] == prefix@[k],
        decreases prefix.len() - i,
    {
        if text[i] != prefix[i] {
            return false;
        }
        i += 1;
    }
    true
}

/// Puts the bytes of `src` behind those of `dst`.
pub fn append_bytes(dst: &mut Vec<u8>, src: &[u8])
    ensures
        final(dst)@ == old(dst)@ + src@,
{
    let mut i: usize = 0;
    while i < src.len()
        invariant
            i <= src.len(),
            dst@ == old(dst)@ + src@.take(i as int),
        decreases src.len() - i,
    {
        dst.push(src[i]);
        i += 1;
    }
}

/// A copy of `src`.
pub fn copy_bytes(src: &[u8]) -> (copy: Vec<u8>)
    ensures
        copy@ == src@,
{
    let mut copy: Vec<u8> = Vec::new();
    append_bytes(&mut copy, src);
    copy
}

/// Number of bytes before the first line feed of `s`, or the length of `s`
/// where it holds none.
pub open spec fn line_length(s: Seq<u8>) -> int
    decreases s.len(),
{
    if s.len() == 0 || s[0] == LINE_FEED {
        0
    } else {
        1 + line_length(s.drop_first())
    }
}

/// `line` without the carriage return at its end, if it has one.
pub open spec fn without_return(line: Seq<u8>) -> Seq<u8> {
    if line.len() > 0 && line.last() == CARRIAGE_RETURN {
        line.drop_last()
    } else {
        line
    }
}

/// The lines of `s`, in order. A line ends with a line feed, or with a
/// carriage return and a line feed; neither belongs to the line. What stands
/// behind the last line feed is a line too, unless it is empty.
pub open spec fn lines_of(s: Seq<u8>) -> Seq<Seq<u8>>
    decreases s.len(),
{
    let n = line_length(s);
    if s.len() == 0 {
        Seq::empty()
    } else if 0 <= n < s.len() {
        seq![without_return(s.take(n))] + lines_of(s.skip(n + 1))
    } else {
        seq![s]
    }
}

/// Where `line_length` points: no line feed before it, and a line feed at it
/// unless it is the end.
pub proof fn lemma_line_length(s: Seq<u8>)
    ensures
        0 <= line_length(s) <= s.len(),
        line_length(s) < s.len() ==> s[line_length(s)] == LINE_FEED,
        forall|k: int| 0 <= k < line_length(s) ==> s[k] != LINE_FEED,
    decreases s.len(),
{
    if s.len() == 0 || s[0] == LINE_FEED {
    } else {
        let rest = s.drop_first();
        lemma_line_length(rest);
        assert forall|k: int| 0 <= k < line_length(s) implies s[k] != LINE_FEED by {
            if k > 0 {
                assert(s[k] == rest[k - 1]);
            }
        }
    }
}

/// An offset with no line feed before it, and with a line feed at it unless it
/// is the end, is the one that `line_length` gives.
proof fn lemma_line_length_is(s: Seq<u8>, n: int)
    requires
        0 <= n <= s.len(),
        n < s.len() ==> s[n] == LINE_FEED,
        forall|k: int| 0 <= k < n ==> s[k] != LINE_FEED,
    ensures
        line_length(s) == n,
{
    lemma_line_length(s);
}

/// The end of the line that begins at `from`: the offset of the next line
/// feed, or the end of `text`.
pub fn line_end(text: &[u8], from: usize) -> (end: usize)
    requires
        from <= text@.len(),
    ensures
        end == from + line_length(text@.skip(from as int)),
        from <= end <= text@.len(),
{
    let mut end: usize = from;
    while end < text.len() && text[end] != LINE_FEED
        invariant
            from <= end <= text@.len(),
            forall|k: int| from <= k < end ==> text@[k] != LINE_FEED,
        decreases text@.len() - end,
    {
        end += 1;
    }
    proof {
        lemma_line_length_is(text@.skip(from as int), end - from);
    }
    end
}

/// Whether `b` is white space: a blank, a tab, a line feed, a vertical tab, a
/// form feed or a carriage return.
pub open spec fn is_white_space(b: u8) -> bool {
    b == SPACE || 9 <= b <= 13
}

/// `s` without the white space at its beginning.
pub open spec fn without_leading_space(s: Seq<u8>) -> Seq<u8>
    decreases s.len(),
{
    if s.len() > 0 && is_white_space(s[0]) {
        without_leading_space(s.drop_first())
    } else {
        s
    }
}

/// `s` without the white space at its end.
pub open spec fn without_trailing_space(s: Seq<u8>) -> Seq<u8>
    decreases s.len(),
{
    if s.len() > 0 && is_white_space(s.last()) {
        without_trailing_space(s.drop_last())
    } else {
        s
    }
}

/// `s` without the white space at its beginning and at its end.
pub open spec fn trimmed(s: Seq<u8>) -> Seq<u8> {
    without_trailing_space(without_leading_space(s))
}

/// Number of white space bytes at the beginning of `s`.
pub open spec fn leading_space(s: Seq<u8>) -> int
    decreases s.len(),
{
    if s.len() > 0 && is_white_space(s[0]) {
        1 + leading_space(s.drop_first())
    } else {
        0
    }
}

/// Number of white space bytes at the end of `s`.
pub open spec fn trailing_space(s: Seq<u8>) -> int
    decreases s.len(),
{
    if s.len() > 0 && is_white_space(s.last()) {
        1 + trailing_space(s.drop_last())
    } else {
        0
    }
}

/// Cutting the white space at the beginning skips as many bytes as there are.
proof fn lemma_leading_space(s: Seq<u8>)
    ensures
        0 <= leading_space(s) <= s.len(),
        without_leading_space(s) == s.skip(leading_space(s)),
        forall|k: int| 0 <= k < leading_space(s) ==> is_white_space(s[k]),
        leading_space(s) < s.len() ==> !is_white_space(s[leading_space(s)]),
    decreases s.len(),
{
    if s.len() > 0 && is_white_space(s[0]) {
        let rest = s.drop_first();
        lemma_leading_space(rest);
        assert forall|k: int| 0 <= k < leading_space(s) implies is_white_space(s[k]) by {
            if k > 0 {
                assert(s[k] == rest[k - 1]);
            }
        }
    }
}

/// Cutting the white space at the end drops as many bytes as there are.
proof fn lemma_trailing_space(s: Seq<u8>)
    ensures
        0 <= trailing_space(s) <= s.len(),
        without_trailing_space(s) == s.take(s.len() - trailing_space(s)),
        forall|k: int| s.len() - trailing_space(s) <= k < s.len() ==> is_white_space(s[k]),
        trailing_space(s) < s.len() ==> !is_white_space(s[s.len() - trailing_space(s) - 1]),
    decreases s.len(),
{
    if s.len() > 0 && is_white_space(s.last()) {
        let rest = s.drop_last();
        lemma_trailing_space(rest);
        assert forall|k: int| s.len() - trailing_space(s) <= k < s.len() implies is_white_space(s[k]) by {
            if k < rest.len() {
                assert(s[k] == rest[k]);
            }
        }
    }
}

/// What trimming leaves: a piece of `s` that neither begins nor ends with
/// white space, with nothing but white space before it and behind it.
pub proof fn lemma_trimmed(s: Seq<u8>)
    ensures
        exists|from: int, to: int|
            {
                &&& 0 <= from <= to <= s.len()
                &&& trimmed(s) == #[trigger] s.subrange(from, to)
                &&& forall|k: int| 0 <= k < from ==> is_white_space(s[k])
                &&& forall|k: int| to <= k < s.len() ==> is_white_space(s[k])
                &&& from < to ==> !is_white_space(s[from]) && !is_white_space(s[to - 1])
            },
{
    let from = leading_space(s);
    lemma_leading_space(s);
    let rest = s.skip(from);
    let to = from + rest.len() - trailing_space(rest);
    lemma_trailing_space(rest);
    assert(rest.take(rest.len() - trailing_space(rest)) =~= s.subrange(from, to));
    assert forall|k: int| to <= k < s.len() implies is_white_space(s[k]) by {
        assert(s[k] == rest[k - from]);
    }
}

/// Whether `b` is white space.
pub fn is_blank(b: u8) -> (blank: bool)
    ensures
        blank == is_white_space(b),
{
    b == SPACE || (9 <= b && b <= 13)
}

/// A copy of `text` without the white space at its beginning and at its end.
pub fn trim_bytes(text: &[u8]) -> (trim: Vec<u8>)
    ensures
        trim@ == trimmed(text@),
{
    let mut from: usize = 0;
    assert(text@.skip(0) =~= text@);
    while from < text.len() && is_blank(text[from])
        invariant
            from <= text@.len(),
            without_leading_space(text@) == without_leading_space(text@.skip(from as int)),
        decreases text@.len() - from,
    {
        assert(text@.skip(from as int).drop_first() =~= text@.skip(from as int + 1));
        from += 1;
    }
    let ghost rest = text@.skip(from as int);
    let mut to: usize = text.len();
    while to > from && is_blank(text[to - 1])
        invariant
            from <= to <= text@.len(),
            without_trailing_space(rest) == without_trailing_space(text@.subrange(from as int, to as int)),
        decreases to,
    {
        assert(text@.subrange(from as int, to as int).drop_last() =~= text@.subrange(from as int, to as int - 1));
        to -= 1;
    }
    copy_bytes(vstd::slice::slice_subrange(text, from, to))
}

} // verus!

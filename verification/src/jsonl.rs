//! Framing of a dataset file: one record per line, blank lines skipped.
//!
//! The text is taken as bytes in UTF-8. Lines end at a line feed, or at a
//! carriage return directly followed by one, and the last line need not end.
//! What a record says is for the caller to parse.

use vstd::prelude::*;

verus! {

/// The line feed.
pub const LF: u8 = 0x0a;

/// The carriage return.
pub const CR: u8 = 0x0d;

/// A stretch of the text, from `start` up to but without `end`.
#[derive(Clone, Copy, Debug, PartialEq, Eq, Structural)]
pub struct Span {
    pub start: usize,
    pub end: usize,
}

/// The number of bytes of the white-space character that stands at `at` and
/// ends no later than `to`, or zero where none stands there. White space is
/// what Unicode calls so: the controls from tab to carriage return, the
/// space, U+0085, U+00A0, U+1680, U+2000 to U+200A, U+2028, U+2029, U+202F,
/// U+205F and U+3000.
pub open spec fn space_len(text: Seq<u8>, at: int, to: int) -> int {
    if at < 0 || at >= to || to > text.len() {
        0
    } else if 0x09 <= text[at] <= 0x0d || text[at] == 0x20 {
        1
    } else if at + 1 < to && text[at] == 0xc2 && (text[at + 1] == 0x85 || text[at + 1] == 0xa0) {
        2
    } else if at + 2 < to && text[at] == 0xe1 && text[at + 1] == 0x9a && text[at + 2] == 0x80 {
        3
    } else if at + 2 < to && text[at] == 0xe2 && text[at + 1] == 0x80 && (0x80 <= text[at + 2]
        <= 0x8a || text[at + 2] == 0xa8 || text[at + 2] == 0xa9 || text[at + 2] == 0xaf) {
        3
    } else if at + 2 < to && text[at] == 0xe2 && text[at + 1] == 0x81 && text[at + 2] == 0x9f {
        3
    } else if at + 2 < to && text[at] == 0xe3 && text[at + 1] == 0x80 && text[at + 2] == 0x80 {
        3
    } else {
        0
    }
}

/// Whether the text holds nothing but white space from `at` up to `to`: a
/// line of this kind is blank.
pub open spec fn is_blank(text: Seq<u8>, at: int, to: int) -> bool
    decreases to - at,
{
    if at >= to {
        true
    } else {
        space_len(text, at, to) > 0 && is_blank(text, at + space_len(text, at, to), to)
    }
}

/// The place of the first line feed at or after `from`, or the length of the
/// text where there is none.
pub open spec fn line_end(text: Seq<u8>, from: int) -> int
    decreases text.len() - from,
{
    if from >= text.len() {
        text.len() as int
    } else if text[from] == LF {
        from
    } else {
        line_end(text, from + 1)
    }
}

/// Where the content of the line from `from` to `end` stops: at `end`, or one
/// byte earlier where the line is ended by a line feed with a carriage return
/// before it.
pub open spec fn content_end(text: Seq<u8>, from: int, end: int) -> int {
    if from < end < text.len() && text[end - 1] == CR {
        end - 1
    } else {
        end
    }
}

/// The line feed that ends a line is the first one: none stands before it.
pub proof fn lemma_line_end(text: Seq<u8>, from: int)
    requires
        0 <= from <= text.len(),
    ensures
        from <= line_end(text, from) <= text.len(),
        line_end(text, from) < text.len() ==> text[line_end(text, from)] == LF,
        forall|i: int| from <= i < line_end(text, from) ==> text[i] != LF,
    decreases text.len() - from,
{
    if from < text.len() && text[from] != LF {
        lemma_line_end(text, from + 1);
    }
}

/// The records of the text from `from` on, where `from` is the start of a
/// line: the content of each line that is not blank, in the order of the
/// text.
pub open spec fn records_from(text: Seq<u8>, from: int) -> Seq<Span>
    decreases text.len() - from,
{
    if from < 0 || from >= text.len() {
        Seq::empty()
    } else {
        let end = line_end(text, from);
        let stop = content_end(text, from, end);
        proof {
            lemma_line_end(text, from);
        }
        let rest = if end < text.len() {
            records_from(text, end + 1)
        } else {
            Seq::empty()
        };
        if is_blank(text, from, stop) {
            rest
        } else {
            seq![Span { start: from as usize, end: stop as usize }] + rest
        }
    }
}

/// The records of a text.
pub open spec fn records(text: Seq<u8>) -> Seq<Span> {
    records_from(text, 0)
}

/// What holds of the records from `from` on: each lies within the text at or
/// after `from`, is not blank and holds no line feed, and each ends before
/// the next begins.
pub proof fn lemma_records_shape(text: Seq<u8>, from: int)
    requires
        0 <= from <= text.len() <= usize::MAX,
    ensures
        forall|i: int|
            0 <= i < records_from(text, from).len() ==> {
                let span = #[trigger] records_from(text, from)[i];
                &&& from <= span.start <= span.end <= text.len()
                &&& !is_blank(text, span.start as int, span.end as int)
                &&& forall|k: int| span.start <= k < span.end ==> text[k] != LF
            },
        forall|i: int, j: int|
            0 <= i < j < records_from(text, from).len() ==> (#[trigger] records_from(
                text,
                from,
            )[i]).end < (#[trigger] records_from(text, from)[j]).start,
    decreases text.len() - from,
{
    if from < text.len() {
        let end = line_end(text, from);
        let stop = content_end(text, from, end);
        lemma_line_end(text, from);
        if end < text.len() {
            lemma_records_shape(text, end + 1);
        }
        let rest = if end < text.len() {
            records_from(text, end + 1)
        } else {
            Seq::empty()
        };
        let all = records_from(text, from);
        let skipped: int = if is_blank(text, from, stop) {
            0
        } else {
            1
        };
        assert(all.len() == rest.len() + skipped);
        assert forall|i: int| skipped <= i < all.len() implies #[trigger] all[i] == rest[i
            - skipped] by {}
        assert forall|i: int| 0 <= i < all.len() implies {
            let span = #[trigger] all[i];
            &&& from <= span.start <= span.end <= text.len()
            &&& !is_blank(text, span.start as int, span.end as int)
            &&& forall|k: int| span.start <= k < span.end ==> text[k] != LF
        } by {
            if i >= skipped {
                assert(all[i] == rest[i - skipped]);
            }
        }
        assert forall|i: int, j: int| 0 <= i < j < all.len() implies (#[trigger] all[i]).end < (
        #[trigger] all[j]).start by {
            assert(all[j] == rest[j - skipped]);
            if i >= skipped {
                assert(all[i] == rest[i - skipped]);
            }
        }
    }
}

/// The length of the white-space character at `at` that ends no later than
/// `to`, or zero.
fn space_at(text: &[u8], at: usize, to: usize) -> (r: usize)
    requires
        at <= to <= text.len(),
    ensures
        r == space_len(text@, at as int, to as int),
        at + r <= to,
{
    if at >= to {
        return 0;
    }
    let b0: u8 = text[at];
    if (0x09 <= b0 && b0 <= 0x0d) || b0 == 0x20 {
        return 1;
    }
    if to - at < 2 {
        return 0;
    }
    let b1: u8 = text[at + 1];
    if b0 == 0xc2 && (b1 == 0x85 || b1 == 0xa0) {
        return 2;
    }
    if to - at < 3 {
        return 0;
    }
    let b2: u8 = text[at + 2];
    if b0 == 0xe1 && b1 == 0x9a && b2 == 0x80 {
        3
    } else if b0 == 0xe2 && b1 == 0x80 && ((0x80 <= b2 && b2 <= 0x8a) || b2 == 0xa8 || b2 == 0xa9
        || b2 == 0xaf) {
        3
    } else if b0 == 0xe2 && b1 == 0x81 && b2 == 0x9f {
        3
    } else if b0 == 0xe3 && b1 == 0x80 && b2 == 0x80 {
        3
    } else {
        0
    }
}

/// Whether the stretch of the text from `from` up to `to` is blank.
pub fn blank(text: &[u8], from: usize, to: usize) -> (r: bool)
    requires
        from <= to <= text.len(),
    ensures
        r == is_blank(text@, from as int, to as int),
{
    let mut at: usize = from;
    while at < to
        invariant
            from <= at <= to <= text.len(),
            is_blank(text@, from as int, to as int) == is_blank(text@, at as int, to as int),
        decreases to - at,
    {
        let width = space_at(text, at, to);
        if width == 0 {
            return false;
        }
        at = at + width;
    }
    true
}

/// The spans of the records of a text, in the order of the text: the content
/// of every line that is not blank, without what ends the line.
pub fn record_spans(text: &[u8]) -> (spans: Vec<Span>)
    ensures
        spans@ == records(text@),
        forall|i: int|
            0 <= i < spans.len() ==> (#[trigger] spans[i]).start <= spans[i].end <= text.len(),
{
    let len: usize = text.len();
    proof {
        lemma_records_shape(text@, 0);
    }
    let mut spans: Vec<Span> = Vec::new();
    let mut from: usize = 0;
    while from < len
        invariant
            len == text.len(),
            from <= len,
            spans@ + records_from(text@, from as int) == records(text@),
        decreases len - from,
    {
        let mut end: usize = from;
        while end < len && text[end] != LF
            invariant
                len == text.len(),
                from <= end <= len,
                line_end(text@, from as int) == line_end(text@, end as int),
            decreases len - end,
        {
            end = end + 1;
        }
        let stop: usize = if from < end && end < len && text[end - 1] == CR {
            end - 1
        } else {
            end
        };
        let ghost before = spans@;
        let ghost rest = if end < len {
            records_from(text@, end + 1)
        } else {
            Seq::empty()
        };
        if !blank(text, from, stop) {
            spans.push(Span { start: from, end: stop });
            assert(spans@ + rest == before + (seq![Span { start: from, end: stop }] + rest));
        }
        if end < len {
            from = end + 1;
        } else {
            from = end;
        }
    }
    assert(spans@ + Seq::<Span>::empty() == spans@);
    spans
}

} // verus!

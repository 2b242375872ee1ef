//! Lines wrapped into rows that fit into the window.

use crate::document::{
    boundary_error, content_end, is_visible_line, lemma_line_span, visible_end, visible_start,
    Document, DocumentModel, VisibleLine,
};
use crate::line_index::{lemma_line_at, line_at};
use crate::ruler::{
    law_fitting_is_longest, lemma_segment_end, saturated, segment_end, string_of, text_advance,
    Ruler, RulerModel, TextRole, PIXEL,
};
use crate::scroll::{greater, less, rest, smaller_of};
use crate::text::shown_text;
use crate::text_units::{bytes_before, characters, lemma_bytes_before, unit_end};
use std::ops::Range;
use vstd::prelude::*;
use vstd::utf8::*;

verus! {

// ---------------------------------------------------------------------------
// Model: rows
// ---------------------------------------------------------------------------

/// A visible line or row as a mathematical value.
pub struct RowLine {
    pub number: int,
    pub start: int,
    pub end: int,
    pub text: Seq<char>,
}

pub open spec fn row_line(line: VisibleLine) -> RowLine {
    RowLine {
        number: line.number as int,
        start: line.byte_range.start as int,
        end: line.byte_range.end as int,
        text: line.text@,
    }
}

pub open spec fn row_lines(lines: Seq<VisibleLine>) -> Seq<RowLine> {
    Seq::new(lines.len(), |i: int| row_line(lines[i]))
}

/// The content of a line, without its ending. There is none where a line begins
/// within a character.
pub open spec fn line_content(m: DocumentModel, line: int) -> Option<(int, int)> {
    if 0 <= line < m.index.starts.len() && boundary_error(m.bytes, m.index.starts[line]) is None {
        Some((m.index.starts[line], content_end(m, line)))
    } else {
        None
    }
}

/// The parts of a line that are looked at one after the other, from `local`
/// bytes into the line on.
pub open spec fn line_chunks(m: DocumentModel, line: int, local: int) -> Seq<(int, int)>
    decreases rest(content_end(m, line) - m.index.starts[line], local),
{
    let start = m.index.starts[line];
    let chunk = (visible_start(m, line, local), visible_end(m, line, local));
    let next = rest(chunk.1, start);
    if start + local >= content_end(m, line) || chunk.0 >= chunk.1 {
        Seq::empty()
    } else if next <= local {
        seq![chunk]
    } else {
        seq![chunk] + line_chunks(m, line, next)
    }
}

/// The ends of the rows of a text, in characters, from `start` on.
pub open spec fn segment_ends(ruler: RulerModel, text: Seq<char>, start: int, width: int) -> Seq<int>
    decreases text.len() - start,
    via segment_ends_decreases
{
    if 0 <= start < text.len() {
        let end = segment_end(ruler, text, start, width);
        seq![end] + segment_ends(ruler, text, end, width)
    } else {
        Seq::empty()
    }
}

#[via_fn]
proof fn segment_ends_decreases(ruler: RulerModel, text: Seq<char>, start: int, width: int) {
    if 0 <= start < text.len() {
        lemma_segment_end(ruler, text, start, width);
    }
}

/// A row of a text that stands at byte `base`: its characters from `a` to `b`.
pub open spec fn text_row(number: int, base: int, text: Seq<char>, a: int, b: int) -> RowLine {
    RowLine {
        number,
        start: saturated(base + bytes_before(text, a)),
        end: saturated(base + bytes_before(text, b)),
        text: text.subrange(a, b),
    }
}

/// The rows of a text that stands at byte `base`, from character `start` on.
pub open spec fn text_rows(
    ruler: RulerModel,
    number: int,
    base: int,
    text: Seq<char>,
    start: int,
    width: int,
) -> Seq<RowLine>
    decreases text.len() - start,
    via text_rows_decreases
{
    if 0 <= start < text.len() {
        let end = segment_end(ruler, text, start, width);
        seq![text_row(number, base, text, start, end)] + text_rows(
            ruler,
            number,
            base,
            text,
            end,
            width,
        )
    } else {
        Seq::empty()
    }
}

#[via_fn]
proof fn text_rows_decreases(
    ruler: RulerModel,
    number: int,
    base: int,
    text: Seq<char>,
    start: int,
    width: int,
) {
    if 0 <= start < text.len() {
        lemma_segment_end(ruler, text, start, width);
    }
}

/// The rows of a part of a line.
pub open spec fn chunk_rows(
    ruler: RulerModel,
    m: DocumentModel,
    line: int,
    chunk: (int, int),
    width: int,
) -> Seq<RowLine> {
    let text = shown_text(m.bytes.subrange(chunk.0, chunk.1));
    if text.len() == 0 {
        seq![RowLine { number: line + 1, start: chunk.0, end: chunk.1, text }]
    } else {
        text_rows(ruler, line + 1, chunk.0, text, 0, width)
    }
}

/// The rows of the first `n` parts of a line.
pub open spec fn chunks_rows(
    ruler: RulerModel,
    m: DocumentModel,
    line: int,
    chunks: Seq<(int, int)>,
    width: int,
) -> Seq<RowLine>
    decreases chunks.len(),
{
    if chunks.len() == 0 {
        Seq::empty()
    } else {
        chunks_rows(ruler, m, line, chunks.drop_last(), width) + chunk_rows(
            ruler,
            m,
            line,
            chunks.last(),
            width,
        )
    }
}

/// The rows of a line.
pub open spec fn line_rows(ruler: RulerModel, m: DocumentModel, line: int, width: int) -> Seq<
    RowLine,
> {
    match line_content(m, line) {
        None => Seq::empty(),
        Some(content) => if content.0 >= content.1 {
            seq![
                RowLine {
                    number: line + 1,
                    start: content.0,
                    end: content.1,
                    text: Seq::empty(),
                },
            ]
        } else {
            chunks_rows(ruler, m, line, line_chunks(m, line, 0), width)
        },
    }
}

/// The rows of the lines from `line` to `end`.
pub open spec fn lines_rows(ruler: RulerModel, m: DocumentModel, line: int, end: int, width: int) -> Seq<
    RowLine,
>
    decreases end - line,
{
    if line >= end {
        Seq::empty()
    } else {
        lines_rows(ruler, m, line, end - 1, width) + line_rows(ruler, m, end - 1, width)
    }
}

/// At most `max` rows after the first `skip`.
pub open spec fn window(rows: Seq<RowLine>, skip: int, max: int) -> Seq<RowLine> {
    rows.subrange(less(skip, rows.len() as int), less(skip + max, rows.len() as int))
}

// ---------------------------------------------------------------------------
// Rows
// ---------------------------------------------------------------------------

/// The content of a line, without its ending.
pub fn document_line_content_range(document: &Document, line: usize) -> (range: Option<
    Range<usize>,
>)
    requires
        document.wf(),
    ensures
        crate::app::range_model(range) == line_content(document@, line as int),
        range matches Some(range) ==> range.start <= range.end <= document@.bytes.len(),
{
    match document.line_start(line) {
        Some(start) => {
            proof {
                document.lemma_valid();
                let starts = document@.index.starts;
                lemma_line_at(starts, start as int);
                lemma_line_span(document@, line as int);
                let found = line_at(starts, start as int);
                if found < line {
                    assert(starts[found + 1] <= starts[line as int]);
                } else if line < found {
                    assert(starts[line as int] < starts[found]);
                }
            }
            match document.line_content_range_for_offset(start) {
                Ok(range) => Some(range),
                Err(_) => None,
            }
        },
        None => None,
    }
}

/// What has been kept of the rows seen so far.
spec fn keeps(
    rows: Seq<VisibleLine>,
    to_skip: int,
    seen: Seq<RowLine>,
    skip: int,
    max: int,
) -> bool {
    row_lines(rows) == window(seen, skip, max) && to_skip == rest(skip, seen.len() as int)
}

proof fn lemma_window_push(seen: Seq<RowLine>, row: RowLine, skip: int, max: int)
    requires
        skip >= 0,
        max > 0,
    ensures
        window(seen.push(row), skip, max) == (if seen.len() < skip || window(
            seen,
            skip,
            max,
        ).len() == max {
            window(seen, skip, max)
        } else {
            window(seen, skip, max).push(row)
        }),
{
    let before = window(seen, skip, max);
    let after = window(seen.push(row), skip, max);
    if seen.len() < skip || before.len() == max {
        assert(after =~= before);
    } else {
        assert(after =~= before.push(row));
    }
}

proof fn lemma_window_full(seen: Seq<RowLine>, more: Seq<RowLine>, skip: int, max: int)
    requires
        skip >= 0,
        max > 0,
        window(seen, skip, max).len() == max,
    ensures
        window(seen + more, skip, max) == window(seen, skip, max),
        rest(skip, (seen + more).len() as int) == 0,
        rest(skip, seen.len() as int) == 0,
{
    assert(window(seen + more, skip, max) =~= window(seen, skip, max));
}

/// Keeps a row, unless it is to be skipped or there are enough.
fn append_wrapped_segment(
    rows_to_skip: &mut usize,
    rows: &mut Vec<VisibleLine>,
    max_rows: usize,
    segment: VisibleLine,
    Ghost(seen): Ghost<Seq<RowLine>>,
    Ghost(skip): Ghost<int>,
)
    requires
        max_rows > 0,
        skip >= 0,
        keeps(old(rows)@, *old(rows_to_skip) as int, seen, skip, max_rows as int),
    ensures
        keeps(
            final(rows)@,
            *final(rows_to_skip) as int,
            seen.push(row_line(segment)),
            skip,
            max_rows as int,
        ),
{
    proof {
        lemma_window_push(seen, row_line(segment), skip, max_rows as int);
        assert(row_lines(rows@).len() == rows@.len());
    }
    if *rows_to_skip > 0 {
        *rows_to_skip = *rows_to_skip - 1;
    } else if rows.len() < max_rows {
        let ghost before = rows@;
        rows.push(segment);
        assert(row_lines(rows@) =~= row_lines(before).push(row_line(segment)));
    }
}

/// Keeps the rows of a part of a line.
fn append_wrapped_line_segments(
    rows_to_skip: &mut usize,
    rows: &mut Vec<VisibleLine>,
    line: VisibleLine,
    max_rows: usize,
    ruler: &Ruler,
    max_width: usize,
    Ghost(seen): Ghost<Seq<RowLine>>,
    Ghost(skip): Ghost<int>,
    Ghost(m): Ghost<DocumentModel>,
    Ghost(local): Ghost<int>,
)
    requires
        max_rows > 0,
        skip >= 0,
        line.number > 0,
        is_visible_line(line, m, line.number - 1, local),
        keeps(old(rows)@, *old(rows_to_skip) as int, seen, skip, max_rows as int),
    ensures
        keeps(
            final(rows)@,
            *final(rows_to_skip) as int,
            seen + chunk_rows(
                ruler@,
                m,
                line.number - 1,
                (line.byte_range.start as int, line.byte_range.end as int),
                max_width as int,
            ),
            skip,
            max_rows as int,
        ),
{
    let ghost text = line.text@;
    let ghost base = line.byte_range.start as int;
    if line.text.as_str().is_empty() {
        proof {
            assert(seen.push(row_line(line)) =~= seen + seq![row_line(line)]);
        }
        append_wrapped_segment(rows_to_skip, rows, max_rows, line, Ghost(seen), Ghost(skip));
        return;
    }
    let chars = characters(line.text.as_str());
    let byte_count: usize = line.text.as_str().as_bytes().len();
    let number: usize = line.number;
    let start_byte: usize = line.byte_range.start;
    let ghost all = text_rows(ruler@, number as int, base, text, 0, max_width as int);
    let ghost mut done: Seq<RowLine> = Seq::empty();
    let mut segment_start: usize = 0;
    let mut local_start: usize = 0;
    proof {
        lemma_bytes_before(text, 0, 0);
        assert(seen + done =~= seen);
        assert(done + all =~= all);
    }
    while segment_start < chars.len() && rows.len() < max_rows
        invariant
            max_rows > 0,
            skip >= 0,
            chars@ == text,
            encode_utf8(text).len() == byte_count,
            start_byte == base,
            segment_start <= chars@.len(),
            local_start == bytes_before(text, segment_start as int),
            keeps(rows@, *rows_to_skip as int, seen + done, skip, max_rows as int),
            all == text_rows(ruler@, number as int, base, text, 0, max_width as int),
            all == done + text_rows(
                ruler@,
                number as int,
                base,
                text,
                segment_start as int,
                max_width as int,
            ),
        decreases chars@.len() - segment_start,
    {
        let segment_end: usize = ruler.wrapped_segment_end(&chars, segment_start, max_width);
        let local_end: usize = advance_bytes(&chars, segment_start, segment_end, local_start);
        let segment = VisibleLine {
            number,
            byte_range: start_byte.saturating_add(local_start)..start_byte.saturating_add(
                local_end,
            ),
            text: string_of(&chars, segment_start, segment_end),
        };
        let ghost row = text_row(
            number as int,
            base,
            text,
            segment_start as int,
            segment_end as int,
        );
        assert(row_line(segment) == row);
        append_wrapped_segment(
            rows_to_skip,
            rows,
            max_rows,
            segment,
            Ghost(seen + done),
            Ghost(skip),
        );
        proof {
            let tail = text_rows(
                ruler@,
                number as int,
                base,
                text,
                segment_end as int,
                max_width as int,
            );
            assert((seen + done).push(row) =~= seen + done.push(row));
            assert(done + (seq![row] + tail) =~= done.push(row) + tail);
            done = done.push(row);
        }
        segment_start = segment_end;
        local_start = local_end;
    }
    proof {
        let tail = text_rows(
            ruler@,
            number as int,
            base,
            text,
            segment_start as int,
            max_width as int,
        );
        if segment_start < chars@.len() {
            assert(row_lines(rows@).len() == rows@.len());
            lemma_window_full(seen + done, tail, skip, max_rows as int);
            assert(seen + done + tail =~= seen + all);
        } else {
            assert(done + tail =~= done);
        }
    }
}

/// The byte at which a character stands, from that of an earlier one.
fn advance_bytes(text: &Vec<char>, from: usize, to: usize, at: usize) -> (offset: usize)
    requires
        from <= to <= text@.len(),
        at == bytes_before(text@, from as int),
        encode_utf8(text@).len() <= usize::MAX,
    ensures
        offset == bytes_before(text@, to as int),
{
    let mut offset: usize = at;
    let mut i: usize = from;
    while i < to
        invariant
            from <= i <= to <= text@.len(),
            offset == bytes_before(text@, i as int),
            encode_utf8(text@).len() <= usize::MAX,
        decreases to - i,
    {
        proof {
            lemma_bytes_before(text@, i as int, i + 1);
        }
        offset += crate::text::char_width(text[i]);
        i += 1;
    }
    offset
}

/// The part of a line that is shown from `local` bytes on.
fn chunk_at(document: &Document, line: usize, local: usize) -> (chunk: Option<VisibleLine>)
    requires
        document.wf(),
    ensures
        chunk is Some <==> line < document@.index.starts.len(),
        chunk matches Some(chunk) ==> is_visible_line(
            chunk,
            document@,
            line as int,
            local as int,
        ),
{
    let mut lines = document.visible_lines_at(line, 1, local);
    if lines.len() == 0 {
        return None;
    }
    let chunk = lines.remove(0);
    assert(is_visible_line(chunk, document@, line as int, local as int));
    Some(chunk)
}

/// Keeps the rows of a line.
fn append_wrapped_document_line_segments(
    document: &Document,
    document_line: usize,
    rows_to_skip: &mut usize,
    rows: &mut Vec<VisibleLine>,
    max_rows: usize,
    ruler: &Ruler,
    max_width: usize,
    Ghost(seen): Ghost<Seq<RowLine>>,
    Ghost(skip): Ghost<int>,
)
    requires
        document.wf(),
        document_line < document@.index.starts.len(),
        max_rows > 0,
        skip >= 0,
        keeps(old(rows)@, *old(rows_to_skip) as int, seen, skip, max_rows as int),
    ensures
        keeps(
            final(rows)@,
            *final(rows_to_skip) as int,
            seen + line_rows(ruler@, document@, document_line as int, max_width as int),
            skip,
            max_rows as int,
        ),
{
    let ghost m = document@;
    let ghost width = max_width as int;
    let count: usize = document.line_count();
    let content = match document_line_content_range(document, document_line) {
        Some(content) => content,
        None => {
            assert(seen + line_rows(ruler@, m, document_line as int, width) =~= seen);
            return;
        },
    };
    if content.start >= content.end {
        let empty = VisibleLine {
            number: document_line + 1,
            byte_range: content.start..content.end,
            text: String::new(),
        };
        proof {
            assert(empty.text@ =~= Seq::empty());
            assert(seen.push(row_line(empty)) =~= seen + line_rows(
                ruler@,
                m,
                document_line as int,
                width,
            ));
        }
        append_wrapped_segment(rows_to_skip, rows, max_rows, empty, Ghost(seen), Ghost(skip));
        return;
    }
    let ghost all = line_chunks(m, document_line as int, 0);
    let ghost mut done: Seq<(int, int)> = Seq::empty();
    let mut local: usize = 0;
    let mut go_on = true;
    proof {
        assert(seen + chunks_rows(ruler@, m, document_line as int, done, width) =~= seen);
        assert(done + all =~= all);
    }
    while go_on && local < content.end - content.start && rows.len() < max_rows
        invariant
            document.wf(),
            m == document@,
            width == max_width,
            document_line < document@.index.starts.len(),
            max_rows > 0,
            skip >= 0,
            content.start == m.index.starts[document_line as int],
            content.end == content_end(m, document_line as int),
            content.start < content.end,
            all == line_chunks(m, document_line as int, 0),
            go_on ==> all == done + line_chunks(m, document_line as int, local as int),
            !go_on ==> all == done,
            keeps(
                rows@,
                *rows_to_skip as int,
                seen + chunks_rows(ruler@, m, document_line as int, done, width),
                skip,
                max_rows as int,
            ),
        decreases
            rest(content.end - content.start, local as int),
            if go_on {
                1int
            } else {
                0int
            },
    {
        match chunk_at(document, document_line, local) {
            Some(chunk) => {
                let start: usize = chunk.byte_range.start;
                let end: usize = chunk.byte_range.end;
                if start >= end {
                    go_on = false;
                    assert(all =~= done);
                } else {
                    let next: usize = end.saturating_sub(content.start);
                    let ghost before = seen + chunks_rows(
                        ruler@,
                        m,
                        document_line as int,
                        done,
                        width,
                    );
                    append_wrapped_line_segments(
                        rows_to_skip,
                        rows,
                        chunk,
                        max_rows,
                        ruler,
                        max_width,
                        Ghost(before),
                        Ghost(skip),
                        Ghost(m),
                        Ghost(local as int),
                    );
                    proof {
                        let piece = (start as int, end as int);
                        let pushed = done.push(piece);
                        assert(pushed.drop_last() =~= done);
                        assert(before + chunk_rows(ruler@, m, document_line as int, piece, width)
                            =~= seen + chunks_rows(
                            ruler@,
                            m,
                            document_line as int,
                            pushed,
                            width,
                        ));
                        if next <= local {
                            assert(done + seq![piece] =~= pushed);
                        } else {
                            let tail = line_chunks(m, document_line as int, next as int);
                            assert(done + (seq![piece] + tail) =~= pushed + tail);
                        }
                        done = pushed;
                    }
                    if next <= local {
                        go_on = false;
                    } else {
                        local = next;
                    }
                }
            },
            None => {
                go_on = false;
            },
        }
    }
    proof {
        let shown = seen + chunks_rows(ruler@, m, document_line as int, done, width);
        if go_on && local < content.end - content.start {
            let tail = line_chunks(m, document_line as int, local as int);
            assert(row_lines(rows@).len() == rows@.len());
            lemma_chunks_rows(ruler@, m, document_line as int, done, tail, width);
            let more = chunks_rows(ruler@, m, document_line as int, tail, width);
            lemma_window_full(shown, more, skip, max_rows as int);
            assert(shown + more =~= seen + chunks_rows(
                ruler@,
                m,
                document_line as int,
                all,
                width,
            ));
        } else {
            assert(all =~= done);
        }
    }
}

/// The rows of parts, one after the other.
proof fn lemma_chunks_rows(
    ruler: RulerModel,
    m: DocumentModel,
    line: int,
    a: Seq<(int, int)>,
    b: Seq<(int, int)>,
    width: int,
)
    ensures
        chunks_rows(ruler, m, line, a + b, width) == chunks_rows(ruler, m, line, a, width)
            + chunks_rows(ruler, m, line, b, width),
    decreases b.len(),
{
    if b.len() == 0 {
        assert(a + b =~= a);
        assert(chunks_rows(ruler, m, line, a, width) =~= chunks_rows(ruler, m, line, a, width)
            + chunks_rows(ruler, m, line, b, width));
    } else {
        lemma_chunks_rows(ruler, m, line, a, b.drop_last(), width);
        assert((a + b).drop_last() =~= a + b.drop_last());
        assert((a + b).last() == b.last());
        assert(chunks_rows(ruler, m, line, a + b, width) =~= chunks_rows(ruler, m, line, a, width)
            + chunks_rows(ruler, m, line, b, width));
    }
}

proof fn lemma_lines_rows(
    ruler: RulerModel,
    m: DocumentModel,
    line: int,
    middle: int,
    end: int,
    width: int,
)
    requires
        line <= middle <= end,
    ensures
        lines_rows(ruler, m, line, end, width) == lines_rows(ruler, m, line, middle, width)
            + lines_rows(ruler, m, middle, end, width),
    decreases end - middle,
{
    if middle < end {
        lemma_lines_rows(ruler, m, line, middle, end - 1, width);
    }
    assert(lines_rows(ruler, m, line, end, width) =~= lines_rows(ruler, m, line, middle, width)
        + lines_rows(ruler, m, middle, end, width));
}

/// At most `max_rows` rows of the lines from `first_line` on, without the first
/// `rows_to_skip`.
pub fn wrapped_rows_from(
    document: &Document,
    ruler: &Ruler,
    first_line: usize,
    rows_to_skip: usize,
    max_rows: usize,
    max_width: usize,
) -> (rows: Vec<VisibleLine>)
    requires
        document.wf(),
    ensures
        row_lines(rows@) == window(
            lines_rows(
                ruler@,
                document@,
                first_line as int,
                document@.index.starts.len() as int,
                max_width as int,
            ),
            rows_to_skip as int,
            max_rows as int,
        ),
{
    let ghost m = document@;
    let ghost width = max_width as int;
    let ghost skip = rows_to_skip as int;
    let mut rows: Vec<VisibleLine> = Vec::new();
    let line_count: usize = document.line_count();
    let ghost all = lines_rows(ruler@, m, first_line as int, line_count as int, width);
    if max_rows == 0 {
        assert(row_lines(rows@) =~= window(all, skip, 0));
        return rows;
    }
    let mut to_skip: usize = rows_to_skip;
    let mut line: usize = first_line;
    assert(row_lines(rows@) =~= window(Seq::<RowLine>::empty(), skip, max_rows as int));
    while line < line_count && rows.len() < max_rows
        invariant
            document.wf(),
            m == document@,
            width == max_width,
            line_count == m.index.starts.len(),
            max_rows > 0,
            skip == rows_to_skip,
            first_line <= line,
            line <= line_count || line == first_line,
            keeps(
                rows@,
                to_skip as int,
                lines_rows(ruler@, m, first_line as int, line as int, width),
                skip,
                max_rows as int,
            ),
        decreases line_count - line,
    {
        append_wrapped_document_line_segments(
            document,
            line,
            &mut to_skip,
            &mut rows,
            max_rows,
            ruler,
            max_width,
            Ghost(lines_rows(ruler@, m, first_line as int, line as int, width)),
            Ghost(skip),
        );
        line += 1;
    }
    proof {
        if line < line_count {
            let seen = lines_rows(ruler@, m, first_line as int, line as int, width);
            let more = lines_rows(ruler@, m, line as int, line_count as int, width);
            assert(row_lines(rows@).len() == rows@.len());
            lemma_lines_rows(
                ruler@,
                m,
                first_line as int,
                line as int,
                line_count as int,
                width,
            );
            lemma_window_full(seen, more, skip, max_rows as int);
        }
    }
    rows
}

// ---------------------------------------------------------------------------
// How many rows there are
// ---------------------------------------------------------------------------

/// How many rows a text takes: one at least.
pub open spec fn text_row_count(ruler: RulerModel, text: Seq<char>, width: int) -> int {
    greater(segment_ends(ruler, text, 0, width).len() as int, 1)
}

pub open spec fn chunks_row_count(
    ruler: RulerModel,
    m: DocumentModel,
    chunks: Seq<(int, int)>,
    width: int,
) -> int
    decreases chunks.len(),
{
    if chunks.len() == 0 {
        0
    } else {
        chunks_row_count(ruler, m, chunks.drop_last(), width) + text_row_count(
            ruler,
            shown_text(m.bytes.subrange(chunks.last().0, chunks.last().1)),
            width,
        )
    }
}

/// How many rows a line is counted with.
pub open spec fn line_row_count(ruler: RulerModel, m: DocumentModel, line: int, width: int) -> int {
    match line_content(m, line) {
        None => 0,
        Some(content) => if content.0 >= content.1 {
            1
        } else {
            greater(saturated(chunks_row_count(ruler, m, line_chunks(m, line, 0), width)), 1)
        },
    }
}

/// How many rows the lines before `line` are counted with.
pub open spec fn rows_before(ruler: RulerModel, m: DocumentModel, line: int, width: int) -> int
    decreases line,
{
    if line <= 0 {
        0
    } else {
        saturated(
            rows_before(ruler, m, line - 1, width) + line_row_count(ruler, m, line - 1, width),
        )
    }
}

proof fn lemma_chunks_row_count(
    ruler: RulerModel,
    m: DocumentModel,
    a: Seq<(int, int)>,
    b: Seq<(int, int)>,
    width: int,
)
    ensures
        chunks_row_count(ruler, m, a + b, width) == chunks_row_count(ruler, m, a, width)
            + chunks_row_count(ruler, m, b, width),
        chunks_row_count(ruler, m, b, width) >= 0,
    decreases b.len(),
{
    if b.len() == 0 {
        assert(a + b =~= a);
    } else {
        lemma_chunks_row_count(ruler, m, a, b.drop_last(), width);
        assert((a + b).drop_last() =~= a + b.drop_last());
        assert((a + b).last() == b.last());
    }
}

pub fn wrapped_text_row_count(ruler: &Ruler, text: &str, max_width: usize) -> (count: usize)
    ensures
        count == text_row_count(ruler@, text@, max_width as int),
{
    let chars = characters(text);
    let mut rows: usize = 0;
    let mut segment_start: usize = 0;
    while segment_start < chars.len()
        invariant
            chars@ == text@,
            rows <= segment_start <= chars@.len(),
            rows + segment_ends(ruler@, text@, segment_start as int, max_width as int).len()
                == segment_ends(ruler@, text@, 0, max_width as int).len(),
        decreases chars@.len() - segment_start,
    {
        segment_start = ruler.wrapped_segment_end(&chars, segment_start, max_width);
        rows += 1;
    }
    if rows < 1 {
        1
    } else {
        rows
    }
}

/// How many rows a line is counted with.
pub fn wrapped_line_row_count(
    document: &Document,
    document_line: usize,
    ruler: &Ruler,
    max_width: usize,
) -> (count: usize)
    requires
        document.wf(),
    ensures
        count == line_row_count(ruler@, document@, document_line as int, max_width as int),
{
    let ghost m = document@;
    let ghost width = max_width as int;
    let content = match document_line_content_range(document, document_line) {
        Some(content) => content,
        None => {
            return 0;
        },
    };
    if content.start >= content.end {
        return 1;
    }
    let ghost all = line_chunks(m, document_line as int, 0);
    let ghost mut done: Seq<(int, int)> = Seq::empty();
    let mut rows: usize = 0;
    let mut local: usize = 0;
    let mut go_on = true;
    assert(done + all =~= all);
    while go_on && local < content.end - content.start
        invariant
            document.wf(),
            m == document@,
            width == max_width,
            document_line < document@.index.starts.len(),
            content.start == m.index.starts[document_line as int],
            content.end == content_end(m, document_line as int),
            content.start < content.end,
            all == line_chunks(m, document_line as int, 0),
            go_on ==> all == done + line_chunks(m, document_line as int, local as int),
            !go_on ==> all == done,
            rows == saturated(chunks_row_count(ruler@, m, done, width)),
        decreases
            rest(content.end - content.start, local as int),
            if go_on {
                1int
            } else {
                0int
            },
    {
        match chunk_at(document, document_line, local) {
            Some(chunk) => {
                let start: usize = chunk.byte_range.start;
                let end: usize = chunk.byte_range.end;
                if start >= end {
                    go_on = false;
                    assert(all =~= done);
                } else {
                    let next: usize = end.saturating_sub(content.start);
                    rows = rows.saturating_add(
                        wrapped_text_row_count(ruler, chunk.text.as_str(), max_width),
                    );
                    proof {
                        let piece = (start as int, end as int);
                        let pushed = done.push(piece);
                        assert(pushed.drop_last() =~= done);
                        lemma_chunks_row_count(ruler@, m, Seq::empty(), done, width);
                        if next <= local {
                            assert(done + seq![piece] =~= pushed);
                        } else {
                            let tail = line_chunks(m, document_line as int, next as int);
                            assert(done + (seq![piece] + tail) =~= pushed + tail);
                        }
                        done = pushed;
                    }
                    if next <= local {
                        go_on = false;
                    } else {
                        local = next;
                    }
                }
            },
            None => {
                go_on = false;
            },
        }
    }
    assert(all =~= done);
    if rows < 1 {
        1
    } else {
        rows
    }
}

// ---------------------------------------------------------------------------
// The index of rows
// ---------------------------------------------------------------------------

/// At which row each line begins, for one state of the text and one width.
#[derive(Debug)]
pub struct WrappedRowIndex {
    generation: u64,
    line_count: usize,
    editor_text_width: usize,
    row_starts: Vec<usize>,
    total_rows: usize,
}

/// An index of rows as a mathematical value.
pub struct RowIndexModel {
    pub generation: u64,
    pub line_count: int,
    pub width: int,
    pub starts: Seq<int>,
    pub total: int,
}

impl View for WrappedRowIndex {
    type V = RowIndexModel;

    closed spec fn view(&self) -> RowIndexModel {
        RowIndexModel {
            generation: self.generation,
            line_count: self.line_count as int,
            width: self.editor_text_width as int,
            starts: Seq::new(self.row_starts@.len(), |i: int| self.row_starts@[i] as int),
            total: self.total_rows as int,
        }
    }
}

pub open spec fn row_index_model(index: Option<WrappedRowIndex>) -> Option<RowIndexModel> {
    match index {
        Some(index) => Some(index@),
        None => None,
    }
}

/// The index of rows of a document.
pub open spec fn built_index(ruler: RulerModel, m: DocumentModel, width: int) -> RowIndexModel {
    let count = m.index.starts.len();
    RowIndexModel {
        generation: m.generation,
        line_count: count as int,
        width,
        starts: Seq::new(count, |i: int| rows_before(ruler, m, i, width)),
        total: greater(rows_before(ruler, m, count as int, width), 1),
    }
}

/// An index is taken to be up to date as long as the generation, the number of
/// lines and the width are the same.
pub open spec fn is_current(index: RowIndexModel, m: DocumentModel, width: int) -> bool {
    &&& index.generation == m.generation
    &&& index.line_count == m.index.starts.len()
    &&& index.width == width
}

/// The index that is used: the one at hand while it is current, else a new one.
#[verifier::opaque]
pub open spec fn index_in_use(
    held: Option<RowIndexModel>,
    ruler: RulerModel,
    m: DocumentModel,
    width: int,
) -> RowIndexModel {
    match held {
        Some(index) => if is_current(index, m, width) {
            index
        } else {
            built_index(ruler, m, width)
        },
        None => built_index(ruler, m, width),
    }
}

/// The last line that begins at or before `row`, among the first `n`.
pub open spec fn line_of_row(starts: Seq<int>, row: int, n: int) -> int
    decreases n,
{
    if n <= 1 {
        0
    } else if starts[n - 1] <= row {
        n - 1
    } else {
        line_of_row(starts, row, n - 1)
    }
}

/// The line that holds a row, and the row within the line.
pub open spec fn row_position(index: RowIndexModel, visual_row: int) -> (int, int) {
    if index.starts.len() == 0 {
        (0, 0)
    } else {
        let row = less(visual_row, rest(index.total, 1));
        let line = line_of_row(index.starts, row, index.starts.len() as int);
        (line, rest(row, index.starts[line]))
    }
}

impl WrappedRowIndex {
    /// Counts the rows of a document.
    pub fn build(document: &Document, ruler: &Ruler, editor_text_width: usize) -> (index: Self)
        requires
            document.wf(),
        ensures
            index@ == built_index(ruler@, document@, editor_text_width as int),
    {
        let ghost m = document@;
        let ghost width = editor_text_width as int;
        let line_count: usize = document.line_count();
        let mut row_starts: Vec<usize> = Vec::new();
        let mut total_rows: usize = 0;
        let mut line: usize = 0;
        while line < line_count
            invariant
                document.wf(),
                m == document@,
                width == editor_text_width,
                line_count == m.index.starts.len(),
                line <= line_count,
                row_starts@.len() == line,
                forall|i: int|
                    0 <= i < line ==> #[trigger] row_starts@[i] == rows_before(ruler@, m, i, width),
                total_rows == rows_before(ruler@, m, line as int, width),
            decreases line_count - line,
        {
            row_starts.push(total_rows);
            total_rows = total_rows.saturating_add(
                wrapped_line_row_count(document, line, ruler, editor_text_width),
            );
            line += 1;
        }
        let index = WrappedRowIndex {
            generation: document.change_generation(),
            line_count,
            editor_text_width,
            row_starts,
            total_rows: if total_rows < 1 {
                1
            } else {
                total_rows
            },
        };
        assert(index@.starts =~= built_index(ruler@, m, width).starts);
        index
    }

    /// Whether the index is up to date.
    pub fn is_for(&self, document: &Document, editor_text_width: usize) -> (current: bool)
        ensures
            current == is_current(self@, document@, editor_text_width as int),
    {
        self.generation == document.change_generation() && self.line_count == document.line_count()
            && self.editor_text_width == editor_text_width
    }

    pub fn total_rows(&self) -> (total: usize)
        ensures
            total == self@.total,
    {
        self.total_rows
    }

    /// The row at which a line begins; the first where the line is unknown.
    pub fn row_start(&self, line: usize) -> (row: usize)
        ensures
            row == (if line < self@.starts.len() {
                self@.starts[line as int]
            } else {
                0
            }),
    {
        if line < self.row_starts.len() {
            self.row_starts[line]
        } else {
            0
        }
    }

    /// The line that holds a row, and the row within the line.
    pub fn line_for_visual_row(&self, visual_row: usize) -> (position: (usize, usize))
        ensures
            (position.0 as int, position.1 as int) == row_position(self@, visual_row as int),
    {
        if self.row_starts.len() == 0 {
            return (0, 0);
        }
        let row: usize = smaller_of(visual_row, self.total_rows.saturating_sub(1));
        let mut n: usize = self.row_starts.len();
        while n > 1 && self.row_starts[n - 1] > row
            invariant
                1 <= n <= self.row_starts@.len(),
                line_of_row(self@.starts, row as int, self.row_starts@.len() as int)
                    == line_of_row(self@.starts, row as int, n as int),
            decreases n,
        {
            n -= 1;
        }
        let line: usize = n - 1;
        (line, row.saturating_sub(self.row_starts[line]))
    }
}

// ---------------------------------------------------------------------------
// The row of an offset
// ---------------------------------------------------------------------------

/// Where the rows of parts of a line end.
pub open spec fn row_ends(
    ruler: RulerModel,
    m: DocumentModel,
    chunks: Seq<(int, int)>,
    width: int,
) -> Seq<int>
    decreases chunks.len(),
{
    if chunks.len() == 0 {
        Seq::empty()
    } else {
        let chunk = chunks.last();
        row_ends(ruler, m, chunks.drop_last(), width) + text_ends(
            ruler,
            shown_text(m.bytes.subrange(chunk.0, chunk.1)),
            chunk.0,
            0,
            width,
        )
    }
}

/// Where the rows of a text that stands at byte `base` end, from character
/// `start` on.
pub open spec fn text_ends(
    ruler: RulerModel,
    text: Seq<char>,
    base: int,
    start: int,
    width: int,
) -> Seq<int>
    decreases text.len() - start,
    via text_ends_decreases
{
    if 0 <= start < text.len() {
        let end = segment_end(ruler, text, start, width);
        seq![saturated(base + bytes_before(text, end))] + text_ends(ruler, text, base, end, width)
    } else {
        Seq::empty()
    }
}

#[via_fn]
proof fn text_ends_decreases(
    ruler: RulerModel,
    text: Seq<char>,
    base: int,
    start: int,
    width: int,
) {
    if 0 <= start < text.len() {
        lemma_segment_end(ruler, text, start, width);
    }
}

/// The first row that ends after `offset`.
pub open spec fn row_ending_after(ends: Seq<int>, offset: int) -> Option<int>
    decreases ends.len(),
{
    if ends.len() == 0 {
        None
    } else {
        match row_ending_after(ends.drop_last(), offset) {
            Some(row) => Some(row),
            None => if offset < ends.last() {
                Some(ends.len() - 1)
            } else {
                None
            },
        }
    }
}

/// The row of a line that an offset lies in; a row's end belongs to the next
/// row, if there is one.
pub open spec fn row_in_line(
    ruler: RulerModel,
    m: DocumentModel,
    line: int,
    width: int,
    offset: int,
) -> int {
    match line_content(m, line) {
        None => 0,
        Some(content) => if content.0 >= content.1 || offset <= content.0 {
            0
        } else {
            let ends = row_ends(ruler, m, line_chunks(m, line, 0), width);
            match row_ending_after(ends, less(offset, content.1)) {
                Some(row) => saturated(row),
                None => rest(saturated(ends.len() as int), 1),
            }
        },
    }
}

proof fn lemma_row_ending_after(a: Seq<int>, b: Seq<int>, offset: int)
    ensures
        row_ending_after(a, offset) is Some ==> row_ending_after(a + b, offset)
            == row_ending_after(a, offset),
        row_ending_after(a, offset) is None && b.len() > 0 && offset < b[0] ==> row_ending_after(
            a + b,
            offset,
        ) == Some(a.len() as int),
    decreases b.len(),
{
    if b.len() == 0 {
        assert(a + b =~= a);
    } else {
        lemma_row_ending_after(a, b.drop_last(), offset);
        assert((a + b).drop_last() =~= a + b.drop_last());
        if b.len() > 1 {
            assert(b.drop_last()[0] == b[0]);
        } else {
            assert(a + b.drop_last() =~= a);
        }
    }
}

proof fn lemma_row_ends(
    ruler: RulerModel,
    m: DocumentModel,
    a: Seq<(int, int)>,
    b: Seq<(int, int)>,
    width: int,
)
    ensures
        row_ends(ruler, m, a + b, width) == row_ends(ruler, m, a, width) + row_ends(
            ruler,
            m,
            b,
            width,
        ),
    decreases b.len(),
{
    if b.len() == 0 {
        assert(a + b =~= a);
        assert(row_ends(ruler, m, a, width) =~= row_ends(ruler, m, a, width) + row_ends(
            ruler,
            m,
            b,
            width,
        ));
    } else {
        lemma_row_ends(ruler, m, a, b.drop_last(), width);
        assert((a + b).drop_last() =~= a + b.drop_last());
        assert((a + b).last() == b.last());
        assert(row_ends(ruler, m, a + b, width) =~= row_ends(ruler, m, a, width) + row_ends(
            ruler,
            m,
            b,
            width,
        ));
    }
}

/// The row of a text in which an offset lies, or how many rows the text has.
fn row_in_text(
    ruler: &Ruler,
    text: &str,
    base: usize,
    max_width: usize,
    target: usize,
) -> (r: (bool, usize))
    ensures
        ({
            let ends = text_ends(ruler@, text@, base as int, 0, max_width as int);
            &&& r.0 ==> row_ending_after(ends, target as int) == Some(r.1 as int) && r.1
                < ends.len()
            &&& !r.0 ==> row_ending_after(ends, target as int) is None && r.1 == ends.len()
        }),
{
    let chars = characters(text);
    let byte_count: usize = text.as_bytes().len();
    let ghost ends = text_ends(ruler@, text@, base as int, 0, max_width as int);
    let ghost mut done: Seq<int> = Seq::empty();
    let mut segment_start: usize = 0;
    let mut local_start: usize = 0;
    let mut rows: usize = 0;
    proof {
        lemma_bytes_before(text@, 0, 0);
        assert(done + ends =~= ends);
    }
    while segment_start < chars.len()
        invariant
            chars@ == text@,
            encode_utf8(text@).len() == byte_count,
            segment_start <= chars@.len(),
            rows <= segment_start,
            rows == done.len(),
            local_start == bytes_before(text@, segment_start as int),
            ends == text_ends(ruler@, text@, base as int, 0, max_width as int),
            ends == done + text_ends(
                ruler@,
                text@,
                base as int,
                segment_start as int,
                max_width as int,
            ),
            row_ending_after(done, target as int) is None,
        decreases chars@.len() - segment_start,
    {
        let segment_end: usize = ruler.wrapped_segment_end(&chars, segment_start, max_width);
        let local_end: usize = advance_bytes(&chars, segment_start, segment_end, local_start);
        let absolute_end: usize = base.saturating_add(local_end);
        let ghost tail = text_ends(
            ruler@,
            text@,
            base as int,
            segment_start as int,
            max_width as int,
        );
        assert(tail[0] == absolute_end);
        if target < absolute_end {
            proof {
                lemma_row_ending_after(done, tail, target as int);
            }
            return (true, rows);
        }
        proof {
            let after = text_ends(
                ruler@,
                text@,
                base as int,
                segment_end as int,
                max_width as int,
            );
            let pushed = done.push(absolute_end as int);
            assert(pushed.drop_last() =~= done);
            assert(done + (seq![absolute_end as int] + after) =~= pushed + after);
            done = pushed;
        }
        rows += 1;
        segment_start = segment_end;
        local_start = local_end;
    }
    assert(done =~= ends);
    (false, rows)
}

/// The row of a line that an offset lies in.
pub fn wrapped_row_in_line_for_offset(
    document: &Document,
    document_line: usize,
    ruler: &Ruler,
    max_width: usize,
    byte_offset: usize,
) -> (row: usize)
    requires
        document.wf(),
    ensures
        row == row_in_line(
            ruler@,
            document@,
            document_line as int,
            max_width as int,
            byte_offset as int,
        ),
{
    let ghost m = document@;
    let ghost width = max_width as int;
    let content = match document_line_content_range(document, document_line) {
        Some(content) => content,
        None => {
            return 0;
        },
    };
    if content.start >= content.end || byte_offset <= content.start {
        return 0;
    }
    let target: usize = smaller_of(byte_offset, content.end);
    let ghost all = line_chunks(m, document_line as int, 0);
    let ghost ends = row_ends(ruler@, m, all, width);
    let ghost mut done: Seq<(int, int)> = Seq::empty();
    let mut row: usize = 0;
    let mut local: usize = 0;
    let mut go_on = true;
    assert(done + all =~= all);
    while go_on && local < content.end - content.start
        invariant
            document.wf(),
            m == document@,
            width == max_width,
            document_line < document@.index.starts.len(),
            content.start == m.index.starts[document_line as int],
            content.end == content_end(m, document_line as int),
            line_content(m, document_line as int) == Some(
                (content.start as int, content.end as int),
            ),
            content.start < content.end,
            content.start < byte_offset,
            target == less(byte_offset as int, content.end as int),
            all == line_chunks(m, document_line as int, 0),
            ends == row_ends(ruler@, m, all, width),
            go_on ==> all == done + line_chunks(m, document_line as int, local as int),
            !go_on ==> all == done,
            row == saturated(row_ends(ruler@, m, done, width).len() as int),
            row_ending_after(row_ends(ruler@, m, done, width), target as int) is None,
        decreases
            rest(content.end - content.start, local as int),
            if go_on {
                1int
            } else {
                0int
            },
    {
        match chunk_at(document, document_line, local) {
            Some(chunk) => {
                let start: usize = chunk.byte_range.start;
                let end: usize = chunk.byte_range.end;
                if start >= end {
                    go_on = false;
                    assert(all =~= done);
                } else {
                    let next: usize = end.saturating_sub(content.start);
                    let (found, count) = row_in_text(
                        ruler,
                        chunk.text.as_str(),
                        start,
                        max_width,
                        target,
                    );
                    let ghost piece = (start as int, end as int);
                    let ghost pushed = done.push(piece);
                    let ghost seen = row_ends(ruler@, m, done, width);
                    let ghost here = text_ends(ruler@, chunk.text@, start as int, 0, width);
                    proof {
                        assert(pushed.drop_last() =~= done);
                        assert(row_ends(ruler@, m, pushed, width) == seen + here);
                        lemma_row_after_concat(seen, here, target as int);
                        if next <= local {
                            assert(done + seq![piece] =~= pushed);
                        } else {
                            let tail = line_chunks(m, document_line as int, next as int);
                            assert(done + (seq![piece] + tail) =~= pushed + tail);
                            lemma_row_ends(ruler@, m, pushed, tail, width);
                            lemma_row_ending_after(
                                seen + here,
                                row_ends(ruler@, m, tail, width),
                                target as int,
                            );
                        }
                    }
                    row = row.saturating_add(count);
                    if found {
                        return row;
                    }
                    proof {
                        done = pushed;
                    }
                    if next <= local {
                        go_on = false;
                    } else {
                        local = next;
                    }
                }
            },
            None => {
                go_on = false;
            },
        }
    }
    assert(all =~= done);
    row.saturating_sub(1)
}

proof fn lemma_row_after_concat(a: Seq<int>, b: Seq<int>, offset: int)
    requires
        row_ending_after(a, offset) is None,
    ensures
        row_ending_after(a + b, offset) == (match row_ending_after(b, offset) {
            Some(row) => Some(a.len() + row),
            None => None,
        }),
    decreases b.len(),
{
    if b.len() == 0 {
        assert(a + b =~= a);
    } else {
        lemma_row_after_concat(a, b.drop_last(), offset);
        assert((a + b).drop_last() =~= a + b.drop_last());
    }
}

// ---------------------------------------------------------------------------
// Laws
// ---------------------------------------------------------------------------

/// The rows of a text follow on each other without a gap, from its start to its
/// end, and each holds the text of its range.
pub proof fn law_rows_cover_text(
    ruler: RulerModel,
    number: int,
    base: int,
    text: Seq<char>,
    start: int,
    width: int,
)
    requires
        0 <= start < text.len(),
        0 <= base,
        base + encode_utf8(text).len() <= usize::MAX,
    ensures
        ({
            let rows = text_rows(ruler, number, base, text, start, width);
            &&& rows.len() > 0
            &&& rows[0].start == base + bytes_before(text, start)
            &&& rows.last().end == base + encode_utf8(text).len()
            &&& forall|i: int|
                0 <= i < rows.len() ==> (#[trigger] rows[i]).text.len() > 0 && rows[i].end
                    == rows[i].start + encode_utf8(rows[i].text).len()
            &&& forall|i: int, j: int|
                0 <= i < rows.len() && j == i + 1 && j < rows.len() ==> (#[trigger] rows[i]).end
                    == (#[trigger] rows[j]).start
        }),
    decreases text.len() - start,
{
    let rows = text_rows(ruler, number, base, text, start, width);
    let end = segment_end(ruler, text, start, width);
    let tail = text_rows(ruler, number, base, text, end, width);
    lemma_segment_end(ruler, text, start, width);
    lemma_bytes_before(text, start, end);
    lemma_bytes_before(text, end, text.len() as int);
    crate::text::lemma_encode_concat(text.take(start), text.subrange(start, end));
    assert(text.take(start) + text.subrange(start, end) =~= text.take(end));
    assert(rows =~= seq![text_row(number, base, text, start, end)] + tail);
    if end < text.len() {
        law_rows_cover_text(ruler, number, base, text, end, width);
        assert(rows.last() == tail.last());
        assert forall|i: int| 0 <= i < rows.len() implies (#[trigger] rows[i]).text.len() > 0
            && rows[i].end == rows[i].start + encode_utf8(rows[i].text).len() by {
            if i > 0 {
                assert(rows[i] == tail[i - 1]);
            }
        }
        assert forall|i: int, j: int|
            0 <= i < rows.len() && j == i + 1 && j < rows.len() implies (#[trigger] rows[i]).end
            == (#[trigger] rows[j]).start by {
            assert(rows[j] == tail[j - 1]);
            if i > 0 {
                assert(rows[i] == tail[i - 1]);
            }
        }
    } else {
        assert(tail =~= Seq::empty());
    }
}

/// A row is no wider than the width, unless it is one unit that does not fit.
pub proof fn law_rows_fit_width(ruler: RulerModel, text: Seq<char>, start: int, width: int)
    requires
        0 <= start < text.len(),
    ensures
        ({
            let end = segment_end(ruler, text, start, width);
            let used = text_advance(ruler, TextRole::Editor, text, start) - text_advance(
                ruler,
                TextRole::Editor,
                text,
                end,
            );
            used <= greater(width, 1) * PIXEL || end == unit_end(text, start)
        }),
{
    law_fitting_is_longest(
        ruler,
        TextRole::Editor,
        text,
        start,
        0,
        greater(width, 1) * PIXEL,
    );
}

/// As many rows are counted for a text as it has.
pub proof fn law_counted_rows_are_rows(
    ruler: RulerModel,
    number: int,
    base: int,
    text: Seq<char>,
    start: int,
    width: int,
)
    requires
        0 <= start <= text.len(),
    ensures
        segment_ends(ruler, text, start, width).len() == text_rows(
            ruler,
            number,
            base,
            text,
            start,
            width,
        ).len(),
    decreases text.len() - start,
{
    if start < text.len() {
        lemma_segment_end(ruler, text, start, width);
        law_counted_rows_are_rows(
            ruler,
            number,
            base,
            text,
            segment_end(ruler, text, start, width),
            width,
        );
    }
}

} // verus!

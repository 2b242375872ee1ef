//! Columns, and how lines are broken into rows.

use crate::app::AppModel;
use crate::document::{
    caret_column, char_column, char_column_error, column_offset, column_offset_error, content_end,
    document_valid, floor_boundary, is_visible_lines, lemma_line_span, visible_end, visible_start,
    DocumentModel, VisibleLine, MAX_COLUMN_SCAN_BYTES, MAX_VISIBLE_LINE_BYTES,
};
use crate::edit_laws::{lemma_joint, lemma_line_between_characters, lemma_on_line, line_is_known};
use crate::gui::{horizontally_clamped, GuiModel};
use crate::menu_laws::law_columns_count_characters;
use crate::pointer::rows_in_view;
use crate::pointer_laws::{chunks_in_line, lemma_chunks_in_line, lemma_shown_part};
use crate::ruler::{lemma_segment_end, segment_end, RulerModel};
use crate::scroll::{line_len, longest_line, EditorMetrics};
use crate::text::{lemma_boundary, lemma_encode_concat, lemma_encode_one, on_boundary};
use crate::text_units::lemma_bytes_before;
use crate::undo_laws::lemma_subrange_is_text;
use crate::wrap::{
    chunk_rows, chunks_row_count, chunks_rows, law_counted_rows_are_rows, law_rows_cover_text,
    built_index, index_in_use, line_chunks, line_of_row, line_row_count, line_rows, lines_rows,
    row_ending_after, row_ends, row_in_line, row_position, rows_before, text_ends, text_rows,
    RowIndexModel, RowLine,
};
use vstd::prelude::*;
use vstd::utf8::*;

verus! {

// ---------------------------------------------------------------------------
// Columns
// ---------------------------------------------------------------------------

/// The column of an offset is the number of characters before it in its line,
/// and leads back to the offset; a column behind the line leads to where its text
/// ends. The line must be short enough for its columns to be counted.
pub proof fn law_columns_and_offsets_agree(
    m: DocumentModel,
    line: int,
    before: Seq<char>,
    after: Seq<char>,
    beyond: int,
)
    requires
        document_valid(m),
        valid_utf8(m.bytes),
        line_is_known(m, line),
        content_end(m, line) - m.index.starts[line] <= MAX_COLUMN_SCAN_BYTES,
        m.bytes.subrange(m.index.starts[line], content_end(m, line)) == encode_utf8(before + after),
        beyond >= before.len() + after.len(),
    ensures
        ({
            let offset = m.index.starts[line] + encode_utf8(before).len();
            &&& column_offset_error(m, line) is None
            &&& column_offset(m, line, before.len() as int) == offset
            &&& column_offset(m, line, beyond) == content_end(m, line)
            &&& line + 1 < m.index.starts.len() ==> offset < m.index.starts[line + 1]
            &&& char_column_error(m, offset) is None
            &&& char_column(m, offset) == before.len()
        }),
{
    let start = m.index.starts[line];
    let end = content_end(m, line);
    let part = m.bytes.subrange(start, end);
    let text = before + after;
    let offset = start + encode_utf8(before).len();
    lemma_line_between_characters(m, line);
    lemma_line_span(m, line);
    encode_utf8_decode_utf8(text);
    encode_utf8_decode_utf8(before);
    encode_utf8_valid_utf8(before);
    encode_utf8_valid_utf8(after);
    lemma_encode_concat(before, after);
    lemma_joint(encode_utf8(before), encode_utf8(after));
    assert(text.take(before.len() as int) =~= before);
    if after.len() == 0 {
        assert(text =~= before);
    }
    assert(m.bytes.subrange(start, offset) =~= part.subrange(0, offset - start));
    assert(part.subrange(0, offset - start) =~= encode_utf8(before));
    if offset < end {
        assert(m.bytes[offset] == part[offset - start]);
    }
    assert(on_boundary(m.bytes, offset));
    if line + 1 < m.index.starts.len() {
        crate::edit_laws::law_line_ends_before_its_line_break(m, line);
        assert(m.index.starts[line] < m.index.starts[line + 1]);
        if offset == end && end == m.index.starts[line + 1] {
            assert(m.bytes[m.index.starts[line + 1] - 1] != 10u8);
            assert(crate::line_index::is_newline_byte(m.bytes[m.index.starts[line + 1] - 1]));
        }
    }
    lemma_on_line(m, line, offset);
    lemma_boundary(m.bytes, offset);
}

/// Of each line from the first one on, what is shown begins at its start and is
/// its text, without its line break; no line is left out.
pub proof fn law_shown_lines_hold_their_text(
    shown: Seq<VisibleLine>,
    m: DocumentModel,
    first: int,
    max: int,
    i: int,
)
    requires
        document_valid(m),
        valid_utf8(m.bytes),
        is_visible_lines(shown, m, first, max, 0),
        0 <= first,
        0 <= i < max,
        line_is_known(m, first + i),
        content_end(m, first + i) - m.index.starts[first + i] <= MAX_VISIBLE_LINE_BYTES,
    ensures
        i < shown.len(),
        shown[i].number == first + i + 1,
        shown[i].byte_range.start == m.index.starts[first + i],
        shown[i].byte_range.end == content_end(m, first + i),
        encode_utf8(shown[i].text@) == m.bytes.subrange(
            m.index.starts[first + i],
            content_end(m, first + i),
        ),
{
    let line = first + i;
    lemma_line_between_characters(m, line);
    decode_utf8_encode_utf8(m.bytes.subrange(m.index.starts[line], content_end(m, line)));
    assert(crate::document::is_visible_line(shown[i], m, line, 0));
}

// ---------------------------------------------------------------------------
// The rows of a line
// ---------------------------------------------------------------------------

/// Rows that follow on each other without a gap from `from` to `to`.
pub open spec fn follow_on(rows: Seq<RowLine>, from: int, to: int) -> bool {
    &&& rows.len() > 0
    &&& rows[0].start == from
    &&& rows.last().end == to
    &&& forall|i: int|
        0 <= i < rows.len() ==> (#[trigger] rows[i]).start < rows[i].end && rows[i].end <= to
    &&& forall|i: int, j: int|
        0 <= i < rows.len() && j == i + 1 && j < rows.len() ==> (#[trigger] rows[i]).end == (
        #[trigger] rows[j]).start
}

proof fn lemma_follow_on(a: Seq<RowLine>, b: Seq<RowLine>, from: int, at: int, to: int)
    requires
        follow_on(a, from, at),
        follow_on(b, at, to),
    ensures
        follow_on(a + b, from, to),
{
    let rows = a + b;
    assert(rows[0] == a[0]);
    assert(rows.last() == b.last());
    assert(b[b.len() - 1].end == to);
    assert(b[0].start < b[0].end <= to);
    assert forall|i: int| 0 <= i < rows.len() implies (#[trigger] rows[i]).start < rows[i].end
        && rows[i].end <= to by {
        if i < a.len() {
            assert(rows[i] == a[i]);
        } else {
            assert(rows[i] == b[i - a.len()]);
        }
    }
    assert forall|i: int, j: int|
        0 <= i < rows.len() && j == i + 1 && j < rows.len() implies (#[trigger] rows[i]).end == (
    #[trigger] rows[j]).start by {
        if j < a.len() {
            assert(rows[i] == a[i] && rows[j] == a[j]);
        } else if i >= a.len() {
            assert(rows[i] == b[i - a.len()] && rows[j] == b[j - a.len()]);
        } else {
            assert(rows[i] == a.last() && rows[j] == b[0]);
        }
    }
}

/// Behind a character boundary that is not the end of the text there is another
/// one, at most four bytes on.
proof fn lemma_next_boundary(bytes: Seq<u8>, at: int) -> (next: int)
    requires
        valid_utf8(bytes),
        on_boundary(bytes, at),
        at < bytes.len(),
    ensures
        at < next <= at + 4,
        on_boundary(bytes, next),
{
    let tail = bytes.subrange(at, bytes.len() as int);
    lemma_subrange_is_text(bytes, at, bytes.len() as int);
    decode_utf8_encode_utf8(tail);
    let text = decode_utf8(tail);
    if text.len() == 0 {
        assert(text =~= Seq::empty());
        assert(encode_utf8(text).len() == 0);
    }
    let one = seq![text[0]];
    let later = text.skip(1);
    assert(one + later =~= text);
    lemma_encode_concat(one, later);
    lemma_encode_one(text[0]);
    encode_utf8_valid_utf8(later);
    lemma_joint(encode_utf8(one), encode_utf8(later));
    let len = encode_utf8(one).len() as int;
    assert(1 <= len <= 4);
    if at + len < bytes.len() {
        assert(tail[len] == bytes[at + len]);
    }
    at + len
}

proof fn lemma_floor_reaches(bytes: Seq<u8>, offset: int, lower: int, at: int)
    requires
        lower < at <= offset <= bytes.len(),
        on_boundary(bytes, at),
    ensures
        floor_boundary(bytes, offset, lower) >= at,
    decreases offset - at,
{
    if offset > at && offset < bytes.len() && is_continuation_byte(bytes[offset]) {
        lemma_floor_reaches(bytes, offset - 1, lower, at);
    }
}

/// Parts of a line that follow on each other without a gap.
spec fn parts_follow_on(chunks: Seq<(int, int)>, from: int, to: int) -> bool {
    &&& chunks.len() > 0
    &&& chunks[0].0 == from
    &&& chunks.last().1 == to
    &&& forall|i: int| 0 <= i < chunks.len() ==> (#[trigger] chunks[i]).0 < chunks[i].1
    &&& forall|i: int, j: int|
        0 <= i < chunks.len() && j == i + 1 && j < chunks.len() ==> (#[trigger] chunks[i]).1 == (
        #[trigger] chunks[j]).0
}

proof fn lemma_parts_follow_on(m: DocumentModel, line: int, local: int)
    requires
        document_valid(m),
        valid_utf8(m.bytes),
        line_is_known(m, line),
        0 <= local < content_end(m, line) - m.index.starts[line],
        on_boundary(m.bytes, m.index.starts[line] + local),
    ensures
        parts_follow_on(
            line_chunks(m, line, local),
            m.index.starts[line] + local,
            content_end(m, line),
        ),
    decreases content_end(m, line) - m.index.starts[line] - local,
{
    let start = m.index.starts[line];
    let last = content_end(m, line);
    let from = start + local;
    lemma_shown_part(m, line, local);
    assert(floor_boundary(m.bytes, from, start) == from);
    let chunk = (visible_start(m, line, local), visible_end(m, line, local));
    assert(chunk.0 == from);
    if last - from > MAX_VISIBLE_LINE_BYTES {
        let next = lemma_next_boundary(m.bytes, from);
        lemma_floor_reaches(m.bytes, from + MAX_VISIBLE_LINE_BYTES, from, next);
    }
    assert(chunk.1 > chunk.0);
    let next = chunk.1 - start;
    let chunks = line_chunks(m, line, local);
    if chunk.1 < last {
        lemma_parts_follow_on(m, line, next);
        let later = line_chunks(m, line, next);
        assert(chunks =~= seq![chunk] + later);
        assert(chunks.last() == later.last());
        assert forall|i: int| 0 <= i < chunks.len() implies (#[trigger] chunks[i]).0 < chunks[i].1 by {
            if i > 0 {
                assert(chunks[i] == later[i - 1]);
            }
        }
        assert forall|i: int, j: int|
            0 <= i < chunks.len() && j == i + 1 && j < chunks.len() implies (#[trigger] chunks[i]).1
            == (#[trigger] chunks[j]).0 by {
            assert(chunks[j] == later[j - 1]);
            if i > 0 {
                assert(chunks[i] == later[i - 1]);
            }
        }
    } else {
        let later = line_chunks(m, line, next);
        assert(later =~= Seq::empty());
        assert(chunks =~= seq![chunk]);
    }
}

proof fn lemma_chunk_rows_follow_on(
    ruler: RulerModel,
    m: DocumentModel,
    line: int,
    chunk: (int, int),
    width: int,
)
    requires
        0 <= chunk.0 < chunk.1 <= m.bytes.len() <= usize::MAX,
        valid_utf8(m.bytes.subrange(chunk.0, chunk.1)),
    ensures
        follow_on(chunk_rows(ruler, m, line, chunk, width), chunk.0, chunk.1),
{
    let part = m.bytes.subrange(chunk.0, chunk.1);
    let text = decode_utf8(part);
    decode_utf8_encode_utf8(part);
    if text.len() == 0 {
        assert(text =~= Seq::empty());
        assert(encode_utf8(text).len() == 0);
    }
    law_rows_cover_text(ruler, line + 1, chunk.0, text, 0, width);
    lemma_bytes_before(text, 0, 0);
    let rows = text_rows(ruler, line + 1, chunk.0, text, 0, width);
    lemma_ends_bounded(rows, rows.len() as int - 1);
    assert forall|i: int| 0 <= i < rows.len() implies (#[trigger] rows[i]).start < rows[i].end
        && rows[i].end <= chunk.1 by {
        lemma_some_bytes(rows[i].text);
        lemma_ends_bounded(rows, i);
    }
}

proof fn lemma_some_bytes(text: Seq<char>)
    requires
        text.len() > 0,
    ensures
        encode_utf8(text).len() > 0,
{
    lemma_bytes_before(text, 0, 1);
    assert(encode_scalar(text[0] as u32).len() > 0);
}

proof fn lemma_ends_bounded(rows: Seq<RowLine>, i: int)
    requires
        0 <= i < rows.len(),
        forall|k: int| 0 <= k < rows.len() ==> (#[trigger] rows[k]).start <= rows[k].end,
        forall|k: int, j: int|
            0 <= k < rows.len() && j == k + 1 && j < rows.len() ==> (#[trigger] rows[k]).end == (
            #[trigger] rows[j]).start,
    ensures
        rows[i].end <= rows.last().end,
    decreases rows.len() - i,
{
    if i + 1 < rows.len() {
        lemma_ends_bounded(rows, i + 1);
        assert(rows[i].end == rows[i + 1].start);
    }
}

proof fn lemma_chunks_rows_follow_on(
    ruler: RulerModel,
    m: DocumentModel,
    line: int,
    chunks: Seq<(int, int)>,
    width: int,
    from: int,
    to: int,
)
    requires
        m.bytes.len() <= usize::MAX,
        0 <= m.index.starts[line],
        content_end(m, line) <= m.bytes.len(),
        chunks_in_line(m, line, chunks),
        parts_follow_on(chunks, from, to),
    ensures
        follow_on(chunks_rows(ruler, m, line, chunks, width), from, to),
    decreases chunks.len(),
{
    let front = chunks.drop_last();
    let chunk = chunks.last();
    assert(chunks[chunks.len() - 1] == chunk);
    lemma_chunk_rows_follow_on(ruler, m, line, chunk, width);
    if front.len() == 0 {
        assert(chunks_rows(ruler, m, line, front, width) =~= Seq::empty());
        assert(chunks_rows(ruler, m, line, chunks, width) =~= chunk_rows(
            ruler,
            m,
            line,
            chunk,
            width,
        ));
    } else {
        assert forall|i: int| 0 <= i < front.len() implies front[i] == chunks[i] by {}
        assert(chunks_in_line(m, line, front));
        assert(front.last() == chunks[chunks.len() - 2]);
        assert(chunks[chunks.len() - 2].1 == chunk.0);
        lemma_chunks_rows_follow_on(ruler, m, line, front, width, from, chunk.0);
        lemma_follow_on(
            chunks_rows(ruler, m, line, front, width),
            chunk_rows(ruler, m, line, chunk, width),
            from,
            chunk.0,
            to,
        );
    }
}

/// The rows of a line follow on each other without a gap, from where the line
/// starts to where its text ends, however long it is.
pub proof fn law_rows_cover_their_line(ruler: RulerModel, m: DocumentModel, line: int, width: int)
    requires
        document_valid(m),
        valid_utf8(m.bytes),
        m.bytes.len() <= usize::MAX,
        line_is_known(m, line),
    ensures
        ({
            let start = m.index.starts[line];
            let end = content_end(m, line);
            let rows = line_rows(ruler, m, line, width);
            &&& start < end ==> follow_on(rows, start, end)
            &&& start == end ==> rows.len() == 1 && rows[0].start == start && rows[0].end == end
                && rows[0].text.len() == 0
        }),
{
    lemma_line_between_characters(m, line);
    let start = m.index.starts[line];
    let end = content_end(m, line);
    lemma_boundary(m.bytes, start);
    assert(crate::document::boundary_error(m.bytes, start) is None);
    if start < end {
        lemma_parts_follow_on(m, line, 0);
        lemma_chunks_in_line(m, line, 0);
        lemma_chunks_rows_follow_on(ruler, m, line, line_chunks(m, line, 0), width, start, end);
    }
}

// ---------------------------------------------------------------------------
// The row of an offset
// ---------------------------------------------------------------------------

/// Where rows end.
spec fn ends_of(rows: Seq<RowLine>) -> Seq<int> {
    Seq::new(rows.len(), |i: int| rows[i].end)
}

proof fn lemma_text_ends(
    ruler: RulerModel,
    number: int,
    text: Seq<char>,
    base: int,
    start: int,
    width: int,
)
    requires
        0 <= start,
    ensures
        text_ends(ruler, text, base, start, width) == ends_of(
            text_rows(ruler, number, base, text, start, width),
        ),
    decreases text.len() - start,
{
    let ends = text_ends(ruler, text, base, start, width);
    let rows = text_rows(ruler, number, base, text, start, width);
    if start < text.len() {
        lemma_segment_end(ruler, text, start, width);
        let next = segment_end(ruler, text, start, width);
        lemma_text_ends(ruler, number, text, base, next, width);
        let later = text_rows(ruler, number, base, text, next, width);
        assert forall|i: int| 0 <= i < rows.len() implies ends[i] == #[trigger] ends_of(rows)[i] by {
            if i > 0 {
                assert(ends[i] == ends_of(later)[i - 1]);
                assert(rows[i] == later[i - 1]);
            }
        }
    }
    assert(ends =~= ends_of(rows));
}

proof fn lemma_row_ends(
    ruler: RulerModel,
    m: DocumentModel,
    line: int,
    chunks: Seq<(int, int)>,
    width: int,
)
    requires
        content_end(m, line) <= m.bytes.len() <= usize::MAX,
        0 <= m.index.starts[line],
        chunks_in_line(m, line, chunks),
        forall|i: int| 0 <= i < chunks.len() ==> (#[trigger] chunks[i]).0 < chunks[i].1,
    ensures
        row_ends(ruler, m, chunks, width) == ends_of(chunks_rows(ruler, m, line, chunks, width)),
        chunks_row_count(ruler, m, chunks, width) == chunks_rows(
            ruler,
            m,
            line,
            chunks,
            width,
        ).len(),
    decreases chunks.len(),
{
    let rows = chunks_rows(ruler, m, line, chunks, width);
    if chunks.len() > 0 {
        let front = chunks.drop_last();
        let chunk = chunks.last();
        assert(chunks[chunks.len() - 1] == chunk);
        assert forall|i: int| 0 <= i < front.len() implies front[i] == chunks[i] by {}
        assert(chunks_in_line(m, line, front));
        lemma_row_ends(ruler, m, line, front, width);
        let part = m.bytes.subrange(chunk.0, chunk.1);
        let text = decode_utf8(part);
        decode_utf8_encode_utf8(part);
        if text.len() == 0 {
            assert(text =~= Seq::empty());
            assert(encode_utf8(text).len() == 0);
        }
        lemma_text_ends(ruler, line + 1, text, chunk.0, 0, width);
        law_counted_rows_are_rows(ruler, line + 1, chunk.0, text, 0, width);
        law_rows_cover_text(ruler, line + 1, chunk.0, text, 0, width);
        let a = chunks_rows(ruler, m, line, front, width);
        let b = chunk_rows(ruler, m, line, chunk, width);
        assert(ends_of(a + b) =~= ends_of(a) + ends_of(b));
    } else {
        assert(ends_of(rows) =~= Seq::empty());
    }
}

proof fn lemma_row_ending_after(ends: Seq<int>, offset: int)
    ensures
        match row_ending_after(ends, offset) {
            Some(row) => {
                &&& 0 <= row < ends.len()
                &&& offset < ends[row]
                &&& forall|i: int| 0 <= i < row ==> #[trigger] ends[i] <= offset
            },
            None => forall|i: int| 0 <= i < ends.len() ==> #[trigger] ends[i] <= offset,
        },
    decreases ends.len(),
{
    if ends.len() > 0 {
        let front = ends.drop_last();
        lemma_row_ending_after(front, offset);
        assert forall|i: int| 0 <= i < front.len() implies front[i] == #[trigger] ends[i] by {}
    }
}

/// An offset in a line lies in the row of the line that is told for it, and at
/// the end of that row only where no other row follows. As many rows are counted
/// for the line as it is broken into.
pub proof fn law_offset_lies_in_its_row(
    ruler: RulerModel,
    m: DocumentModel,
    line: int,
    width: int,
    offset: int,
)
    requires
        document_valid(m),
        valid_utf8(m.bytes),
        m.bytes.len() <= usize::MAX,
        line_is_known(m, line),
        m.index.starts[line] <= offset <= content_end(m, line),
        line_rows(ruler, m, line, width).len() <= usize::MAX,
    ensures
        ({
            let rows = line_rows(ruler, m, line, width);
            let row = row_in_line(ruler, m, line, width, offset);
            &&& 0 <= row < rows.len()
            &&& rows[row].start <= offset <= rows[row].end
            &&& offset == rows[row].end ==> row == rows.len() - 1
            &&& line_row_count(ruler, m, line, width) == rows.len()
        }),
{
    let start = m.index.starts[line];
    let end = content_end(m, line);
    let rows = line_rows(ruler, m, line, width);
    law_rows_cover_their_line(ruler, m, line, width);
    lemma_line_between_characters(m, line);
    lemma_boundary(m.bytes, start);
    if start < end {
        let chunks = line_chunks(m, line, 0);
        lemma_parts_follow_on(m, line, 0);
        lemma_chunks_in_line(m, line, 0);
        lemma_row_ends(ruler, m, line, chunks, width);
        let ends = ends_of(rows);
        lemma_row_ending_after(ends, offset);
        let row = row_in_line(ruler, m, line, width, offset);
        if offset == start {
            assert(rows[0].start == start);
            assert(rows[0].start < rows[0].end);
        } else {
            match row_ending_after(ends, offset) {
                Some(r) => {
                    assert(ends[r] == rows[r].end);
                    if r > 0 {
                        assert(ends[r - 1] == rows[r - 1].end);
                        assert(rows[r - 1].end == rows[r].start);
                    }
                },
                None => {
                    assert(ends[ends.len() - 1] == rows.last().end);
                    assert(rows[rows.len() - 1].start < rows[rows.len() - 1].end);
                },
            }
        }
    }
}

proof fn lemma_line_of_row(starts: Seq<int>, row: int, n: int)
    requires
        1 <= n <= starts.len(),
        starts[0] <= row,
    ensures
        ({
            let line = line_of_row(starts, row, n);
            &&& 0 <= line < n
            &&& starts[line] <= row
            &&& forall|i: int| line < i < n ==> #[trigger] starts[i] > row
        }),
    decreases n,
{
    if n > 1 && starts[n - 1] > row {
        lemma_line_of_row(starts, row, n - 1);
    }
}

/// A row of the whole text is found in the last line that begins at or before
/// it, as many rows on as it lies behind that line's first row; a row behind the
/// last one counts as the last one.
pub proof fn law_row_is_found_in_its_line(index: RowIndexModel, row: int)
    requires
        index.starts.len() > 0,
        index.starts[0] == 0,
        1 <= index.total,
        0 <= row,
    ensures
        ({
            let (line, within) = row_position(index, row);
            let at = if row < index.total {
                row
            } else {
                index.total - 1
            };
            &&& 0 <= line < index.starts.len()
            &&& index.starts[line] + within == at
            &&& 0 <= within
            &&& forall|i: int| line < i < index.starts.len() ==> #[trigger] index.starts[i] > at
        }),
{
    let at = if row < index.total {
        row
    } else {
        index.total - 1
    };
    lemma_line_of_row(index.starts, at, index.starts.len() as int);
}

/// The column that is told for a place behind characters other than tabs is one
/// more than their number.
pub proof fn law_told_column_counts_characters(
    m: DocumentModel,
    line: int,
    before: Seq<char>,
    after: Seq<char>,
)
    requires
        document_valid(m),
        valid_utf8(m.bytes),
        line_is_known(m, line),
        content_end(m, line) - m.index.starts[line] <= MAX_COLUMN_SCAN_BYTES,
        m.bytes.subrange(m.index.starts[line], content_end(m, line)) == encode_utf8(before + after),
        forall|i: int| 0 <= i < before.len() ==> #[trigger] before[i] != '\t',
    ensures
        caret_column(m, m.index.starts[line] + encode_utf8(before).len()) == before.len() + 1,
{
    let start = m.index.starts[line];
    let offset = start + encode_utf8(before).len();
    law_columns_and_offsets_agree(m, line, before, after, (before.len() + after.len()) as int);
    lemma_encode_concat(before, after);
    lemma_line_between_characters(m, line);
    lemma_on_line(m, line, offset);
    encode_utf8_decode_utf8(before);
    let part = m.bytes.subrange(start, content_end(m, line));
    assert(m.bytes.subrange(start, offset) =~= part.subrange(0, offset - start));
    assert(part.subrange(0, offset - start) =~= encode_utf8(before));
    law_columns_count_characters(before);
}

// ---------------------------------------------------------------------------
// Scrolling sideways
// ---------------------------------------------------------------------------

pub proof fn lemma_longest_line(m: DocumentModel, first: int, count: int)
    ensures
        longest_line(m, first, count) >= 0,
        forall|i: int| 0 <= i < count ==> #[trigger] line_len(m, first + i) <= longest_line(m, first, count),
        longest_line(m, first, count) > 0 ==> exists|i: int|
            0 <= i < count && #[trigger] line_len(m, first + i) == longest_line(m, first, count),
    decreases count,
{
    if count > 0 {
        lemma_longest_line(m, first, count - 1);
        assert(line_len(m, first + (count - 1)) <= longest_line(m, first, count));
        if longest_line(m, first, count) > 0 {
            if longest_line(m, first, count - 1) == longest_line(m, first, count) {
                let i = choose|i: int|
                    0 <= i < count - 1 && #[trigger] line_len(m, first + i) == longest_line(
                        m,
                        first,
                        count - 1,
                    );
                assert(line_len(m, first + i) == longest_line(m, first, count));
            } else {
                assert(line_len(m, first + (count - 1)) == longest_line(m, first, count));
            }
        }
    }
}

/// The view is not scrolled sideways where lines are wrapped, and elsewhere no
/// further than the longest line in view is long; an offset within that length is
/// kept.
pub proof fn law_view_stays_beside_the_text(g: GuiModel, a: AppModel, visible: int, i: int)
    requires
        0 <= g.horizontal_offset,
        0 <= i < visible,
    ensures
        ({
            let after = horizontally_clamped(g, a, visible);
            &&& a.settings.word_wrap ==> after.horizontal_offset == 0
            &&& 0 <= after.horizontal_offset <= g.horizontal_offset
            &&& !a.settings.word_wrap && g.horizontal_offset <= line_len(
                a.document,
                g.first_visible_line + i,
            ) ==> after.horizontal_offset == g.horizontal_offset
            &&& after.horizontal_offset > 0 ==> exists|k: int|
                0 <= k < visible && after.horizontal_offset <= #[trigger] line_len(
                    a.document,
                    g.first_visible_line + k,
                )
            &&& after.first_visible_line == g.first_visible_line
        }),
{
    lemma_longest_line(a.document, g.first_visible_line, visible);
    let longest = longest_line(a.document, g.first_visible_line, visible);
    if longest > 0 {
        let k = choose|k: int|
            0 <= k < visible && #[trigger] line_len(a.document, g.first_visible_line + k) == longest;
        assert(horizontally_clamped(g, a, visible).horizontal_offset <= line_len(
            a.document,
            g.first_visible_line + k,
        ));
    }
}

// ---------------------------------------------------------------------------
// The rows of the text
// ---------------------------------------------------------------------------

proof fn lemma_lines_rows_split(
    ruler: RulerModel,
    m: DocumentModel,
    from: int,
    at: int,
    end: int,
    width: int,
)
    requires
        from <= at <= end,
    ensures
        lines_rows(ruler, m, from, end, width) == lines_rows(ruler, m, from, at, width)
            + lines_rows(ruler, m, at, end, width),
    decreases end - at,
{
    if at < end {
        lemma_lines_rows_split(ruler, m, from, at, end - 1, width);
        let a = lines_rows(ruler, m, from, at, width);
        let b = lines_rows(ruler, m, at, end - 1, width);
        let c = line_rows(ruler, m, end - 1, width);
        assert((a + b) + c =~= a + (b + c));
    } else {
        let a = lines_rows(ruler, m, from, at, width);
        assert(a + lines_rows(ruler, m, at, end, width) =~= a);
    }
}

proof fn lemma_rows_before(ruler: RulerModel, m: DocumentModel, line: int, width: int)
    requires
        document_valid(m),
        valid_utf8(m.bytes),
        m.bytes.len() <= usize::MAX,
        m.index.complete,
        0 <= line <= m.index.starts.len(),
        lines_rows(ruler, m, 0, line, width).len() <= usize::MAX,
    ensures
        rows_before(ruler, m, line, width) == lines_rows(ruler, m, 0, line, width).len(),
        line > 0 ==> lines_rows(ruler, m, 0, line, width).len() > 0,
    decreases line,
{
    if line > 0 {
        let before = lines_rows(ruler, m, 0, line - 1, width);
        let own = line_rows(ruler, m, line - 1, width);
        assert(lines_rows(ruler, m, 0, line, width) == before + own);
        lemma_rows_before(ruler, m, line - 1, width);
        lemma_line_span(m, line - 1);
        law_offset_lies_in_its_row(ruler, m, line - 1, width, m.index.starts[line - 1]);
    }
}

/// Where lines are wrapped, the rows in view are those of the text from the first
/// one in view on, one after the other and as many as there is room for.
pub proof fn law_rows_in_view_follow_on(
    g: GuiModel,
    a: AppModel,
    metrics: EditorMetrics,
    first: int,
    i: int,
)
    requires
        a.settings.word_wrap,
        g.rows is None,
        document_valid(a.document),
        valid_utf8(a.document.bytes),
        a.document.bytes.len() <= usize::MAX,
        a.document.index.complete,
        ({
            let all = lines_rows(
                g.ruler,
                a.document,
                0,
                a.document.index.starts.len() as int,
                metrics.editor_text_width as int,
            );
            &&& all.len() <= usize::MAX
            &&& 0 <= first < all.len()
            &&& 0 <= i < metrics.visible_line_count
            &&& first + i < all.len()
        }),
    ensures
        ({
            let all = lines_rows(
                g.ruler,
                a.document,
                0,
                a.document.index.starts.len() as int,
                metrics.editor_text_width as int,
            );
            let rows = rows_in_view(g, a, metrics, first);
            &&& i < rows.len() <= metrics.visible_line_count
            &&& rows[i] == all[first + i]
        }),
{
    reveal(index_in_use);
    let m = a.document;
    let width = metrics.editor_text_width as int;
    let count = m.index.starts.len() as int;
    let index = built_index(g.ruler, m, width);
    let all = lines_rows(g.ruler, m, 0, count, width);
    lemma_rows_before(g.ruler, m, count, width);
    assert(index.total == all.len());
    assert(index.starts[0] == rows_before(g.ruler, m, 0, width));
    law_row_is_found_in_its_line(index, first);
    let (line, within) = row_position(index, first);
    assert(index.starts[line] == rows_before(g.ruler, m, line, width));
    lemma_lines_rows_split(g.ruler, m, 0, line, count, width);
    let before = lines_rows(g.ruler, m, 0, line, width);
    let later = lines_rows(g.ruler, m, line, count, width);
    lemma_rows_before(g.ruler, m, line, width);
    assert(before.len() + within == first);
    assert(later[within + i] == all[first + i]);
}

/// Where lines are not wrapped, the rows in view are the lines from the first one
/// in view on, one after the other.
pub proof fn law_lines_in_view_follow_on(
    g: GuiModel,
    a: AppModel,
    metrics: EditorMetrics,
    first: int,
    i: int,
)
    requires
        !a.settings.word_wrap,
        0 <= first,
        0 <= i < metrics.visible_line_count,
        first + i < a.document.index.starts.len(),
    ensures
        ({
            let rows = rows_in_view(g, a, metrics, first);
            &&& i < rows.len() <= metrics.visible_line_count
            &&& rows[i].number == first + i + 1
        }),
{
}

} // verus!

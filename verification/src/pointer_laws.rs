//! What a point of the window has to do with the text that is shown there.

use crate::app::AppModel;
use crate::document::{
    content_end, document_valid, floor_boundary, lemma_line_span, visible_end, visible_start,
    DocumentModel,
};
use crate::edit_laws::{
    between_characters, characters_between, law_selection_spans_both_ends, lemma_joint,
    lemma_line_between_characters, line_is_known,
};
use crate::gui::{layout_of, GuiModel};
use crate::mouse::{moused, selection_dragged, text_clicked, MouseInput};
use crate::pointer::{
    offset_at_point, on_text, row_y, rows_in_view, scrollbar_clicked, shown_lines, unwrapped_rows,
};
use crate::ruler::{
    char_at_x, chars_advance, lemma_segment_end, segment_end, text_advance, unit_advance,
    RulerModel, TextRole, PIXEL,
};
use crate::scroll::{
    greater, lemma_layout, EditorMetrics, EDITOR_LINE_HEIGHT, MENU_HEIGHT, TEXT_MARGIN_X,
    TEXT_MARGIN_Y,
};
use crate::text::{lemma_boundary, lemma_encode_concat, on_boundary, shown_text};
use crate::text_units::{bytes_before, lemma_bytes_before, lemma_unit_end, unit_end};
use crate::undo_laws::lemma_subrange_is_text;
use crate::wrap::{
    chunk_rows, chunks_rows, line_chunks, line_rows, lines_rows, text_row, text_rows, window,
    RowLine,
};
use vstd::prelude::*;
use vstd::utf8::*;

verus! {

// ---------------------------------------------------------------------------
// Rows
// ---------------------------------------------------------------------------

/// A row shows a part of the line whose number it has, between characters, and
/// its text is what that part of the text says.
pub open spec fn row_shows_text(m: DocumentModel, row: RowLine) -> bool {
    let line = row.number - 1;
    &&& 0 <= line < m.index.starts.len()
    &&& line_is_known(m, line) ==> {
        &&& m.index.starts[line] <= row.start <= row.end <= content_end(m, line)
        &&& row.end <= m.bytes.len()
        &&& on_boundary(m.bytes, row.start)
        &&& on_boundary(m.bytes, row.end)
        &&& row.text == decode_utf8(m.bytes.subrange(row.start, row.end))
        &&& valid_utf8(m.bytes.subrange(row.start, row.end))
    }
}

pub open spec fn rows_show_text(m: DocumentModel, rows: Seq<RowLine>) -> bool {
    forall|i: int| 0 <= i < rows.len() ==> row_shows_text(m, #[trigger] rows[i])
}

proof fn lemma_floor_boundary(bytes: Seq<u8>, offset: int, lower: int)
    requires
        on_boundary(bytes, lower),
        offset <= bytes.len(),
    ensures
        on_boundary(bytes, floor_boundary(bytes, offset, lower)),
        floor_boundary(bytes, offset, lower) >= lower,
        floor_boundary(bytes, offset, lower) <= greater(offset, lower),
    decreases offset - lower,
{
    if offset > lower {
        lemma_floor_boundary(bytes, offset - 1, lower);
    }
}

/// The part of a line that is shown lies in the line, between characters.
pub proof fn lemma_shown_part(m: DocumentModel, line: int, local: int)
    requires
        document_valid(m),
        valid_utf8(m.bytes),
        line_is_known(m, line),
        local >= 0,
    ensures
        ({
            let start = visible_start(m, line, local);
            let end = visible_end(m, line, local);
            &&& m.index.starts[line] <= start <= end <= content_end(m, line) <= m.bytes.len()
            &&& on_boundary(m.bytes, start)
            &&& on_boundary(m.bytes, end)
            &&& valid_utf8(m.bytes.subrange(start, end))
        }),
{
    let start = m.index.starts[line];
    let last = content_end(m, line);
    lemma_line_between_characters(m, line);
    lemma_floor_boundary(m.bytes, crate::line_index::min(start + local, last), start);
    let from = visible_start(m, line, local);
    if last - from > crate::document::MAX_VISIBLE_LINE_BYTES {
        lemma_floor_boundary(m.bytes, from + crate::document::MAX_VISIBLE_LINE_BYTES, from);
    }
    lemma_subrange_is_text(m.bytes, from, visible_end(m, line, local));
}

proof fn lemma_unwrapped_rows_show_text(m: DocumentModel, first: int, max: int, horizontal: int)
    requires
        document_valid(m),
        valid_utf8(m.bytes),
        first >= 0,
        max >= 0,
        horizontal >= 0,
    ensures
        rows_show_text(m, unwrapped_rows(m, first, max, horizontal)),
{
    let rows = unwrapped_rows(m, first, max, horizontal);
    assert forall|i: int| 0 <= i < rows.len() implies row_shows_text(m, #[trigger] rows[i]) by {
        if line_is_known(m, first + i) {
            lemma_shown_part(m, first + i, horizontal);
        }
    }
}

/// A row of a text that stands at `base` holds its own part of it.
proof fn lemma_text_row(bytes: Seq<u8>, base: int, end: int, number: int, a: int, b: int)
    requires
        0 <= base <= end <= bytes.len() <= usize::MAX,
        valid_utf8(bytes.subrange(base, end)),
        on_boundary(bytes, end),
        ({
            let text = decode_utf8(bytes.subrange(base, end));
            0 <= a <= b <= text.len()
        }),
    ensures
        ({
            let row = text_row(number, base, decode_utf8(bytes.subrange(base, end)), a, b);
            &&& base <= row.start <= row.end <= end
            &&& on_boundary(bytes, row.start)
            &&& on_boundary(bytes, row.end)
            &&& row.text == decode_utf8(bytes.subrange(row.start, row.end))
            &&& valid_utf8(bytes.subrange(row.start, row.end))
        }),
{
    let part = bytes.subrange(base, end);
    let text = decode_utf8(part);
    let x = text.take(a);
    let y = text.subrange(a, b);
    let z = text.skip(b);
    decode_utf8_encode_utf8(part);
    lemma_bytes_before(text, a, b);
    lemma_bytes_before(text, b, text.len() as int);
    assert(x + y =~= text.take(b));
    assert(text.take(b) + z =~= text);
    lemma_encode_concat(x, y);
    lemma_encode_concat(text.take(b), z);
    encode_utf8_valid_utf8(x);
    encode_utf8_valid_utf8(y);
    encode_utf8_valid_utf8(z);
    encode_utf8_decode_utf8(y);
    encode_utf8_valid_utf8(y + z);
    lemma_encode_concat(y, z);
    let row = text_row(number, base, text, a, b);
    assert(row.start == base + encode_utf8(x).len());
    assert(row.end == row.start + encode_utf8(y).len());
    assert(part =~= encode_utf8(x) + encode_utf8(y + z));
    lemma_joint(encode_utf8(x), encode_utf8(y + z));
    lemma_joint(encode_utf8(text.take(b)), encode_utf8(z));
    if row.start < end {
        assert(bytes[row.start] == part[row.start - base]);
    }
    if row.end < end {
        assert(bytes[row.end] == part[row.end - base]);
    }
    let from = encode_utf8(x).len() as int;
    assert(part =~= encode_utf8(x) + encode_utf8(y) + encode_utf8(z));
    assert(part.subrange(from, from + encode_utf8(y).len()) =~= encode_utf8(y));
    assert(bytes.subrange(row.start, row.end) =~= part.subrange(
        from,
        from + encode_utf8(y).len(),
    ));
}

proof fn lemma_text_rows_show_text(
    ruler: RulerModel,
    m: DocumentModel,
    line: int,
    base: int,
    end: int,
    start: int,
    width: int,
)
    requires
        line_is_known(m, line),
        0 <= m.index.starts[line] <= base <= end <= content_end(m, line) <= m.bytes.len(),
        m.bytes.len() <= usize::MAX,
        valid_utf8(m.bytes.subrange(base, end)),
        on_boundary(m.bytes, end),
        0 <= start,
    ensures
        rows_show_text(
            m,
            text_rows(
                ruler,
                line + 1,
                base,
                decode_utf8(m.bytes.subrange(base, end)),
                start,
                width,
            ),
        ),
    decreases decode_utf8(m.bytes.subrange(base, end)).len() - start,
{
    let text = decode_utf8(m.bytes.subrange(base, end));
    if start < text.len() {
        let next = segment_end(ruler, text, start, width);
        lemma_segment_end(ruler, text, start, width);
        lemma_text_row(m.bytes, base, end, line + 1, start, next);
        lemma_text_rows_show_text(ruler, m, line, base, end, next, width);
        let tail = text_rows(ruler, line + 1, base, text, next, width);
        let rows = text_rows(ruler, line + 1, base, text, start, width);
        assert(rows =~= seq![text_row(line + 1, base, text, start, next)] + tail);
        assert forall|i: int| 0 <= i < rows.len() implies row_shows_text(m, #[trigger] rows[i]) by {
            if i > 0 {
                assert(rows[i] == tail[i - 1]);
            }
        }
    }
}

proof fn lemma_chunk_rows_show_text(
    ruler: RulerModel,
    m: DocumentModel,
    line: int,
    chunk: (int, int),
    width: int,
)
    requires
        m.bytes.len() <= usize::MAX,
        line_is_known(m, line),
        0 <= m.index.starts[line] <= chunk.0 <= chunk.1 <= content_end(m, line) <= m.bytes.len(),
        on_boundary(m.bytes, chunk.0),
        on_boundary(m.bytes, chunk.1),
        valid_utf8(m.bytes.subrange(chunk.0, chunk.1)),
    ensures
        rows_show_text(m, chunk_rows(ruler, m, line, chunk, width)),
{
    let text = shown_text(m.bytes.subrange(chunk.0, chunk.1));
    if text.len() > 0 {
        lemma_text_rows_show_text(ruler, m, line, chunk.0, chunk.1, 0, width);
    }
}

/// All chunks lie in the line, between characters.
pub open spec fn chunks_in_line(m: DocumentModel, line: int, chunks: Seq<(int, int)>) -> bool {
    forall|i: int|
        0 <= i < chunks.len() ==> m.index.starts[line] <= (#[trigger] chunks[i]).0 <= chunks[i].1
            <= content_end(m, line) && on_boundary(m.bytes, chunks[i].0) && on_boundary(
            m.bytes,
            chunks[i].1,
        ) && valid_utf8(m.bytes.subrange(chunks[i].0, chunks[i].1))
}

pub proof fn lemma_chunks_in_line(m: DocumentModel, line: int, local: int)
    requires
        document_valid(m),
        valid_utf8(m.bytes),
        line_is_known(m, line),
        local >= 0,
    ensures
        chunks_in_line(m, line, line_chunks(m, line, local)),
    decreases crate::scroll::rest(content_end(m, line) - m.index.starts[line], local),
{
    let start = m.index.starts[line];
    let chunk = (visible_start(m, line, local), visible_end(m, line, local));
    let next = crate::scroll::rest(chunk.1, start);
    lemma_shown_part(m, line, local);
    let chunks = line_chunks(m, line, local);
    if start + local < content_end(m, line) && chunk.0 < chunk.1 && next > local {
        lemma_chunks_in_line(m, line, next);
        let later = line_chunks(m, line, next);
        assert(chunks =~= seq![chunk] + later);
        assert forall|i: int| 0 <= i < chunks.len() implies start <= (#[trigger] chunks[i]).0
            <= chunks[i].1 <= content_end(m, line) && on_boundary(m.bytes, chunks[i].0)
            && on_boundary(m.bytes, chunks[i].1) && valid_utf8(
            m.bytes.subrange(chunks[i].0, chunks[i].1),
        ) by {
            if i > 0 {
                assert(chunks[i] == later[i - 1]);
            }
        }
    }
}

proof fn lemma_chunks_rows_show_text(
    ruler: RulerModel,
    m: DocumentModel,
    line: int,
    chunks: Seq<(int, int)>,
    width: int,
)
    requires
        m.bytes.len() <= usize::MAX,
        line_is_known(m, line),
        0 <= m.index.starts[line],
        content_end(m, line) <= m.bytes.len(),
        chunks_in_line(m, line, chunks),
    ensures
        rows_show_text(m, chunks_rows(ruler, m, line, chunks, width)),
    decreases chunks.len(),
{
    if chunks.len() > 0 {
        let front = chunks.drop_last();
        assert(chunks_in_line(m, line, front)) by {
            assert forall|i: int| 0 <= i < front.len() implies front[i] == chunks[i] by {}
        }
        assert(chunks[chunks.len() - 1] == chunks.last());
        lemma_chunks_rows_show_text(ruler, m, line, front, width);
        lemma_chunk_rows_show_text(ruler, m, line, chunks.last(), width);
        let a = chunks_rows(ruler, m, line, front, width);
        let b = chunk_rows(ruler, m, line, chunks.last(), width);
        lemma_rows_joined(m, a, b);
    }
}

proof fn lemma_rows_joined(m: DocumentModel, a: Seq<RowLine>, b: Seq<RowLine>)
    requires
        rows_show_text(m, a),
        rows_show_text(m, b),
    ensures
        rows_show_text(m, a + b),
{
    assert forall|i: int| 0 <= i < (a + b).len() implies row_shows_text(m, #[trigger] (a + b)[i]) by {
        if i < a.len() {
            assert((a + b)[i] == a[i]);
        } else {
            assert((a + b)[i] == b[i - a.len()]);
        }
    }
}

/// The rows of a line whose number they all have.
proof fn lemma_numbers(
    ruler: RulerModel,
    m: DocumentModel,
    line: int,
    chunks: Seq<(int, int)>,
    width: int,
)
    ensures
        forall|i: int|
            0 <= i < chunks_rows(ruler, m, line, chunks, width).len() ==> (
            #[trigger] chunks_rows(ruler, m, line, chunks, width)[i]).number == line + 1,
    decreases chunks.len(),
{
    if chunks.len() > 0 {
        lemma_numbers(ruler, m, line, chunks.drop_last(), width);
        let text = shown_text(m.bytes.subrange(chunks.last().0, chunks.last().1));
        lemma_text_numbers(ruler, line + 1, chunks.last().0, text, 0, width);
        let a = chunks_rows(ruler, m, line, chunks.drop_last(), width);
        let b = chunk_rows(ruler, m, line, chunks.last(), width);
        let all = chunks_rows(ruler, m, line, chunks, width);
        assert forall|i: int| 0 <= i < all.len() implies (#[trigger] all[i]).number == line + 1 by {
            if i < a.len() {
                assert(all[i] == a[i]);
            } else {
                assert(all[i] == b[i - a.len()]);
            }
        }
    }
}

proof fn lemma_text_numbers(
    ruler: RulerModel,
    number: int,
    base: int,
    text: Seq<char>,
    start: int,
    width: int,
)
    ensures
        forall|i: int|
            0 <= i < text_rows(ruler, number, base, text, start, width).len() ==> (
            #[trigger] text_rows(ruler, number, base, text, start, width)[i]).number == number,
    decreases text.len() - start,
{
    if 0 <= start < text.len() {
        let end = segment_end(ruler, text, start, width);
        lemma_segment_end(ruler, text, start, width);
        lemma_text_numbers(ruler, number, base, text, end, width);
        let tail = text_rows(ruler, number, base, text, end, width);
        let rows = text_rows(ruler, number, base, text, start, width);
        assert forall|i: int| 0 <= i < rows.len() implies (#[trigger] rows[i]).number == number by {
            if i > 0 {
                assert(rows[i] == tail[i - 1]);
            }
        }
    }
}

proof fn lemma_line_rows_show_text(ruler: RulerModel, m: DocumentModel, line: int, width: int)
    requires
        document_valid(m),
        valid_utf8(m.bytes),
        m.bytes.len() <= usize::MAX,
        line < m.index.starts.len(),
    ensures
        rows_show_text(m, line_rows(ruler, m, line, width)),
{
    let rows = line_rows(ruler, m, line, width);
    if 0 <= line {
        lemma_numbers(ruler, m, line, line_chunks(m, line, 0), width);
        if line_is_known(m, line) {
            lemma_line_between_characters(m, line);
            lemma_chunks_in_line(m, line, 0);
            lemma_chunks_rows_show_text(ruler, m, line, line_chunks(m, line, 0), width);
            let start = m.index.starts[line];
            if start == content_end(m, line) {
                let none = m.bytes.subrange(start, start);
                assert(none =~= Seq::<u8>::empty());
                assert(decode_utf8(none) =~= Seq::<char>::empty());
            }
        } else {
            assert forall|i: int| 0 <= i < rows.len() implies row_shows_text(
                m,
                #[trigger] rows[i],
            ) by {
                assert(rows[i].number == line + 1);
            }
        }
    }
}

proof fn lemma_lines_rows_show_text(
    ruler: RulerModel,
    m: DocumentModel,
    line: int,
    end: int,
    width: int,
)
    requires
        document_valid(m),
        valid_utf8(m.bytes),
        m.bytes.len() <= usize::MAX,
        end <= m.index.starts.len(),
    ensures
        rows_show_text(m, lines_rows(ruler, m, line, end, width)),
    decreases end - line,
{
    if line < end {
        lemma_lines_rows_show_text(ruler, m, line, end - 1, width);
        lemma_line_rows_show_text(ruler, m, end - 1, width);
        lemma_rows_joined(
            m,
            lines_rows(ruler, m, line, end - 1, width),
            line_rows(ruler, m, end - 1, width),
        );
    }
}

/// Whether rows are wrapped or not, every row in view shows a part of its line,
/// and what it shows is what stands there in the text.
pub proof fn law_rows_in_view_show_the_text(
    g: GuiModel,
    a: AppModel,
    metrics: EditorMetrics,
    first: int,
)
    requires
        document_valid(a.document),
        valid_utf8(a.document.bytes),
        a.document.bytes.len() <= usize::MAX,
        0 <= first,
        0 <= g.horizontal_offset,
    ensures
        rows_show_text(a.document, rows_in_view(g, a, metrics, first)),
{
    let m = a.document;
    if a.settings.word_wrap {
        let (line, skip) = crate::wrap::row_position(
            crate::gui::rows_in_use(g, a, metrics),
            first,
        );
        let width = metrics.editor_text_width as int;
        let all = lines_rows(g.ruler, m, line, m.index.starts.len() as int, width);
        lemma_lines_rows_show_text(g.ruler, m, line, m.index.starts.len() as int, width);
        let rows = window(all, skip, metrics.visible_line_count as int);
        let from = crate::scroll::less(skip, all.len() as int);
        assert forall|i: int| 0 <= i < rows.len() implies row_shows_text(m, #[trigger] rows[i]) by {
            assert(rows[i] == all[from + i]);
        }
    } else {
        lemma_unwrapped_rows_show_text(
            m,
            first,
            metrics.visible_line_count as int,
            g.horizontal_offset,
        );
    }
}

// ---------------------------------------------------------------------------
// Points
// ---------------------------------------------------------------------------

/// How far into a line the unit that begins at `k` is drawn.
pub open spec fn advance_before(ruler: RulerModel, text: Seq<char>, k: int) -> int {
    text_advance(ruler, TextRole::Editor, text, 0) - text_advance(ruler, TextRole::Editor, text, k)
}

proof fn lemma_no_negative_advance(ruler: RulerModel, role: TextRole, text: Seq<char>, i: int)
    ensures
        unit_advance(ruler, role, text, i) >= 0,
{
    lemma_chars_advance(ruler, role, text, i, unit_end(text, i));
}

proof fn lemma_chars_advance(
    ruler: RulerModel,
    role: TextRole,
    text: Seq<char>,
    i: int,
    end: int,
)
    ensures
        chars_advance(ruler, role, text, i, end) >= 0,
    decreases end - i,
{
    if i < end {
        lemma_chars_advance(ruler, role, text, i + 1, end);
    }
}

proof fn lemma_text_advance(ruler: RulerModel, role: TextRole, text: Seq<char>, i: int)
    ensures
        text_advance(ruler, role, text, i) >= 0,
    decreases text.len() - i,
{
    if 0 <= i < text.len() {
        lemma_unit_end(text, i);
        lemma_no_negative_advance(ruler, role, text, i);
        lemma_text_advance(ruler, role, text, unit_end(text, i));
    }
}

/// No text is less than nothing wide.
pub proof fn lemma_measured_not_negative(ruler: RulerModel, role: TextRole, text: Seq<char>)
    ensures
        crate::ruler::measured(ruler, role, text) >= 0,
{
    lemma_text_advance(ruler, role, text, 0);
}

proof fn lemma_char_at_x(ruler: RulerModel, text: Seq<char>, i: int, cursor: int, x: int)
    requires
        0 <= i <= text.len(),
        cursor == advance_before(ruler, text, i),
    ensures
        ({
            let k = char_at_x(ruler, text, i, cursor, x);
            &&& i <= k <= text.len()
            &&& k < text.len() && k > i ==> 2 * x * PIXEL < 2 * advance_before(ruler, text, k)
                + unit_advance(ruler, TextRole::Editor, text, k)
            &&& k == i && i < text.len() ==> 2 * x * PIXEL < 2 * cursor + unit_advance(
                ruler,
                TextRole::Editor,
                text,
                k,
            )
            &&& k > i ==> exists|j: int|
                i <= j < text.len() && #[trigger] unit_end(text, j) == k && 2 * x * PIXEL >= 2
                    * advance_before(ruler, text, j) + unit_advance(
                    ruler,
                    TextRole::Editor,
                    text,
                    j,
                )
        }),
    decreases text.len() - i,
{
    if i < text.len() {
        let advance = unit_advance(ruler, TextRole::Editor, text, i);
        let next = unit_end(text, i);
        lemma_unit_end(text, i);
        assert(advance_before(ruler, text, next) == cursor + advance);
        if 2 * x * PIXEL < 2 * cursor + advance {
        } else if x * PIXEL < cursor + advance {
            assert(unit_end(text, i) == next);
            if next < text.len() {
                lemma_no_negative_advance(ruler, TextRole::Editor, text, next);
            }
        } else {
            lemma_char_at_x(ruler, text, next, cursor + advance, x);
            let k = char_at_x(ruler, text, next, cursor + advance, x);
            if k == next {
                assert(unit_end(text, i) == next);
            } else {
                let j = choose|j: int|
                    next <= j < text.len() && #[trigger] unit_end(text, j) == k && 2 * x * PIXEL
                        >= 2 * advance_before(ruler, text, j) + unit_advance(
                        ruler,
                        TextRole::Editor,
                        text,
                        j,
                    );
                assert(unit_end(text, j) == k);
            }
        }
    }
}

/// The place in a row that a point belongs to is the nearest one: the point lies
/// left of the middle of what is drawn behind that place, and not left of the
/// middle of what is drawn before it.
pub proof fn law_point_belongs_to_the_nearest_place(ruler: RulerModel, text: Seq<char>, x: int)
    ensures
        ({
            let k = char_at_x(ruler, text, 0, 0, x);
            &&& 0 <= k <= text.len()
            &&& k < text.len() ==> 2 * x * PIXEL < 2 * advance_before(ruler, text, k)
                + unit_advance(ruler, TextRole::Editor, text, k)
            &&& k > 0 ==> exists|j: int|
                0 <= j < text.len() && #[trigger] unit_end(text, j) == k && 2 * x * PIXEL >= 2
                    * advance_before(ruler, text, j) + unit_advance(
                    ruler,
                    TextRole::Editor,
                    text,
                    j,
                )
        }),
{
    lemma_char_at_x(ruler, text, 0, 0, x);
}

/// Rows are drawn below each other, each as high as the others.
pub proof fn law_rows_are_drawn_below_each_other(metrics: EditorMetrics, i: int)
    requires
        0 <= i,
        metrics.text_top + TEXT_MARGIN_Y + i * EDITOR_LINE_HEIGHT <= usize::MAX,
    ensures
        row_y(metrics, i) == metrics.text_top + 8 + 24 * i,
{
}

/// A point that is on the text within the height of a row belongs to a place in
/// that row, between characters, however far down in the row it is.
pub proof fn law_point_in_a_row_belongs_to_that_row(
    g: GuiModel,
    a: AppModel,
    width: int,
    height: int,
    x: int,
    y: int,
    i: int,
)
    requires
        document_valid(a.document),
        valid_utf8(a.document.bytes),
        a.document.bytes.len() <= usize::MAX,
        0 <= g.horizontal_offset,
        0 <= g.first_visible_line,
        0 <= width <= usize::MAX,
        0 <= height <= usize::MAX,
        0 <= x,
        layout_of(a, width, height) matches Some(metrics) && {
            let rows = shown_lines(g, a, metrics);
            &&& y < metrics.editor_bottom
            &&& x < metrics.text_width
            &&& 0 <= i < rows.len()
            &&& row_y(metrics, i) <= y < row_y(metrics, i) + EDITOR_LINE_HEIGHT
            &&& line_is_known(a.document, rows[i].number - 1)
        },
    ensures
        ({
            let row = shown_lines(g, a, layout_of(a, width, height)->0)[i];
            let offset = offset_at_point(g, a, width, height, x, y);
            &&& offset is Some
            &&& row.start <= offset->0 <= row.end
            &&& between_characters(a.document.bytes, offset->0, offset->0)
            &&& characters_between(a.document, row.start, offset->0) == char_at_x(
                g.ruler,
                row.text,
                0,
                0,
                crate::scroll::rest(x, TEXT_MARGIN_X as int),
            )
        }),
{
    let metrics = layout_of(a, width, height)->0;
    lemma_layout(a.settings.status_bar_visible, a.settings.word_wrap, width, height);
    let rows = shown_lines(g, a, metrics);
    let row = rows[i];
    let first = crate::pointer::first_row(g, a, metrics);
    law_rows_in_view_show_the_text(g, a, metrics, first);
    assert(row_shows_text(a.document, row));
    let top = metrics.text_top + TEXT_MARGIN_Y;
    assert(y <= usize::MAX);
    assert(i * EDITOR_LINE_HEIGHT == 24 * i);
    assert(row_y(metrics, i) == top + 24 * i);
    assert((y - top) / 24 == i);
    let target = crate::scroll::rest(x, TEXT_MARGIN_X as int);
    let k = char_at_x(g.ruler, row.text, 0, 0, target);
    law_point_belongs_to_the_nearest_place(g.ruler, row.text, target);
    lemma_line_span(a.document, row.number - 1);
    decode_utf8_encode_utf8(a.document.bytes.subrange(row.start, row.end));
    lemma_text_row(a.document.bytes, row.start, row.end, 1, 0, k);
    lemma_bytes_before(row.text, 0, k);
    lemma_bytes_before(row.text, k, row.text.len() as int);
    let at = row.start + bytes_before(row.text, k);
    assert(row.text.subrange(0, k) =~= row.text.take(k));
    lemma_boundary(a.document.bytes, at);
}

// ---------------------------------------------------------------------------
// The mouse
// ---------------------------------------------------------------------------

/// The window that a frame of the mouse is in, not smaller than windows are.
pub open spec fn frame_width(input: MouseInput) -> int {
    if input.width < 420 {
        420
    } else {
        input.width as int
    }
}

pub open spec fn frame_height(input: MouseInput) -> int {
    if input.height < 240 {
        240
    } else {
        input.height as int
    }
}

/// The mouse points at `offset` in the text, below the menu bar.
pub open spec fn points_at(g: GuiModel, a: AppModel, input: MouseInput, offset: int) -> bool {
    input.position matches Some((x, y)) && y >= MENU_HEIGHT && on_text(
        a,
        frame_width(input),
        frame_height(input),
        x as int,
        y as int,
    ) && offset_at_point(g, a, frame_width(input), frame_height(input), x as int, y as int) == Some(
        offset,
    )
}

/// Pressing the button on the text puts the caret there; with shift down the
/// text is selected from where the selection began, or from the caret.
pub proof fn law_pressing_on_the_text_places_the_caret(
    g: GuiModel,
    a: AppModel,
    input: MouseInput,
    offset: int,
)
    requires
        document_valid(a.document),
        input.down,
        !g.mouse_was_down,
        g.scroll_drag is None,
        !g.mouse_selecting,
        g.dialog is None,
        g.active_menu is None,
        points_at(g, a, input, offset),
        between_characters(a.document.bytes, offset, offset),
        offset <= usize::MAX,
        0 <= a.caret <= usize::MAX,
        between_characters(a.document.bytes, a.caret, a.caret),
        g.selection_anchor matches Some(anchor) ==> between_characters(
            a.document.bytes,
            anchor as int,
            anchor as int,
        ),
    ensures
        ({
            let outcome = moused(g, a, input);
            let anchor = if !input.shift {
                offset
            } else {
                match g.selection_anchor {
                    Some(anchor) => anchor as int,
                    None => a.caret,
                }
            };
            &&& outcome.error is None
            &&& outcome.chosen is None
            &&& outcome.app.document == a.document
            &&& outcome.app.settings == a.settings
            &&& outcome.app.caret == offset
            &&& outcome.gui.mouse_selecting
            &&& outcome.gui.selection_anchor == Some(anchor as usize)
            &&& anchor == offset ==> outcome.app.selection is None
            &&& anchor < offset ==> outcome.app.selection == Some((anchor, offset))
            &&& offset < anchor ==> outcome.app.selection == Some((offset, anchor))
        }),
{
    let (x, y) = input.position->0;
    let width = frame_width(input);
    let height = frame_height(input);
    let now = GuiModel { mouse_was_down: true, ..g };
    lemma_same_point(g, now, a, width, height, x as int, y as int);
    lemma_press_is_a_click(g, a, input);
    lemma_click_on_text(now, a, width, height, x as int, y as int, input.shift, offset);
}

proof fn lemma_click_on_text(
    g: GuiModel,
    a: AppModel,
    width: int,
    height: int,
    x: int,
    y: int,
    shift: bool,
    offset: int,
)
    requires
        document_valid(a.document),
        offset_at_point(g, a, width, height, x, y) == Some(offset),
        between_characters(a.document.bytes, offset, offset),
        offset <= usize::MAX,
        0 <= a.caret <= usize::MAX,
        between_characters(a.document.bytes, a.caret, a.caret),
        g.selection_anchor matches Some(anchor) ==> between_characters(
            a.document.bytes,
            anchor as int,
            anchor as int,
        ),
    ensures
        ({
            let outcome = text_clicked(g, a, width, height, x, y, shift);
            let anchor = if !shift {
                offset
            } else {
                match g.selection_anchor {
                    Some(anchor) => anchor as int,
                    None => a.caret,
                }
            };
            &&& outcome.2 is None
            &&& outcome.1.document == a.document
            &&& outcome.1.settings == a.settings
            &&& outcome.1.caret == offset
            &&& outcome.0.mouse_selecting
            &&& outcome.0.selection_anchor == Some(anchor as usize)
            &&& anchor == offset ==> outcome.1.selection is None
            &&& anchor < offset ==> outcome.1.selection == Some((anchor, offset))
            &&& offset < anchor ==> outcome.1.selection == Some((offset, anchor))
        }),
{
    let anchor = if !shift {
        offset
    } else {
        match g.selection_anchor {
            Some(anchor) => anchor as int,
            None => a.caret,
        }
    };
    law_selection_spans_both_ends(a, anchor, offset);
}

/// The text is no scrollbar.
proof fn lemma_text_is_no_scrollbar(g: GuiModel, a: AppModel, width: int, height: int, x: int, y: int)
    requires
        on_text(a, width, height, x, y),
        0 <= width <= usize::MAX,
        0 <= height <= usize::MAX,
    ensures
        !scrollbar_clicked(g, a, width, height, x, y).1,
{
    lemma_layout(a.settings.status_bar_visible, a.settings.word_wrap, width, height);
    let metrics = layout_of(a, width, height)->0;
    assert(!crate::pointer::on_vertical_bar(metrics, x, y));
    assert(!crate::pointer::on_horizontal_bar(metrics, x, y));
}

proof fn lemma_press_is_a_click(g: GuiModel, a: AppModel, input: MouseInput)
    requires
        input.down,
        !g.mouse_was_down,
        g.scroll_drag is None,
        !g.mouse_selecting,
        g.dialog is None,
        g.active_menu is None,
        input.position matches Some((x, y)) && y >= MENU_HEIGHT && on_text(
            a,
            frame_width(input),
            frame_height(input),
            x as int,
            y as int,
        ),
    ensures
        ({
            let (x, y) = input.position->0;
            let clicked = text_clicked(
                GuiModel { mouse_was_down: true, ..g },
                a,
                frame_width(input),
                frame_height(input),
                x as int,
                y as int,
                input.shift,
            );
            let outcome = moused(g, a, input);
            &&& outcome.gui == clicked.0
            &&& outcome.app == clicked.1
            &&& outcome.error == clicked.2
            &&& outcome.chosen is None
        }),
{
    let (x, y) = input.position->0;
    let now = GuiModel { mouse_was_down: true, ..g };
    let closed = GuiModel { active_menu: None, ..now };
    assert(closed == now);
    lemma_text_is_no_scrollbar(
        now,
        a,
        frame_width(input),
        frame_height(input),
        x as int,
        y as int,
    );
    assert(greater(input.width as int, crate::gui::MIN_WIDTH as int) == frame_width(input));
    assert(greater(input.height as int, crate::gui::MIN_HEIGHT as int) == frame_height(input));
    assert(moused(g, a, input) == crate::mouse::clicked(
        now,
        a,
        frame_width(input),
        frame_height(input),
        x as int,
        y as int,
        input.shift,
    ));
}

/// What is under a point depends on what is shown, and not on the mouse.
proof fn lemma_same_point(
    g: GuiModel,
    h: GuiModel,
    a: AppModel,
    width: int,
    height: int,
    x: int,
    y: int,
)
    requires
        h == (GuiModel { mouse_was_down: h.mouse_was_down, ..g }),
    ensures
        offset_at_point(h, a, width, height, x, y) == offset_at_point(g, a, width, height, x, y),
{
    if let Some(metrics) = layout_of(a, width, height) {
        assert(shown_lines(h, a, metrics) == shown_lines(g, a, metrics));
    }
}

/// While the button is held, the text is selected from where it was pressed to
/// where the mouse is now.
pub proof fn law_dragging_selects_up_to_the_mouse(
    g: GuiModel,
    a: AppModel,
    input: MouseInput,
    offset: int,
    anchor: usize,
)
    requires
        document_valid(a.document),
        input.down,
        g.scroll_drag is None,
        g.mouse_selecting,
        g.selection_anchor == Some(anchor),
        points_at(g, a, input, offset),
        between_characters(a.document.bytes, offset, offset),
        between_characters(a.document.bytes, anchor as int, anchor as int),
        offset <= usize::MAX,
        g.selection_focus != Some(offset as usize),
    ensures
        ({
            let outcome = moused(g, a, input);
            &&& outcome.error is None
            &&& outcome.chosen is None
            &&& outcome.app.document == a.document
            &&& outcome.app.caret == offset
            &&& outcome.gui.selection_anchor == Some(anchor)
            &&& outcome.gui.selection_focus == Some(offset as usize)
            &&& anchor == offset ==> outcome.app.selection is None
            &&& anchor < offset ==> outcome.app.selection == Some((anchor as int, offset))
            &&& offset < anchor ==> outcome.app.selection == Some((offset, anchor as int))
        }),
{
    let (x, y) = input.position->0;
    let width = frame_width(input);
    let height = frame_height(input);
    let now = GuiModel { mouse_was_down: true, ..g };
    lemma_same_point(g, now, a, width, height, x as int, y as int);
    law_selection_spans_both_ends(a, anchor as int, offset);
    let dragged = selection_dragged(now, a, width, height, x as int, y as int);
    assert(dragged.2 is None);
}

/// Letting the button go ends what it began, and changes nothing in the editor.
pub proof fn law_letting_go_ends_the_drag(g: GuiModel, a: AppModel, input: MouseInput)
    requires
        !input.down,
    ensures
        moused(g, a, input).app == a,
        moused(g, a, input).error is None,
        moused(g, a, input).chosen is None,
        moused(g, a, input).gui.scroll_drag is None,
        !moused(g, a, input).gui.mouse_selecting,
        !moused(g, a, input).gui.mouse_was_down,
        a.selection is Some ==> moused(g, a, input).gui.selection_anchor == g.selection_anchor,
{
}

/// The mouse never changes the text or the settings.
pub proof fn law_mouse_leaves_the_text(g: GuiModel, a: AppModel, input: MouseInput)
    ensures
        moused(g, a, input).app.document == a.document,
        moused(g, a, input).app.settings == a.settings,
        moused(g, a, input).gui.clipboard == g.clipboard,
{
    let now = GuiModel { mouse_was_down: input.down, ..g };
    if input.down {
        if let Some((x, y)) = input.position {
            let width = greater(input.width as int, 420);
            let height = greater(input.height as int, 240);
            lemma_scrolling_leaves_the_clipboard(now, a, width, height, x as int, y as int);
            lemma_scrolling_leaves_the_clipboard(
                GuiModel { active_menu: None, ..now },
                a,
                width,
                height,
                x as int,
                y as int,
            );
        }
    }
}

proof fn lemma_scrolling_leaves_the_clipboard(
    g: GuiModel,
    a: AppModel,
    width: int,
    height: int,
    x: int,
    y: int,
)
    ensures
        scrollbar_clicked(g, a, width, height, x, y).0.clipboard == g.clipboard,
        crate::pointer::scroll_dragged(g, a, width, height, x, y).clipboard == g.clipboard,
{
}

/// The wheel moves the view by the rows that it was turned, as far as there are
/// rows.
pub proof fn law_wheel_moves_the_view(
    g: GuiModel,
    a: AppModel,
    input: crate::mouse::WheelInput,
    width: int,
    height: int,
)
    requires
        0 <= g.first_visible_line <= usize::MAX,
        !input.shift,
        input.bytes == 0,
        0 <= g.first_visible_line + input.lines <= usize::MAX,
        input.lines != 0,
    ensures
        layout_of(a, width, height) matches Some(metrics) ==> {
            let rows = crate::gui::content_rows(g, a, metrics);
            let visible = metrics.visible_line_count as int;
            let last = if rows > visible {
                rows - visible
            } else {
                0
            };
            crate::mouse::wheeled(g, a, input, width, height).first_visible_line == (if
            g.first_visible_line + input.lines <= last {
                g.first_visible_line + input.lines
            } else {
                last
            })
        },
{
}

} // verus!

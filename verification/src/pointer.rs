//! What is where in the window: rows and offsets under a point, and the mouse.

use crate::app::{AppModel, BlitzApp};
use crate::document::{
    boundary_error, is_visible_line, visible_end, visible_start, DocumentModel, VisibleLine,
};
use crate::gui::{
    content_rows, horizontally_clamped, last_first_row, layout_of, lemma_rows_settled, rows_in_use,
    scrolled_to, with_rows, GuiModel, GuiState, ScrollDrag, EDITOR_BASELINE_OFFSET,
};
use crate::line_index::{lemma_line_at, line_at};
use crate::ruler::{char_at_x, fitting, measured, saturated, TextRole};
use crate::scroll::{
    byte_capacity, editor_metrics_from_flags, greater, greater_of, law_thumb_stays_on_track,
    lemma_layout, less, longest_line, max_visible_line_len, moved, offset_for_thumb, rest,
    scroll_thumb, smaller_of, thumb, thumb_offset, visible_byte_capacity, EditorMetrics,
    EDITOR_LINE_HEIGHT, SCROLLBAR_WIDTH, TEXT_MARGIN_X, TEXT_MARGIN_Y,
};
use crate::text::shown_text;
use crate::text_units::{bytes_before, characters, lemma_bytes_before};
use crate::wrap::{
    lines_rows, row_line, row_lines, row_position, window, wrapped_rows_from, RowLine,
};
use vstd::prelude::*;
use vstd::utf8::*;

verus! {

// ---------------------------------------------------------------------------
// Visible rows
// ---------------------------------------------------------------------------

/// Lines as they are shown unwrapped.
pub open spec fn unwrapped_rows(m: DocumentModel, first: int, max: int, horizontal: int) -> Seq<
    RowLine,
> {
    let count = if first < m.index.starts.len() {
        less(max, m.index.starts.len() - first)
    } else {
        0
    };
    Seq::new(
        count as nat,
        |i: int|
            RowLine {
                number: first + i + 1,
                start: visible_start(m, first + i, horizontal),
                end: visible_end(m, first + i, horizontal),
                text: shown_text(
                    m.bytes.subrange(
                        visible_start(m, first + i, horizontal),
                        visible_end(m, first + i, horizontal),
                    ),
                ),
            },
    )
}

/// The rows in view from row `first` on.
pub open spec fn rows_in_view(g: GuiModel, a: AppModel, metrics: EditorMetrics, first: int) -> Seq<
    RowLine,
> {
    if a.settings.word_wrap {
        let (line, skip) = row_position(rows_in_use(g, a, metrics), first);
        window(
            lines_rows(
                g.ruler,
                a.document,
                line,
                a.document.index.starts.len() as int,
                metrics.editor_text_width as int,
            ),
            skip,
            metrics.visible_line_count as int,
        )
    } else {
        unwrapped_rows(
            a.document,
            first,
            metrics.visible_line_count as int,
            g.horizontal_offset,
        )
    }
}

/// The row that the view begins with.
pub open spec fn first_row(g: GuiModel, a: AppModel, metrics: EditorMetrics) -> int {
    less(g.first_visible_line, last_first_row(g, a, metrics))
}

/// The rows in view.
pub open spec fn shown_lines(g: GuiModel, a: AppModel, metrics: EditorMetrics) -> Seq<RowLine> {
    rows_in_view(g, a, metrics, first_row(g, a, metrics))
}

/// The rows from `first_visible_line` on that fit into the window.
pub fn editor_visible_lines(
    app: &BlitzApp,
    first_visible_line: usize,
    metrics: EditorMetrics,
    gui_state: &mut GuiState,
) -> (rows: Vec<VisibleLine>)
    requires
        app.wf(),
    ensures
        final(gui_state)@ == with_rows(old(gui_state)@, app@, metrics),
        row_lines(rows@) == rows_in_view(
            old(gui_state)@,
            app@,
            metrics,
            first_visible_line as int,
        ),
{
    if !app.settings().word_wrap {
        let rows = app.document().visible_lines_at(
            first_visible_line,
            metrics.visible_line_count,
            gui_state.horizontal_offset,
        );
        proof {
            let shown = unwrapped_rows(
                app@.document,
                first_visible_line as int,
                metrics.visible_line_count as int,
                gui_state@.horizontal_offset,
            );
            assert forall|i: int| 0 <= i < rows@.len() implies #[trigger] row_lines(rows@)[i]
                == shown[i] by {
                assert(is_visible_line(
                    rows@[i],
                    app@.document,
                    first_visible_line + i,
                    gui_state@.horizontal_offset,
                ));
            }
            assert(row_lines(rows@) =~= shown);
        }
        return rows;
    }
    gui_state.refresh_rows(app, metrics);
    let (line, skip) = match &gui_state.wrapped_row_index {
        Some(index) => index.line_for_visual_row(first_visible_line),
        None => (0, 0),
    };
    wrapped_rows_from(
        app.document(),
        &gui_state.ruler,
        line,
        skip,
        metrics.visible_line_count,
        metrics.editor_text_width,
    )
}

/// The rows in view.
pub(crate) fn lines_in_view(app: &BlitzApp, metrics: EditorMetrics, gui_state: &mut GuiState) -> (rows: Vec<
    VisibleLine,
>)
    requires
        app.wf(),
    ensures
        final(gui_state)@ == with_rows(old(gui_state)@, app@, metrics),
        row_lines(rows@) == shown_lines(old(gui_state)@, app@, metrics),
{
    let last: usize = gui_state.max_first_visible_line(app, metrics);
    proof {
        lemma_rows_settled(old(gui_state)@, gui_state@, app@, metrics);
    }
    let first: usize = smaller_of(gui_state.first_visible_line, last);
    editor_visible_lines(app, first, metrics, gui_state)
}

/// The caret is in a row.
pub open spec fn holds_caret(row: RowLine, caret_line: int, caret: int) -> bool {
    row.number == caret_line && row.start <= caret < row.end
}

/// The caret is at the end of a row.
pub open spec fn ends_at_caret(row: RowLine, caret_line: int, caret: int) -> bool {
    row.number == caret_line && caret == row.end
}

/// The last of the first `n` rows that holds the caret.
pub open spec fn last_holding(rows: Seq<RowLine>, caret_line: int, caret: int, n: int) -> Option<int>
    decreases n,
{
    if n <= 0 {
        None
    } else if holds_caret(rows[n - 1], caret_line, caret) {
        Some(n - 1)
    } else {
        last_holding(rows, caret_line, caret, n - 1)
    }
}

/// The last of the first `n` rows that ends at the caret.
pub open spec fn last_ending(rows: Seq<RowLine>, caret_line: int, caret: int, n: int) -> Option<int>
    decreases n,
{
    if n <= 0 {
        None
    } else if ends_at_caret(rows[n - 1], caret_line, caret) {
        Some(n - 1)
    } else {
        last_ending(rows, caret_line, caret, n - 1)
    }
}

/// The row that the caret is shown in: one that holds it before one that ends
/// at it.
pub open spec fn caret_row(rows: Seq<RowLine>, caret_line: int, caret: int) -> Option<int> {
    match last_holding(rows, caret_line, caret, rows.len() as int) {
        Some(i) => Some(i),
        None => last_ending(rows, caret_line, caret, rows.len() as int),
    }
}

pub fn visible_line_index_for_caret(
    visible_lines: &Vec<VisibleLine>,
    caret_line: usize,
    caret_offset: usize,
) -> (index: Option<usize>)
    ensures
        crate::search::opt_int(index) == caret_row(
            row_lines(visible_lines@),
            caret_line as int,
            caret_offset as int,
        ),
        index matches Some(i) ==> i < visible_lines@.len(),
{
    let ghost rows = row_lines(visible_lines@);
    let mut i: usize = visible_lines.len();
    while i > 0
        invariant
            rows == row_lines(visible_lines@),
            i <= visible_lines@.len(),
            last_holding(rows, caret_line as int, caret_offset as int, rows.len() as int)
                == last_holding(rows, caret_line as int, caret_offset as int, i as int),
        decreases i,
    {
        let line = &visible_lines[i - 1];
        assert(rows[i - 1] == row_line(*line));
        if line.number == caret_line && caret_offset >= line.byte_range.start && caret_offset
            < line.byte_range.end {
            return Some(i - 1);
        }
        i -= 1;
    }
    let mut k: usize = visible_lines.len();
    while k > 0
        invariant
            rows == row_lines(visible_lines@),
            k <= visible_lines@.len(),
            last_holding(rows, caret_line as int, caret_offset as int, rows.len() as int) is None,
            last_ending(rows, caret_line as int, caret_offset as int, rows.len() as int)
                == last_ending(rows, caret_line as int, caret_offset as int, k as int),
        decreases k,
    {
        let line = &visible_lines[k - 1];
        assert(rows[k - 1] == row_line(*line));
        if line.number == caret_line && caret_offset == line.byte_range.end {
            return Some(k - 1);
        }
        k -= 1;
    }
    None
}

// ---------------------------------------------------------------------------
// Text before the caret
// ---------------------------------------------------------------------------

/// The character at byte `offset`, looked for from character `i` on.
pub open spec fn char_at_byte(text: Seq<char>, i: int, offset: int) -> Option<int>
    decreases text.len() - i,
{
    if bytes_before(text, i) == offset {
        Some(i)
    } else if i < text.len() {
        char_at_byte(text, i + 1, offset)
    } else {
        None
    }
}

/// The first `len` bytes of a text, or none where they end within a character.
pub open spec fn bytes_prefix(text: Seq<char>, len: int) -> Option<Seq<char>> {
    match char_at_byte(text, 0, len) {
        Some(i) => Some(text.take(i)),
        None => None,
    }
}

/// The characters of a text from byte `start` to byte `end`.
pub open spec fn bytes_part(text: Seq<char>, start: int, end: int) -> Option<Seq<char>> {
    match (char_at_byte(text, 0, start), char_at_byte(text, 0, end)) {
        (Some(i), Some(j)) => if i <= j {
            Some(text.subrange(i, j))
        } else {
            None
        },
        _ => None,
    }
}

pub(crate) fn find_char_at_byte(text: &Vec<char>, offset: usize) -> (index: Option<usize>)
    requires
        encode_utf8(text@).len() <= usize::MAX,
    ensures
        crate::search::opt_int(index) == char_at_byte(text@, 0, offset as int),
        index matches Some(i) ==> i <= text@.len(),
{
    let mut at: usize = 0;
    let mut i: usize = 0;
    proof {
        lemma_bytes_before(text@, 0, 0);
    }
    while i < text.len()
        invariant
            encode_utf8(text@).len() <= usize::MAX,
            i <= text@.len(),
            at == bytes_before(text@, i as int),
            char_at_byte(text@, 0, offset as int) == char_at_byte(text@, i as int, offset as int),
        decreases text@.len() - i,
    {
        if at == offset {
            return Some(i);
        }
        proof {
            lemma_bytes_before(text@, i as int, i + 1);
        }
        at += crate::text::char_width(text[i]);
        i += 1;
    }
    if at == offset {
        Some(i)
    } else {
        None
    }
}

/// The text of a row before the caret: all of it where the caret is within a
/// character.
pub open spec fn text_before(row: RowLine, caret: int) -> Seq<char> {
    let local = less(rest(caret, row.start), encode_utf8(row.text).len() as int);
    match bytes_prefix(row.text, local) {
        Some(prefix) => prefix,
        None => row.text,
    }
}

pub(crate) fn row_text_before(row: &VisibleLine, caret: usize) -> (prefix: String)
    ensures
        prefix@ == text_before(row_line(*row), caret as int),
{
    let chars = characters(row.text.as_str());
    let len: usize = row.text.as_str().as_bytes().len();
    let local: usize = smaller_of(caret.saturating_sub(row.byte_range.start), len);
    match find_char_at_byte(&chars, local) {
        Some(i) => {
            assert(row.text@.take(i as int) =~= row.text@.subrange(0, i as int));
            crate::ruler::string_of(&chars, 0, i)
        },
        None => {
            assert(row.text@.subrange(0, row.text@.len() as int) =~= row.text@);
            crate::ruler::string_of(&chars, 0, chars.len())
        },
    }
}

/// Where the caret is drawn in its row.
pub open spec fn caret_x(g: GuiModel, row: RowLine, caret: int, metrics: EditorMetrics) -> int {
    less(
        saturated(
            TEXT_MARGIN_X + measured(
                g.ruler,
                TextRole::Editor,
                fitting(
                    g.ruler,
                    TextRole::Editor,
                    text_before(row, caret),
                    metrics.editor_text_width as int,
                ),
            ),
        ),
        saturated(TEXT_MARGIN_X + metrics.editor_text_width),
    )
}

pub(crate) fn caret_x_in_row(
    gui_state: &GuiState,
    row: &VisibleLine,
    caret: usize,
    metrics: EditorMetrics,
) -> (x: usize)
    ensures
        x == caret_x(gui_state@, row_line(*row), caret as int, metrics),
{
    let prefix = row_text_before(row, caret);
    let visible = gui_state.ruler.text_prefix_for_width(
        prefix.as_str(),
        TextRole::Editor,
        metrics.editor_text_width,
    );
    let width: usize = gui_state.ruler.measure(visible.as_str(), TextRole::Editor);
    smaller_of(
        TEXT_MARGIN_X.saturating_add(width),
        TEXT_MARGIN_X.saturating_add(metrics.editor_text_width),
    )
}

/// The top of the row with a given number in the view.
pub open spec fn row_y(metrics: EditorMetrics, i: int) -> int {
    saturated(metrics.text_top + TEXT_MARGIN_Y + saturated(i * EDITOR_LINE_HEIGHT))
}

pub(crate) fn top_of_row(metrics: EditorMetrics, i: usize) -> (y: usize)
    ensures
        y == row_y(metrics, i as int),
{
    let down: usize = match i.checked_mul(EDITOR_LINE_HEIGHT) {
        Some(down) => down,
        None => usize::MAX,
    };
    metrics.text_top.saturating_add(TEXT_MARGIN_Y).saturating_add(down)
}

/// Where an input method writes for a row at `line_top`.
pub fn editor_ime_y(line_top: usize) -> (y: usize)
    ensures
        y == saturated(line_top + EDITOR_BASELINE_OFFSET),
{
    line_top.saturating_add(EDITOR_BASELINE_OFFSET)
}

/// Where an input method writes.
pub open spec fn ime_point(g: GuiModel, a: AppModel, width: int, height: int) -> Option<(int, int)> {
    match layout_of(a, width, height) {
        None => None,
        Some(metrics) => {
            let rows = shown_lines(g, a, metrics);
            if rows.len() == 0 {
                Some(
                    (
                        TEXT_MARGIN_X as int,
                        saturated(row_y(metrics, 0) + EDITOR_BASELINE_OFFSET),
                    ),
                )
            } else if boundary_error(a.document.bytes, a.caret) is Some {
                None
            } else {
                match caret_row(rows, line_at(a.document.index.starts, a.caret) + 1, a.caret) {
                    None => None,
                    Some(i) => Some(
                        (
                            caret_x(g, rows[i], a.caret, metrics),
                            saturated(row_y(metrics, i) + EDITOR_BASELINE_OFFSET),
                        ),
                    ),
                }
            }
        },
    }
}

pub open spec fn point_model(point: Option<(usize, usize)>) -> Option<(int, int)> {
    match point {
        Some((x, y)) => Some((x as int, y as int)),
        None => None,
    }
}

/// The state with its rows refreshed where there is a view.
pub open spec fn viewed(g: GuiModel, a: AppModel, width: int, height: int) -> GuiModel {
    match layout_of(a, width, height) {
        None => g,
        Some(metrics) => with_rows(g, a, metrics),
    }
}

pub fn editor_ime_caret_point(
    app: &BlitzApp,
    gui_state: &mut GuiState,
    width: usize,
    height: usize,
) -> (point: Option<(usize, usize)>)
    requires
        app.wf(),
    ensures
        final(gui_state)@ == viewed(old(gui_state)@, app@, width as int, height as int),
        point_model(point) == ime_point(old(gui_state)@, app@, width as int, height as int),
{
    let metrics = editor_metrics_from_flags(
        app.settings().status_bar_visible,
        app.settings().word_wrap,
        width,
        height,
    )?;
    let rows = lines_in_view(app, metrics, gui_state);
    let ghost models = shown_lines(old(gui_state)@, app@, metrics);
    assert(models.len() == rows@.len());
    if rows.len() == 0 {
        return Some((TEXT_MARGIN_X, editor_ime_y(top_of_row(metrics, 0))));
    }
    let caret: usize = app.caret_offset();
    let line: usize = match app.document().line_for_offset(caret) {
        Ok(line) => line,
        Err(_) => {
            return None;
        },
    };
    let count: usize = app.document().line_count();
    proof {
        app.lemma_valid();
        lemma_line_at(app@.document.index.starts, caret as int);
    }
    let index: usize = match visible_line_index_for_caret(&rows, line + 1, caret) {
        Some(index) => index,
        None => {
            return None;
        },
    };
    assert(models[index as int] == row_line(rows@[index as int]));
    let x: usize = caret_x_in_row(gui_state, &rows[index], caret, metrics);
    Some((x, editor_ime_y(top_of_row(metrics, index))))
}

/// The offset in the text under a point, if the point is on the text.
pub open spec fn offset_at_point(
    g: GuiModel,
    a: AppModel,
    width: int,
    height: int,
    x: int,
    y: int,
) -> Option<int> {
    match layout_of(a, width, height) {
        None => None,
        Some(metrics) => {
            let top = metrics.text_top + TEXT_MARGIN_Y;
            let rows = shown_lines(g, a, metrics);
            let i = (y - top) / (EDITOR_LINE_HEIGHT as int);
            if y < top || y >= metrics.editor_bottom || x >= metrics.text_width {
                None
            } else if i >= rows.len() {
                Some(0)
            } else {
                Some(
                    saturated(
                        rows[i].start + bytes_before(
                            rows[i].text,
                            char_at_x(
                                g.ruler,
                                rows[i].text,
                                0,
                                0,
                                rest(x, TEXT_MARGIN_X as int),
                            ),
                        ),
                    ),
                )
            }
        },
    }
}

/// A point is on the text.
pub open spec fn on_text(a: AppModel, width: int, height: int, x: int, y: int) -> bool {
    match layout_of(a, width, height) {
        None => false,
        Some(metrics) => {
            &&& y >= metrics.text_top + TEXT_MARGIN_Y
            &&& y < metrics.editor_bottom
            &&& x < metrics.text_width
        },
    }
}

pub fn text_offset_for_point(
    app: &BlitzApp,
    gui_state: &mut GuiState,
    width: usize,
    height: usize,
    x: usize,
    y: usize,
) -> (offset: Option<usize>)
    requires
        app.wf(),
    ensures
        final(gui_state)@ == (if on_text(
            app@,
            width as int,
            height as int,
            x as int,
            y as int,
        ) {
            viewed(old(gui_state)@, app@, width as int, height as int)
        } else {
            old(gui_state)@
        }),
        crate::search::opt_int(offset) == offset_at_point(
            old(gui_state)@,
            app@,
            width as int,
            height as int,
            x as int,
            y as int,
        ),
{
    let metrics = editor_metrics_from_flags(
        app.settings().status_bar_visible,
        app.settings().word_wrap,
        width,
        height,
    )?;
    proof {
        lemma_layout(
            app@.settings.status_bar_visible,
            app@.settings.word_wrap,
            width as int,
            height as int,
        );
    }
    let top: usize = metrics.text_top + TEXT_MARGIN_Y;
    if y < top || y >= metrics.editor_bottom || x >= metrics.text_width {
        return None;
    }
    let i: usize = (y - top) / EDITOR_LINE_HEIGHT;
    let rows = lines_in_view(app, metrics, gui_state);
    let ghost models = shown_lines(old(gui_state)@, app@, metrics);
    assert(models.len() == rows@.len());
    if i >= rows.len() {
        return Some(0);
    }
    assert(models[i as int] == row_line(rows@[i as int]));
    let target: usize = x.saturating_sub(TEXT_MARGIN_X);
    Some(
        gui_state.ruler.offset_for_x(rows[i].text.as_str(), rows[i].byte_range.start, target),
    )
}

// ---------------------------------------------------------------------------
// Scrollbars
// ---------------------------------------------------------------------------

/// The thumb of the vertical scrollbar.
pub open spec fn vertical_thumb(g: GuiModel, a: AppModel, metrics: EditorMetrics) -> (int, int) {
    thumb(
        metrics.text_top as int,
        metrics.text_height as int,
        content_rows(g, a, metrics),
        metrics.visible_line_count as int,
        g.first_visible_line,
    )
}

/// How many bytes of a line are taken to be visible, and how many there are to
/// scroll through.
pub open spec fn horizontal_extent(g: GuiModel, a: AppModel, metrics: EditorMetrics) -> (int, int) {
    let visible = byte_capacity(g.ruler, metrics.editor_text_width as int);
    (
        visible,
        greater(
            longest_line(
                a.document,
                g.first_visible_line,
                metrics.visible_line_count as int,
            ),
            visible,
        ),
    )
}

/// The thumb of the horizontal scrollbar.
pub open spec fn horizontal_thumb(g: GuiModel, a: AppModel, metrics: EditorMetrics) -> (int, int) {
    let (visible, all) = horizontal_extent(g, a, metrics);
    thumb(0, metrics.text_width as int, all, visible, g.horizontal_offset)
}

/// A point is on the vertical scrollbar.
pub open spec fn on_vertical_bar(metrics: EditorMetrics, x: int, y: int) -> bool {
    x >= metrics.text_width && metrics.text_top <= y < metrics.editor_bottom
}

/// A point is on the horizontal scrollbar.
pub open spec fn on_horizontal_bar(metrics: EditorMetrics, x: int, y: int) -> bool {
    match metrics.horizontal_scroll_y {
        Some(top) => top <= y < top + SCROLLBAR_WIDTH && x < metrics.text_width,
        None => false,
    }
}

/// A click on a scrollbar: on the thumb takes hold of it, beside it moves by a
/// page. The answer says whether a scrollbar was hit.
pub open spec fn scrollbar_clicked(
    g: GuiModel,
    a: AppModel,
    width: int,
    height: int,
    x: int,
    y: int,
) -> (GuiModel, bool) {
    match layout_of(a, width, height) {
        None => (g, false),
        Some(metrics) => {
            let visible = metrics.visible_line_count as int;
            if on_vertical_bar(metrics, x, y) {
                let fresh = with_rows(g, a, metrics);
                let (top, len) = vertical_thumb(g, a, metrics);
                if top <= y < top + len {
                    (
                        GuiModel {
                            scroll_drag: Some(
                                ScrollDrag::Vertical { grab_offset: (y - top) as usize },
                            ),
                            ..fresh
                        },
                        true,
                    )
                } else {
                    (
                        scrolled_to(
                            g,
                            a,
                            moved(
                                g.first_visible_line,
                                if y < top {
                                    -visible
                                } else {
                                    visible
                                },
                            ),
                            metrics,
                        ),
                        true,
                    )
                }
            } else if on_horizontal_bar(metrics, x, y) {
                let page = horizontal_extent(g, a, metrics).0;
                let (left, len) = horizontal_thumb(g, a, metrics);
                if left <= x < left + len {
                    (
                        GuiModel {
                            scroll_drag: Some(
                                ScrollDrag::Horizontal { grab_offset: (x - left) as usize },
                            ),
                            ..g
                        },
                        true,
                    )
                } else {
                    (
                        horizontally_clamped(
                            GuiModel {
                                horizontal_offset: moved(
                                    g.horizontal_offset,
                                    if x < left {
                                        -page
                                    } else {
                                        page
                                    },
                                ),
                                ..g
                            },
                            a,
                            visible,
                        ),
                        true,
                    )
                }
            } else {
                (g, false)
            }
        },
    }
}

fn click_vertical(
    app: &BlitzApp,
    gui_state: &mut GuiState,
    metrics: EditorMetrics,
    y: usize,
)
    requires
        app.wf(),
        metrics.text_top + metrics.text_height <= usize::MAX,
        metrics.text_height > 0,
    ensures
        ({
            let g = old(gui_state)@;
            let visible = metrics.visible_line_count as int;
            let (top, len) = vertical_thumb(g, app@, metrics);
            final(gui_state)@ == (if top <= y < top + len {
                GuiModel {
                    scroll_drag: Some(ScrollDrag::Vertical { grab_offset: (y - top) as usize }),
                    ..with_rows(g, app@, metrics)
                }
            } else {
                scrolled_to(
                    g,
                    app@,
                    moved(
                        g.first_visible_line,
                        if y < top {
                            -visible
                        } else {
                            visible
                        },
                    ),
                    metrics,
                )
            })
        }),
{
    let content_len: usize = gui_state.vertical_content_len(app, metrics);
    proof {
        lemma_rows_settled(old(gui_state)@, gui_state@, app@, metrics);
    }
    let (thumb_y, thumb_height) = scroll_thumb(
        metrics.text_top,
        metrics.text_height,
        content_len,
        metrics.visible_line_count,
        gui_state.first_visible_line,
    );
    if y >= thumb_y && y - thumb_y < thumb_height {
        gui_state.scroll_drag = Some(ScrollDrag::Vertical { grab_offset: y - thumb_y });
    } else if y < thumb_y {
        let row: usize = gui_state.first_visible_line.saturating_sub(metrics.visible_line_count);
        gui_state.scroll_to(app, row, metrics);
    } else {
        let row: usize = gui_state.first_visible_line.saturating_add(metrics.visible_line_count);
        gui_state.scroll_to(app, row, metrics);
    }
}

fn click_horizontal(
    app: &BlitzApp,
    gui_state: &mut GuiState,
    metrics: EditorMetrics,
    x: usize,
)
    requires
        app.wf(),
    ensures
        ({
            let g = old(gui_state)@;
            let page = horizontal_extent(g, app@, metrics).0;
            let (left, len) = horizontal_thumb(g, app@, metrics);
            final(gui_state)@ == (if left <= x < left + len {
                GuiModel {
                    scroll_drag: Some(ScrollDrag::Horizontal { grab_offset: (x - left) as usize }),
                    ..g
                }
            } else {
                horizontally_clamped(
                    GuiModel {
                        horizontal_offset: moved(
                            g.horizontal_offset,
                            if x < left {
                                -page
                            } else {
                                page
                            },
                        ),
                        ..g
                    },
                    app@,
                    metrics.visible_line_count as int,
                )
            })
        }),
{
    let longest: usize = max_visible_line_len(
        app.document(),
        gui_state.first_visible_line,
        metrics.visible_line_count,
    );
    let page: usize = visible_byte_capacity(&gui_state.ruler, metrics.editor_text_width);
    let (thumb_x, thumb_width) = scroll_thumb(
        0,
        metrics.text_width,
        greater_of(longest, page),
        page,
        gui_state.horizontal_offset,
    );
    if x >= thumb_x && x - thumb_x < thumb_width {
        gui_state.scroll_drag = Some(ScrollDrag::Horizontal { grab_offset: x - thumb_x });
    } else if x < thumb_x {
        gui_state.horizontal_offset = gui_state.horizontal_offset.saturating_sub(page);
        gui_state.clamp_horizontal(app, metrics.visible_line_count);
    } else {
        gui_state.horizontal_offset = gui_state.horizontal_offset.saturating_add(page);
        gui_state.clamp_horizontal(app, metrics.visible_line_count);
    }
}

/// A click on a scrollbar.
pub fn handle_scrollbar_click(
    app: &BlitzApp,
    gui_state: &mut GuiState,
    width: usize,
    height: usize,
    x: usize,
    y: usize,
) -> (hit: bool)
    requires
        app.wf(),
    ensures
        ({
            let outcome = scrollbar_clicked(
                old(gui_state)@,
                app@,
                width as int,
                height as int,
                x as int,
                y as int,
            );
            &&& final(gui_state)@ == outcome.0
            &&& hit == outcome.1
        }),
{
    let metrics = match editor_metrics_from_flags(
        app.settings().status_bar_visible,
        app.settings().word_wrap,
        width,
        height,
    ) {
        Some(metrics) => metrics,
        None => {
            return false;
        },
    };
    proof {
        lemma_layout(
            app@.settings.status_bar_visible,
            app@.settings.word_wrap,
            width as int,
            height as int,
        );
    }
    if x >= metrics.text_width && y >= metrics.text_top && y < metrics.editor_bottom {
        click_vertical(app, gui_state, metrics, y);
        return true;
    }
    if let Some(scroll_y) = metrics.horizontal_scroll_y {
        if y >= scroll_y && y - scroll_y < SCROLLBAR_WIDTH && x < metrics.text_width {
            click_horizontal(app, gui_state, metrics, x);
            return true;
        }
    }
    false
}

/// Where a dragged thumb comes to lie.
pub open spec fn dragged_to(position: int, grab: int, low: int, high: int) -> int {
    greater(less(rest(position, grab), high), low)
}

/// The view after the mouse has moved with a thumb.
pub open spec fn scroll_dragged(
    g: GuiModel,
    a: AppModel,
    width: int,
    height: int,
    x: int,
    y: int,
) -> GuiModel {
    match layout_of(a, width, height) {
        None => g,
        Some(metrics) => match g.scroll_drag {
            Some(ScrollDrag::Vertical { grab_offset }) => {
                let len = vertical_thumb(g, a, metrics).1;
                scrolled_to(
                    g,
                    a,
                    thumb_offset(
                        metrics.text_top as int,
                        metrics.text_height as int,
                        len,
                        content_rows(g, a, metrics),
                        metrics.visible_line_count as int,
                        dragged_to(
                            y,
                            grab_offset as int,
                            metrics.text_top as int,
                            metrics.editor_bottom - len,
                        ),
                    ),
                    metrics,
                )
            },
            Some(ScrollDrag::Horizontal { grab_offset }) => {
                let (visible, all) = horizontal_extent(g, a, metrics);
                let len = horizontal_thumb(g, a, metrics).1;
                horizontally_clamped(
                    GuiModel {
                        horizontal_offset: thumb_offset(
                            0,
                            metrics.text_width as int,
                            len,
                            all,
                            visible,
                            dragged_to(x, grab_offset as int, 0, rest(metrics.text_width as int, len)),
                        ),
                        ..g
                    },
                    a,
                    metrics.visible_line_count as int,
                )
            },
            None => g,
        },
    }
}

/// Moves the view with a dragged thumb.
pub fn update_scroll_drag(
    app: &BlitzApp,
    gui_state: &mut GuiState,
    width: usize,
    height: usize,
    x: usize,
    y: usize,
)
    requires
        app.wf(),
    ensures
        final(gui_state)@.active_menu == old(gui_state)@.active_menu,
        final(gui_state)@ == scroll_dragged(
            old(gui_state)@,
            app@,
            width as int,
            height as int,
            x as int,
            y as int,
        ),
{
    let metrics = match editor_metrics_from_flags(
        app.settings().status_bar_visible,
        app.settings().word_wrap,
        width,
        height,
    ) {
        Some(metrics) => metrics,
        None => {
            return;
        },
    };
    proof {
        lemma_layout(
            app@.settings.status_bar_visible,
            app@.settings.word_wrap,
            width as int,
            height as int,
        );
    }
    match gui_state.scroll_drag {
        Some(ScrollDrag::Vertical { grab_offset }) => {
            let content_len: usize = gui_state.vertical_content_len(app, metrics);
            proof {
                lemma_rows_settled(old(gui_state)@, gui_state@, app@, metrics);
                law_thumb_stays_on_track(
                    metrics.text_top as int,
                    metrics.text_height as int,
                    content_len as int,
                    metrics.visible_line_count as int,
                    gui_state.first_visible_line as int,
                );
            }
            let (thumb_y, thumb_height) = scroll_thumb(
                metrics.text_top,
                metrics.text_height,
                content_len,
                metrics.visible_line_count,
                gui_state.first_visible_line,
            );
            let position: usize = greater_of(
                smaller_of(y.saturating_sub(grab_offset), metrics.editor_bottom - thumb_height),
                metrics.text_top,
            );
            let row: usize = offset_for_thumb(
                metrics.text_top,
                metrics.text_height,
                thumb_height,
                content_len,
                metrics.visible_line_count,
                position,
            );
            gui_state.scroll_to(app, row, metrics);
        },
        Some(ScrollDrag::Horizontal { grab_offset }) => {
            let longest: usize = max_visible_line_len(
                app.document(),
                gui_state.first_visible_line,
                metrics.visible_line_count,
            );
            let page: usize = visible_byte_capacity(&gui_state.ruler, metrics.editor_text_width);
            let all: usize = greater_of(longest, page);
            let (thumb_x, thumb_width) = scroll_thumb(
                0,
                metrics.text_width,
                all,
                page,
                gui_state.horizontal_offset,
            );
            let position: usize = greater_of(
                smaller_of(
                    x.saturating_sub(grab_offset),
                    metrics.text_width.saturating_sub(thumb_width),
                ),
                0,
            );
            gui_state.horizontal_offset = offset_for_thumb(
                0,
                metrics.text_width,
                thumb_width,
                all,
                page,
                position,
            );
            gui_state.clamp_horizontal(app, metrics.visible_line_count);
        },
        None => {},
    }
}

} // verus!

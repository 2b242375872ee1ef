//! How the editor's window is drawn.

use crate::app::{is_ui_state, AppModel, BlitzApp};
use crate::document::{caret_error, VisibleLine};
use crate::error::{fails_as, Result};
use crate::gui::{lemma_rows_settled, with_rows, GuiModel, GuiState};
use crate::jobs::{bar_texts, status_bar_cells};
use crate::menu::{
    app_rows, are_titles, heading, menu_metrics, menu_rows, menu_titles, menu_width, row_model,
    rows_bottom, rows_model, shortcut_column, title_width, title_x, MenuMetrics, MenuRow, RowModel,
    MENU_COUNT, MENU_ITEM_HEIGHT, MENU_SEPARATOR_HEIGHT,
};
use crate::pointer::{
    bytes_part, bytes_prefix, caret_row, caret_x, caret_x_in_row, find_char_at_byte,
    horizontal_thumb, lines_in_view, row_y, shown_lines, top_of_row, vertical_thumb,
    visible_line_index_for_caret,
};
use crate::ruler::{measured, saturated, string_of, Ruler, RulerModel, TextRole};
use crate::scroll::{
    editor_layout, editor_metrics_from_flags, greater, greater_of, lemma_layout, less,
    max_visible_line_len, dropdown_top, menu_top, rest, scroll_thumb, smaller_of,
    visible_byte_capacity, EditorMetrics, EDITOR_LINE_HEIGHT, MENU_HEIGHT, SCROLLBAR_WIDTH,
    STATUS_HEIGHT, TEXT_MARGIN_X,
};
use crate::sketch::{
    filled, framed, lined, written, Mark, Sketch, COLOR_BORDER, COLOR_CARET, COLOR_DISABLED_TEXT,
    COLOR_DROPDOWN, COLOR_MENU_OPEN, COLOR_SCROLLBAR, COLOR_SCROLL_THUMB, COLOR_SELECTION,
    COLOR_STATUS, COLOR_TEXT, COLOR_TEXT_AREA, COLOR_WINDOW,
};
use crate::text::texts;
use crate::text_units::characters;
use crate::ui::NotepadUiState;
use crate::wrap::{row_line, row_lines, RowLine};
use vstd::prelude::*;
use vstd::utf8::*;

verus! {

pub const CARET_HEIGHT: usize = 22;

// ---------------------------------------------------------------------------
// The menu bar and the status bar
// ---------------------------------------------------------------------------

/// The first `n` headings; the one of the open menu is marked.
pub open spec fn headings_drawn(
    s: Seq<Mark>,
    ruler: RulerModel,
    active: Option<usize>,
    n: int,
) -> Seq<Mark>
    decreases n,
{
    if n <= 0 {
        s
    } else {
        let before = headings_drawn(s, ruler, active, n - 1);
        let x = title_x(ruler, n - 1);
        let marked = match active {
            Some(i) => if i == n - 1 {
                filled(before, x, 1, title_width(ruler, n - 1), MENU_HEIGHT - 2, COLOR_MENU_OPEN)
            } else {
                before
            },
            None => before,
        };
        written(marked, saturated(x + 8), 7, heading(n - 1), COLOR_TEXT, TextRole::Ui)
    }
}

/// The cells of the status bar from cell `i` at `x` on, as long as they begin
/// within the window.
pub open spec fn cells_drawn(
    s: Seq<Mark>,
    ruler: RulerModel,
    cells: Seq<Seq<char>>,
    i: int,
    x: int,
    width: int,
    height: int,
) -> Seq<Mark>
    decreases cells.len() - i,
{
    if 0 <= i < cells.len() {
        let y = height - STATUS_HEIGHT;
        let divided = if x > 10 {
            lined(s, rest(x, 12), y, rest(x, 12), height, COLOR_BORDER)
        } else {
            s
        };
        let drawn = written(divided, x, y + 7, cells[i], COLOR_TEXT, TextRole::Ui);
        let next = saturated(x + saturated(measured(ruler, TextRole::Ui, cells[i]) + 40));
        if next >= width {
            drawn
        } else {
            cells_drawn(drawn, ruler, cells, i + 1, next, width, height)
        }
    } else {
        s
    }
}

pub open spec fn status_drawn(
    s: Seq<Mark>,
    state: NotepadUiState,
    g: GuiModel,
    width: int,
    height: int,
) -> Seq<Mark> {
    let y = height - STATUS_HEIGHT;
    cells_drawn(
        lined(
            filled(s, 0, y, width, STATUS_HEIGHT as int, COLOR_STATUS),
            0,
            y,
            width,
            y,
            COLOR_BORDER,
        ),
        g.ruler,
        bar_texts(state, g),
        0,
        10,
        width,
        height,
    )
}

/// What surrounds the text.
pub open spec fn chrome_drawn(
    s: Seq<Mark>,
    state: NotepadUiState,
    g: GuiModel,
    width: int,
    height: int,
) -> Seq<Mark> {
    let bar = lined(
        filled(s, 0, 0, width, MENU_HEIGHT as int, COLOR_WINDOW),
        0,
        MENU_HEIGHT as int,
        width,
        MENU_HEIGHT as int,
        COLOR_BORDER,
    );
    let menus = headings_drawn(bar, g.ruler, g.active_menu, MENU_COUNT as int);
    if state.status_bar_visible && height > STATUS_HEIGHT {
        status_drawn(menus, state, g, width, height)
    } else {
        menus
    }
}

fn draw_headings(sketch: &mut Sketch, ruler: &Ruler, active_menu: Option<usize>)
    ensures
        final(sketch)@ == headings_drawn(
            old(sketch)@,
            ruler@,
            active_menu,
            MENU_COUNT as int,
        ),
{
    let ghost before = sketch@;
    let titles = menu_titles(ruler);
    let mut i: usize = 0;
    while i < titles.len()
        invariant
            are_titles(titles@, ruler@),
            i <= titles@.len(),
            sketch@ == headings_drawn(before, ruler@, active_menu, i as int),
        decreases titles@.len() - i,
    {
        let title = titles[i];
        let open = match active_menu {
            Some(active) => active == title.index,
            None => false,
        };
        if open {
            sketch.fill_rect(
                title.x,
                menu_top() + 1,
                title.width,
                MENU_HEIGHT - 2,
                COLOR_MENU_OPEN,
            );
        }
        sketch.text(
            title.x.saturating_add(8),
            menu_top() + 7,
            title.label,
            COLOR_TEXT,
            TextRole::Ui,
        );
        i += 1;
    }
}

fn draw_status_bar(
    sketch: &mut Sketch,
    state: &NotepadUiState,
    gui_state: &GuiState,
    width: usize,
    height: usize,
)
    requires
        height > STATUS_HEIGHT,
    ensures
        final(sketch)@ == status_drawn(
            old(sketch)@,
            *state,
            gui_state@,
            width as int,
            height as int,
        ),
{
    let status_y: usize = height - STATUS_HEIGHT;
    sketch.fill_rect(0, status_y, width, STATUS_HEIGHT, COLOR_STATUS);
    sketch.line(0, status_y, width, status_y, COLOR_BORDER);
    let cells = status_bar_cells(state, gui_state);
    let ghost all = texts(cells@);
    let ghost whole = cells_drawn(
        sketch@,
        gui_state@.ruler,
        all,
        0,
        10,
        width as int,
        height as int,
    );
    let mut x: usize = 10;
    let mut i: usize = 0;
    assert(all.len() == cells@.len());
    while i < cells.len()
        invariant_except_break
            i <= cells@.len(),
            cells_drawn(
                sketch@,
                gui_state@.ruler,
                all,
                i as int,
                x as int,
                width as int,
                height as int,
            ) == whole,
        invariant
            all == texts(cells@),
            all.len() == cells@.len(),
            status_y == height - STATUS_HEIGHT,
            height > STATUS_HEIGHT,
        ensures
            sketch@ == whole,
        decreases cells@.len() - i,
    {
        if x > 10 {
            sketch.line(
                x.saturating_sub(12),
                status_y,
                x.saturating_sub(12),
                height,
                COLOR_BORDER,
            );
        }
        assert(all[i as int] == cells@[i as int]@);
        sketch.text(x, status_y + 7, cells[i].as_str(), COLOR_TEXT, TextRole::Ui);
        x = x.saturating_add(
            gui_state.ruler.measure(cells[i].as_str(), TextRole::Ui).saturating_add(40),
        );
        if x >= width {
            break;
        }
        i += 1;
    }
}

pub fn draw_chrome(
    sketch: &mut Sketch,
    state: &NotepadUiState,
    gui_state: &GuiState,
    width: usize,
    height: usize,
)
    ensures
        final(sketch)@ == chrome_drawn(
            old(sketch)@,
            *state,
            gui_state@,
            width as int,
            height as int,
        ),
{
    let top: usize = menu_top();
    sketch.fill_rect(0, top, width, MENU_HEIGHT, COLOR_WINDOW);
    sketch.line(0, top + MENU_HEIGHT, width, top + MENU_HEIGHT, COLOR_BORDER);
    draw_headings(sketch, &gui_state.ruler, gui_state.active_menu);
    if state.status_bar_visible && height > STATUS_HEIGHT {
        draw_status_bar(sketch, state, gui_state, width, height);
    }
}

// ---------------------------------------------------------------------------
// An open menu
// ---------------------------------------------------------------------------

/// One row of an open menu, below `y`.
pub open spec fn row_drawn(
    s: Seq<Mark>,
    row: RowModel,
    x: int,
    y: int,
    width: int,
    shortcut_x: int,
) -> Seq<Mark> {
    let ui = TextRole::Ui;
    let divided = if row.separator_before {
        lined(
            s,
            saturated(x + 6),
            saturated(y + 3),
            saturated(x + width) - 6,
            saturated(y + 3),
            COLOR_BORDER,
        )
    } else {
        s
    };
    let top = if row.separator_before {
        saturated(y + MENU_SEPARATOR_HEIGHT)
    } else {
        y
    };
    let text_y = saturated(top + 7);
    let color = if row.enabled {
        COLOR_TEXT
    } else {
        COLOR_DISABLED_TEXT
    };
    let checked = if row.checked {
        written(divided, saturated(x + 9), text_y, "*"@, COLOR_TEXT, ui)
    } else {
        divided
    };
    let labelled = written(
        checked,
        saturated(saturated(x + 28) + row.indent),
        text_y,
        row.label,
        color,
        ui,
    );
    let with_shortcut = match row.shortcut {
        Some(shortcut) => written(
            labelled,
            saturated(x + shortcut_x),
            text_y,
            shortcut,
            color,
            ui,
        ),
        None => labelled,
    };
    if row.has_children {
        written(with_shortcut, saturated(x + width) - 18, text_y, ">"@, color, ui)
    } else {
        with_shortcut
    }
}

/// The first `n` rows of an open menu.
pub open spec fn rows_drawn(
    s: Seq<Mark>,
    rows: Seq<RowModel>,
    x: int,
    top: int,
    width: int,
    shortcut_x: int,
    n: int,
) -> Seq<Mark>
    decreases n,
{
    if n <= 0 {
        s
    } else {
        row_drawn(
            rows_drawn(s, rows, x, top, width, shortcut_x, n - 1),
            rows[n - 1],
            x,
            rows_bottom(rows, top, n - 1),
            width,
            shortcut_x,
        )
    }
}

/// An open menu with its shadow.
pub open spec fn popup_drawn(s: Seq<Mark>, ruler: RulerModel, rows: Seq<RowModel>, i: int) -> Seq<
    Mark,
> {
    let x = title_x(ruler, i);
    let y = MENU_HEIGHT as int;
    let width = menu_width(ruler, rows);
    let height = saturated(rows_bottom(rows, 0, rows.len() as int) + 8);
    rows_drawn(
        framed(
            filled(
                filled(s, saturated(x + 3), y + 3, width, height, 0x00888888),
                x,
                y,
                width,
                height,
                COLOR_DROPDOWN,
            ),
            x,
            y,
            width,
            height,
            COLOR_BORDER,
        ),
        rows,
        x,
        y + 4,
        width,
        shortcut_column(ruler, rows),
        rows.len() as int,
    )
}

fn draw_row(
    sketch: &mut Sketch,
    row: &MenuRow,
    x: usize,
    y: usize,
    width: usize,
    shortcut_x: usize,
)
    requires
        width >= 180,
    ensures
        final(sketch)@ == row_drawn(
            old(sketch)@,
            row_model(*row),
            x as int,
            y as int,
            width as int,
            shortcut_x as int,
        ),
{
    let mut top: usize = y;
    if row.separator_before {
        let line_y: usize = y.saturating_add(3);
        sketch.line(
            x.saturating_add(6),
            line_y,
            x.saturating_add(width) - 6,
            line_y,
            COLOR_BORDER,
        );
        top = y.saturating_add(MENU_SEPARATOR_HEIGHT);
    }
    let text_y: usize = top.saturating_add(7);
    let color: u32 = if row.enabled {
        COLOR_TEXT
    } else {
        COLOR_DISABLED_TEXT
    };
    if row.checked {
        sketch.text(x.saturating_add(9), text_y, "*", COLOR_TEXT, TextRole::Ui);
    }
    sketch.text(
        x.saturating_add(28).saturating_add(row.indent),
        text_y,
        row.label,
        color,
        TextRole::Ui,
    );
    if let Some(shortcut) = row.shortcut {
        sketch.text(x.saturating_add(shortcut_x), text_y, shortcut, color, TextRole::Ui);
    }
    if row.has_children {
        sketch.text(x.saturating_add(width) - 18, text_y, ">", color, TextRole::Ui);
    }
}

fn draw_rows(
    sketch: &mut Sketch,
    rows: &Vec<MenuRow>,
    x: usize,
    top: usize,
    metrics: MenuMetrics,
)
    requires
        metrics.width >= 180,
    ensures
        final(sketch)@ == rows_drawn(
            old(sketch)@,
            rows_model(rows@),
            x as int,
            top as int,
            metrics.width as int,
            metrics.shortcut_x as int,
            rows@.len() as int,
        ),
{
    let ghost before = sketch@;
    let ghost models = rows_model(rows@);
    let mut row_y: usize = top;
    let mut i: usize = 0;
    while i < rows.len()
        invariant
            metrics.width >= 180,
            models == rows_model(rows@),
            i <= rows@.len(),
            row_y == rows_bottom(models, top as int, i as int),
            sketch@ == rows_drawn(
                before,
                models,
                x as int,
                top as int,
                metrics.width as int,
                metrics.shortcut_x as int,
                i as int,
            ),
        decreases rows@.len() - i,
    {
        let row = rows[i];
        assert(models[i as int] == row_model(row));
        draw_row(sketch, &row, x, row_y, metrics.width, metrics.shortcut_x);
        let height: usize = if row.separator_before {
            MENU_ITEM_HEIGHT + MENU_SEPARATOR_HEIGHT
        } else {
            MENU_ITEM_HEIGHT
        };
        row_y = row_y.saturating_add(height);
        i += 1;
    }
}

/// Draws an open menu below its heading.
pub fn draw_menu_popup(sketch: &mut Sketch, app: &BlitzApp, menu_index: usize, ruler: &Ruler)
    requires
        app.wf(),
    ensures
        final(sketch)@ == (if menu_index < MENU_COUNT {
            popup_drawn(old(sketch)@, ruler@, app_rows(app@, menu_index as int), menu_index as int)
        } else {
            old(sketch)@
        }),
{
    if menu_index >= MENU_COUNT {
        return ;
    }
    let titles = menu_titles(ruler);
    let rows = menu_rows(app, menu_index);
    let metrics = menu_metrics(ruler, &rows);
    let x: usize = titles[menu_index].x;
    let y: usize = dropdown_top();
    sketch.fill_rect(x.saturating_add(3), y + 3, metrics.width, metrics.height, 0x00888888);
    sketch.fill_rect(x, y, metrics.width, metrics.height, COLOR_DROPDOWN);
    sketch.rect(x, y, metrics.width, metrics.height, COLOR_BORDER);
    assert(rows_model(rows@).len() == rows@.len());
    draw_rows(sketch, &rows, x, y + 4, metrics);
}

// ---------------------------------------------------------------------------
// Scrollbars
// ---------------------------------------------------------------------------

pub open spec fn vertical_bar_drawn(s: Seq<Mark>, g: GuiModel, a: AppModel, metrics: EditorMetrics) -> Seq<
    Mark,
> {
    let (top, len) = vertical_thumb(g, a, metrics);
    filled(
        s,
        saturated(metrics.text_width + 4),
        top,
        SCROLLBAR_WIDTH - 8,
        len,
        COLOR_SCROLL_THUMB,
    )
}

pub open spec fn horizontal_bar_drawn(
    s: Seq<Mark>,
    g: GuiModel,
    a: AppModel,
    metrics: EditorMetrics,
    y: int,
) -> Seq<Mark> {
    let (left, len) = horizontal_thumb(g, a, metrics);
    filled(s, left, saturated(y + 4), len, SCROLLBAR_WIDTH - 8, COLOR_SCROLL_THUMB)
}

fn draw_vertical_scrollbar(
    sketch: &mut Sketch,
    app: &BlitzApp,
    gui_state: &mut GuiState,
    metrics: EditorMetrics,
)
    requires
        app.wf(),
        metrics.text_top + metrics.text_height <= usize::MAX,
    ensures
        final(gui_state)@ == with_rows(old(gui_state)@, app@, metrics),
        final(sketch)@ == vertical_bar_drawn(old(sketch)@, old(gui_state)@, app@, metrics),
{
    let content_len: usize = gui_state.vertical_content_len(app, metrics);
    let (thumb_y, thumb_height) = scroll_thumb(
        metrics.text_top,
        metrics.text_height,
        content_len,
        metrics.visible_line_count,
        gui_state.first_visible_line,
    );
    sketch.fill_rect(
        metrics.text_width.saturating_add(4),
        thumb_y,
        SCROLLBAR_WIDTH - 8,
        thumb_height,
        COLOR_SCROLL_THUMB,
    );
}

fn draw_horizontal_scrollbar(
    sketch: &mut Sketch,
    app: &BlitzApp,
    gui_state: &GuiState,
    metrics: EditorMetrics,
    scroll_y: usize,
)
    requires
        app.wf(),
    ensures
        final(sketch)@ == horizontal_bar_drawn(
            old(sketch)@,
            gui_state@,
            app@,
            metrics,
            scroll_y as int,
        ),
{
    let longest: usize = max_visible_line_len(
        app.document(),
        gui_state.first_visible_line,
        metrics.visible_line_count,
    );
    let visible: usize = visible_byte_capacity(&gui_state.ruler, metrics.editor_text_width);
    let (thumb_x, thumb_width) = scroll_thumb(
        0,
        metrics.text_width,
        greater_of(longest, visible),
        visible,
        gui_state.horizontal_offset,
    );
    sketch.fill_rect(
        thumb_x,
        scroll_y.saturating_add(4),
        thumb_width,
        SCROLLBAR_WIDTH - 8,
        COLOR_SCROLL_THUMB,
    );
}

// ---------------------------------------------------------------------------
// Rows of text
// ---------------------------------------------------------------------------

/// The left and right end of what is selected in a row, if it is to be seen.
pub open spec fn highlight(
    ruler: RulerModel,
    row: RowLine,
    selection: (int, int),
    metrics: EditorMetrics,
) -> Option<(int, int)> {
    let start = greater(selection.0, row.start);
    let end = less(selection.1, row.end);
    let len = encode_utf8(row.text).len() as int;
    let local_start = less(start - row.start, len);
    let local_end = less(end - row.start, len);
    if start >= end {
        None
    } else {
        match (
            bytes_prefix(row.text, local_start),
            bytes_part(row.text, local_start, local_end),
        ) {
            (Some(prefix), Some(part)) => {
                let left = saturated(TEXT_MARGIN_X + measured(ruler, TextRole::Editor, prefix));
                let right = less(
                    saturated(left + greater(measured(ruler, TextRole::Editor, part), 1)),
                    saturated(TEXT_MARGIN_X + metrics.editor_text_width),
                );
                if right <= left {
                    None
                } else {
                    Some((left, right))
                }
            },
            _ => None,
        }
    }
}

/// What is selected in the first `n` rows is marked.
pub open spec fn highlights_drawn(
    s: Seq<Mark>,
    ruler: RulerModel,
    rows: Seq<RowLine>,
    selection: (int, int),
    metrics: EditorMetrics,
    n: int,
) -> Seq<Mark>
    decreases n,
{
    if n <= 0 {
        s
    } else {
        let before = highlights_drawn(s, ruler, rows, selection, metrics, n - 1);
        match highlight(ruler, rows[n - 1], selection, metrics) {
            Some((left, right)) => filled(
                before,
                left,
                row_y(metrics, n - 1),
                right - left,
                EDITOR_LINE_HEIGHT as int,
                COLOR_SELECTION,
            ),
            None => before,
        }
    }
}

/// The left and right end of what is selected in a row, if it is to be seen.
fn row_highlight(
    ruler: &Ruler,
    row: &VisibleLine,
    start: usize,
    end: usize,
    metrics: EditorMetrics,
) -> (ends: Option<(usize, usize)>)
    ensures
        crate::pointer::point_model(ends) == highlight(
            ruler@,
            row_line(*row),
            (start as int, end as int),
            metrics,
        ),
        ends matches Some((left, right)) ==> left < right,
{
    let from: usize = greater_of(start, row.byte_range.start);
    let to: usize = smaller_of(end, row.byte_range.end);
    if from >= to {
        return None;
    }
    let chars = characters(row.text.as_str());
    let len: usize = row.text.as_str().as_bytes().len();
    let local_start: usize = smaller_of(from - row.byte_range.start, len);
    let local_end: usize = smaller_of(to - row.byte_range.start, len);
    let first: usize = match find_char_at_byte(&chars, local_start) {
        Some(first) => first,
        None => {
            return None;
        },
    };
    let last: usize = match find_char_at_byte(&chars, local_end) {
        Some(last) => last,
        None => {
            return None;
        },
    };
    if first > last {
        return None;
    }
    let prefix = string_of(&chars, 0, first);
    let part = string_of(&chars, first, last);
    assert(row.text@.take(first as int) =~= row.text@.subrange(0, first as int));
    let left: usize = TEXT_MARGIN_X.saturating_add(
        ruler.measure(prefix.as_str(), TextRole::Editor),
    );
    let right: usize = smaller_of(
        left.saturating_add(greater_of(ruler.measure(part.as_str(), TextRole::Editor), 1)),
        TEXT_MARGIN_X.saturating_add(metrics.editor_text_width),
    );
    if right <= left {
        return None;
    }
    Some((left, right))
}

fn draw_selection_highlights(
    sketch: &mut Sketch,
    start: usize,
    end: usize,
    rows: &Vec<VisibleLine>,
    metrics: EditorMetrics,
    ruler: &Ruler,
)
    ensures
        final(sketch)@ == highlights_drawn(
            old(sketch)@,
            ruler@,
            row_lines(rows@),
            (start as int, end as int),
            metrics,
            rows@.len() as int,
        ),
{
    let ghost before = sketch@;
    let ghost models = row_lines(rows@);
    let mut i: usize = 0;
    while i < rows.len()
        invariant
            models == row_lines(rows@),
            i <= rows@.len(),
            sketch@ == highlights_drawn(
                before,
                ruler@,
                models,
                (start as int, end as int),
                metrics,
                i as int,
            ),
        decreases rows@.len() - i,
    {
        assert(models[i as int] == row_line(rows@[i as int]));
        if let Some((left, right)) = row_highlight(ruler, &rows[i], start, end, metrics) {
            sketch.fill_rect(
                left,
                top_of_row(metrics, i),
                right - left,
                EDITOR_LINE_HEIGHT,
                COLOR_SELECTION,
            );
        }
        i += 1;
    }
}

/// The text of the first `n` rows, cut off at the right.
pub open spec fn row_texts_drawn(
    s: Seq<Mark>,
    rows: Seq<RowLine>,
    metrics: EditorMetrics,
    n: int,
) -> Seq<Mark>
    decreases n,
{
    if n <= 0 {
        s
    } else {
        row_texts_drawn(s, rows, metrics, n - 1).push(
            Mark::Text {
                x: TEXT_MARGIN_X as int,
                y: row_y(metrics, n - 1),
                text: rows[n - 1].text,
                color: COLOR_TEXT,
                role: TextRole::Editor,
                max_width: Some(metrics.editor_text_width as int),
            },
        )
    }
}

fn draw_row_texts(sketch: &mut Sketch, rows: &Vec<VisibleLine>, metrics: EditorMetrics)
    ensures
        final(sketch)@ == row_texts_drawn(
            old(sketch)@,
            row_lines(rows@),
            metrics,
            rows@.len() as int,
        ),
{
    let ghost before = sketch@;
    let ghost models = row_lines(rows@);
    let mut i: usize = 0;
    while i < rows.len()
        invariant
            models == row_lines(rows@),
            i <= rows@.len(),
            sketch@ == row_texts_drawn(before, models, metrics, i as int),
        decreases rows@.len() - i,
    {
        assert(models[i as int] == row_line(rows@[i as int]));
        sketch.clipped_text(
            TEXT_MARGIN_X,
            top_of_row(metrics, i),
            rows[i].text.as_str(),
            COLOR_TEXT,
            TextRole::Editor,
            metrics.editor_text_width,
        );
        i += 1;
    }
}

pub open spec fn caret_drawn(s: Seq<Mark>, x: int, y: int) -> Seq<Mark> {
    filled(s, x, y, 2, CARET_HEIGHT as int, COLOR_CARET)
}

fn draw_caret(sketch: &mut Sketch, x: usize, y: usize)
    ensures
        final(sketch)@ == caret_drawn(old(sketch)@, x as int, y as int),
{
    sketch.fill_rect(x, y, 2, CARET_HEIGHT, COLOR_CARET);
}

/// The rows in view, what is selected in them, and the caret.
pub open spec fn rows_of_text_drawn(
    s: Seq<Mark>,
    g: GuiModel,
    a: AppModel,
    caret_line: int,
    metrics: EditorMetrics,
) -> Seq<Mark> {
    let rows = shown_lines(g, a, metrics);
    let n = rows.len() as int;
    let selected = match a.selection {
        Some(selection) => highlights_drawn(s, g.ruler, rows, selection, metrics, n),
        None => s,
    };
    let with_text = row_texts_drawn(selected, rows, metrics, n);
    if n == 0 {
        caret_drawn(with_text, TEXT_MARGIN_X as int, row_y(metrics, 0))
    } else {
        match caret_row(rows, caret_line, a.caret) {
            Some(i) => caret_drawn(
                with_text,
                caret_x(g, rows[i], a.caret, metrics),
                row_y(metrics, i),
            ),
            None => with_text,
        }
    }
}

fn draw_rows_of_text(
    sketch: &mut Sketch,
    app: &BlitzApp,
    caret_line: usize,
    gui_state: &mut GuiState,
    metrics: EditorMetrics,
)
    requires
        app.wf(),
    ensures
        final(gui_state)@ == with_rows(old(gui_state)@, app@, metrics),
        final(sketch)@ == rows_of_text_drawn(
            old(sketch)@,
            old(gui_state)@,
            app@,
            caret_line as int,
            metrics,
        ),
{
    let rows = lines_in_view(app, metrics, gui_state);
    let ghost models = shown_lines(old(gui_state)@, app@, metrics);
    assert(models.len() == rows@.len());
    if let Some(selection) = app.selected_range() {
        draw_selection_highlights(
            sketch,
            selection.start,
            selection.end,
            &rows,
            metrics,
            &gui_state.ruler,
        );
    }
    draw_row_texts(sketch, &rows, metrics);
    if rows.len() == 0 {
        draw_caret(sketch, TEXT_MARGIN_X, top_of_row(metrics, 0));
        return ;
    }
    let caret: usize = app.caret_offset();
    if let Some(index) = visible_line_index_for_caret(&rows, caret_line, caret) {
        assert(models[index as int] == row_line(rows@[index as int]));
        let x: usize = caret_x_in_row(gui_state, &rows[index], caret, metrics);
        draw_caret(sketch, x, top_of_row(metrics, index));
    }
}

// ---------------------------------------------------------------------------
// The text area
// ---------------------------------------------------------------------------

/// The background of the text and its scrollbars.
pub open spec fn bars_drawn(s: Seq<Mark>, g: GuiModel, a: AppModel, metrics: EditorMetrics) -> Seq<
    Mark,
> {
    let (top, height) = (metrics.text_top as int, metrics.text_height as int);
    let width = metrics.text_width as int;
    let vertical = vertical_bar_drawn(
        lined(
            filled(
                filled(s, 0, top, width, height, COLOR_TEXT_AREA),
                width,
                top,
                SCROLLBAR_WIDTH as int,
                height,
                COLOR_SCROLLBAR,
            ),
            width,
            top,
            width,
            metrics.text_bottom as int,
            COLOR_BORDER,
        ),
        g,
        a,
        metrics,
    );
    match metrics.horizontal_scroll_y {
        Some(y) => horizontal_bar_drawn(
            lined(
                filled(vertical, 0, y as int, width, SCROLLBAR_WIDTH as int, COLOR_SCROLLBAR),
                0,
                y as int,
                width,
                y as int,
                COLOR_BORDER,
            ),
            g,
            a,
            metrics,
            y as int,
        ),
        None => vertical,
    }
}

fn draw_bars(
    sketch: &mut Sketch,
    app: &BlitzApp,
    gui_state: &mut GuiState,
    metrics: EditorMetrics,
)
    requires
        app.wf(),
        metrics.text_top + metrics.text_height <= usize::MAX,
    ensures
        final(gui_state)@ == with_rows(old(gui_state)@, app@, metrics),
        final(sketch)@ == bars_drawn(old(sketch)@, old(gui_state)@, app@, metrics),
{
    sketch.fill_rect(
        0,
        metrics.text_top,
        metrics.text_width,
        metrics.text_height,
        COLOR_TEXT_AREA,
    );
    sketch.fill_rect(
        metrics.text_width,
        metrics.text_top,
        SCROLLBAR_WIDTH,
        metrics.text_height,
        COLOR_SCROLLBAR,
    );
    sketch.line(
        metrics.text_width,
        metrics.text_top,
        metrics.text_width,
        metrics.text_bottom,
        COLOR_BORDER,
    );
    draw_vertical_scrollbar(sketch, app, gui_state, metrics);
    if let Some(scroll_y) = metrics.horizontal_scroll_y {
        sketch.fill_rect(0, scroll_y, metrics.text_width, SCROLLBAR_WIDTH, COLOR_SCROLLBAR);
        sketch.line(0, scroll_y, metrics.text_width, scroll_y, COLOR_BORDER);
        draw_horizontal_scrollbar(sketch, app, gui_state, metrics, scroll_y);
    }
}

/// The text with its scrollbars, where there is room for it.
pub open spec fn text_area_drawn(
    s: Seq<Mark>,
    g: GuiModel,
    a: AppModel,
    state: NotepadUiState,
    width: int,
    height: int,
) -> Seq<Mark> {
    match editor_layout(state.status_bar_visible, state.word_wrap, width, height) {
        Some(metrics) => rows_of_text_drawn(
            bars_drawn(s, g, a, metrics),
            g,
            a,
            state.caret_line as int,
            metrics,
        ),
        None => s,
    }
}

/// What drawing leaves behind: rows that were brought up to date.
pub open spec fn after_drawing(
    g: GuiModel,
    a: AppModel,
    state: NotepadUiState,
    width: int,
    height: int,
) -> GuiModel {
    match editor_layout(state.status_bar_visible, state.word_wrap, width, height) {
        Some(metrics) => with_rows(g, a, metrics),
        None => g,
    }
}

proof fn lemma_lines_settled(g: GuiModel, a: AppModel, metrics: EditorMetrics)
    ensures
        shown_lines(with_rows(g, a, metrics), a, metrics) == shown_lines(g, a, metrics),
{
    lemma_rows_settled(g, with_rows(g, a, metrics), a, metrics);
    reveal(crate::wrap::index_in_use);
}

pub fn draw_text_area(
    sketch: &mut Sketch,
    app: &BlitzApp,
    state: &NotepadUiState,
    gui_state: &mut GuiState,
    width: usize,
    height: usize,
)
    requires
        app.wf(),
        state.word_wrap == app@.settings.word_wrap,
    ensures
        final(gui_state)@ == after_drawing(
            old(gui_state)@,
            app@,
            *state,
            width as int,
            height as int,
        ),
        final(sketch)@ == text_area_drawn(
            old(sketch)@,
            old(gui_state)@,
            app@,
            *state,
            width as int,
            height as int,
        ),
{
    let metrics = match editor_metrics_from_flags(
        state.status_bar_visible,
        state.word_wrap,
        width,
        height,
    ) {
        Some(metrics) => metrics,
        None => {
            return ;
        },
    };
    proof {
        lemma_layout(state.status_bar_visible, state.word_wrap, width as int, height as int);
    }
    draw_bars(sketch, app, gui_state, metrics);
    proof {
        lemma_rows_settled(old(gui_state)@, gui_state@, app@, metrics);
        lemma_lines_settled(old(gui_state)@, app@, metrics);
    }
    draw_rows_of_text(sketch, app, state.caret_line, gui_state, metrics);
}

// ---------------------------------------------------------------------------
// The window
// ---------------------------------------------------------------------------

/// The picture of the editor's window.
pub open spec fn window_picture(
    g: GuiModel,
    a: AppModel,
    state: NotepadUiState,
    width: int,
    height: int,
) -> Seq<Mark> {
    let area = text_area_drawn(
        chrome_drawn(Seq::empty(), state, g, width, height),
        g,
        a,
        state,
        width,
        height,
    );
    match g.active_menu {
        Some(i) => if i < MENU_COUNT {
            popup_drawn(area, g.ruler, app_rows(a, i as int), i as int)
        } else {
            area
        },
        None => area,
    }
}

/// Draws the editor's window; it is one pixel wide and high at least.
pub fn render_frame_with_state(
    app: &BlitzApp,
    state: &NotepadUiState,
    width: usize,
    height: usize,
    gui_state: &mut GuiState,
) -> (sketch: Sketch)
    requires
        app.wf(),
        state.word_wrap == app@.settings.word_wrap,
    ensures
        final(gui_state)@ == after_drawing(
            old(gui_state)@,
            app@,
            *state,
            greater(width as int, 1),
            greater(height as int, 1),
        ),
        sketch@ == window_picture(
            old(gui_state)@,
            app@,
            *state,
            greater(width as int, 1),
            greater(height as int, 1),
        ),
{
    let columns: usize = greater_of(width, 1);
    let lines: usize = greater_of(height, 1);
    let mut sketch = Sketch::new();
    draw_chrome(&mut sketch, state, gui_state, columns, lines);
    draw_text_area(&mut sketch, app, state, gui_state, columns, lines);
    if let Some(menu_index) = gui_state.active_menu {
        draw_menu_popup(&mut sketch, app, menu_index, &gui_state.ruler);
    }
    sketch
}

/// What is drawn depends on what a state says of the editor alone.
proof fn lemma_same_picture(
    g: GuiModel,
    a: AppModel,
    one: NotepadUiState,
    other: NotepadUiState,
    width: int,
    height: int,
)
    requires
        is_ui_state(one, a),
        is_ui_state(other, a),
    ensures
        window_picture(g, a, one, width, height) == window_picture(g, a, other, width, height),
        after_drawing(g, a, one, width, height) == after_drawing(g, a, other, width, height),
{
    assert(crate::ui::status_texts(one) =~= crate::ui::status_texts(other));
}

/// Draws the editor's window as the editor is.
pub fn render_frame(app: &BlitzApp, width: usize, height: usize, gui_state: &mut GuiState) -> (sketch:
    Result<Sketch>)
    requires
        app.wf(),
    ensures
        fails_as(sketch, caret_error(app@.document, app@.caret)),
        sketch is Err ==> final(gui_state)@ == old(gui_state)@,
        sketch matches Ok(sketch) ==> forall|state: NotepadUiState| #[trigger]
            is_ui_state(state, app@) ==> {
                &&& final(gui_state)@ == after_drawing(
                    old(gui_state)@,
                    app@,
                    state,
                    greater(width as int, 1),
                    greater(height as int, 1),
                )
                &&& sketch@ == window_picture(
                    old(gui_state)@,
                    app@,
                    state,
                    greater(width as int, 1),
                    greater(height as int, 1),
                )
            },
{
    let state = app.ui_state()?;
    let sketch = render_frame_with_state(app, &state, width, height, gui_state);
    proof {
        assert forall|other: NotepadUiState| #[trigger] is_ui_state(other, app@) implies {
            &&& gui_state@ == after_drawing(
                old(gui_state)@,
                app@,
                other,
                greater(width as int, 1),
                greater(height as int, 1),
            )
            &&& sketch@ == window_picture(
                old(gui_state)@,
                app@,
                other,
                greater(width as int, 1),
                greater(height as int, 1),
            )
        } by {
            lemma_same_picture(
                old(gui_state)@,
                app@,
                state,
                other,
                greater(width as int, 1),
                greater(height as int, 1),
            );
        }
    }
    Ok(sketch)
}

} // verus!

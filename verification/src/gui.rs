//! The state of the window around the editor, and how the view follows the text.

use crate::app::{AppModel, BlitzApp};
use crate::dialog::{
    dialog_model, find_model, search_model, DialogModel, DialogState, FindModel, FindWindow,
    SearchModel, SearchSpec,
};
use crate::document::{
    boundary_error, content_end, index_covers, index_extended_towards, is_visible_line, opt_text,
    visible_end, visible_start, DocumentModel,
};
use crate::error::{fails_as, ErrorModel, Result};
use crate::line_index::{lemma_line_at, line_at};
use crate::ruler::{saturated, Ruler, RulerModel};
use crate::scroll::{
    byte_capacity, centered, centered_offset_for_range, editor_layout, editor_metrics_from_flags,
    greater, greater_of, less, longest_line, max_visible_line_len, moved, offset_with_delta, rest,
    smaller_of, visible_byte_capacity, EditorMetrics,
};
use crate::text::owned;
use crate::wrap::{
    index_in_use, row_in_line, row_index_model, wrapped_row_in_line_for_offset, RowIndexModel,
    WrappedRowIndex,
};
use vstd::prelude::*;
use vstd::utf8::*;

verus! {

pub const DEFAULT_WIDTH: usize = 960;

pub const DEFAULT_HEIGHT: usize = 640;

pub const MIN_WIDTH: usize = 420;

pub const MIN_HEIGHT: usize = 240;

pub const EDITOR_BASELINE_OFFSET: usize = 19;

/// How much of a text is indexed at a time to bring a selection into view.
pub const REVEAL_LINE_INDEX_BUDGET_BYTES: usize = 4_194_304;

/// How a window is run: for how many frames, if not until it is closed.
#[derive(Clone, Copy, Debug, PartialEq, Eq, Structural)]
pub struct GuiOptions {
    pub smoke_frames: Option<usize>,
}

impl GuiOptions {
    pub fn interactive() -> (options: Self)
        ensures
            options.smoke_frames is None,
    {
        GuiOptions { smoke_frames: None }
    }

    /// Runs for `frames` frames, and one at least.
    pub fn smoke_test(frames: usize) -> (options: Self)
        ensures
            options.smoke_frames == Some(greater(frames as int, 1) as usize),
    {
        GuiOptions { smoke_frames: Some(greater_of(frames, 1)) }
    }
}

/// Counts a frame that was shown; says whether it was the last one.
pub fn count_frame(remaining: &mut Option<usize>) -> (last: bool)
    ensures
        *final(remaining) == (match *old(remaining) {
            Some(frames) => Some(rest(frames as int, 1) as usize),
            None => None,
        }),
        last == (*old(remaining) matches Some(frames) && frames <= 1),
{
    match *remaining {
        Some(frames) => {
            *remaining = Some(frames.saturating_sub(1));
            frames <= 1
        },
        None => false,
    }
}

/// Which thumb is dragged, and where it was taken hold of.
#[derive(Clone, Copy, Debug, PartialEq, Eq, Structural)]
pub enum ScrollDrag {
    Vertical { grab_offset: usize },
    Horizontal { grab_offset: usize },
}

#[derive(Debug)]
pub struct GuiState {
    pub active_menu: Option<usize>,
    pub dialog: Option<DialogState>,
    pub dialog_mouse_was_down: bool,
    pub pending_info_dialog: Option<DialogState>,
    pub find_window: Option<FindWindow>,
    pub last_search: Option<SearchSpec>,
    pub status_message: Option<String>,
    pub clipboard: String,
    pub mouse_was_down: bool,
    pub first_visible_line: usize,
    pub horizontal_offset: usize,
    pub last_caret_offset: usize,
    pub pending_reveal_selection: bool,
    pub scroll_drag: Option<ScrollDrag>,
    pub selection_anchor: Option<usize>,
    pub selection_focus: Option<usize>,
    pub mouse_selecting: bool,
    pub saving: bool,
    pub printing: bool,
    pub ruler: Ruler,
    pub wrapped_row_index: Option<WrappedRowIndex>,
    pub editor_ime_composition: String,
}

/// The state of the window as a mathematical value.
pub struct GuiModel {
    pub active_menu: Option<usize>,
    pub dialog: Option<DialogModel>,
    pub dialog_mouse_was_down: bool,
    pub pending_info_dialog: Option<DialogModel>,
    pub find_window: Option<FindModel>,
    pub last_search: Option<SearchModel>,
    pub status_message: Option<Seq<char>>,
    pub clipboard: Seq<char>,
    pub mouse_was_down: bool,
    pub first_visible_line: int,
    pub horizontal_offset: int,
    pub last_caret_offset: int,
    pub pending_reveal_selection: bool,
    pub scroll_drag: Option<ScrollDrag>,
    pub selection_anchor: Option<usize>,
    pub selection_focus: Option<usize>,
    pub mouse_selecting: bool,
    pub saving: bool,
    pub printing: bool,
    pub ruler: RulerModel,
    pub rows: Option<RowIndexModel>,
    pub editor_ime_composition: Seq<char>,
}

impl View for GuiState {
    type V = GuiModel;

    open spec fn view(&self) -> GuiModel {
        GuiModel {
            active_menu: self.active_menu,
            dialog: dialog_model(self.dialog),
            dialog_mouse_was_down: self.dialog_mouse_was_down,
            pending_info_dialog: dialog_model(self.pending_info_dialog),
            find_window: find_model(self.find_window),
            last_search: search_model(self.last_search),
            status_message: opt_text(self.status_message),
            clipboard: self.clipboard@,
            mouse_was_down: self.mouse_was_down,
            first_visible_line: self.first_visible_line as int,
            horizontal_offset: self.horizontal_offset as int,
            last_caret_offset: self.last_caret_offset as int,
            pending_reveal_selection: self.pending_reveal_selection,
            scroll_drag: self.scroll_drag,
            selection_anchor: self.selection_anchor,
            selection_focus: self.selection_focus,
            mouse_selecting: self.mouse_selecting,
            saving: self.saving,
            printing: self.printing,
            ruler: self.ruler@,
            rows: row_index_model(self.wrapped_row_index),
            editor_ime_composition: self.editor_ime_composition@,
        }
    }
}

// ---------------------------------------------------------------------------
// Model: the view
// ---------------------------------------------------------------------------

/// Where the parts of the editor lie.
pub open spec fn layout_of(a: AppModel, width: int, height: int) -> Option<EditorMetrics> {
    editor_layout(a.settings.status_bar_visible, a.settings.word_wrap, width, height)
}

/// The index of rows in use.
pub open spec fn rows_in_use(g: GuiModel, a: AppModel, metrics: EditorMetrics) -> RowIndexModel {
    index_in_use(g.rows, g.ruler, a.document, metrics.editor_text_width as int)
}

/// The state with its index of rows brought up to date, where rows are wrapped.
pub open spec fn with_rows(g: GuiModel, a: AppModel, metrics: EditorMetrics) -> GuiModel {
    if a.settings.word_wrap {
        GuiModel { rows: Some(rows_in_use(g, a, metrics)), ..g }
    } else {
        g
    }
}

/// An index of rows that was brought up to date stays in use.
pub proof fn lemma_rows_settled(g: GuiModel, h: GuiModel, a: AppModel, metrics: EditorMetrics)
    requires
        h.rows == with_rows(g, a, metrics).rows,
        h.ruler == g.ruler,
    ensures
        with_rows(h, a, metrics) == h,
        content_rows(h, a, metrics) == content_rows(g, a, metrics),
        last_first_row(h, a, metrics) == last_first_row(g, a, metrics),
{
    reveal(index_in_use);
}

/// How many rows there are to scroll through.
pub open spec fn content_rows(g: GuiModel, a: AppModel, metrics: EditorMetrics) -> int {
    greater(
        if a.settings.word_wrap {
            rows_in_use(g, a, metrics).total
        } else {
            a.document.index.starts.len() as int
        },
        1,
    )
}

/// The last row that the view can begin with.
pub open spec fn last_first_row(g: GuiModel, a: AppModel, metrics: EditorMetrics) -> int {
    rest(content_rows(g, a, metrics), metrics.visible_line_count as int)
}

/// How far a line can be scrolled at most, and is where lines are not wrapped.
pub open spec fn horizontally_clamped(g: GuiModel, a: AppModel, visible_lines: int) -> GuiModel {
    GuiModel {
        horizontal_offset: if a.settings.word_wrap {
            0
        } else {
            less(
                g.horizontal_offset,
                longest_line(a.document, g.first_visible_line, visible_lines),
            )
        },
        ..g
    }
}

/// The view moved to begin with `row`, as far as there is text.
pub open spec fn scrolled_to(g: GuiModel, a: AppModel, row: int, metrics: EditorMetrics) -> GuiModel {
    let fresh = with_rows(g, a, metrics);
    horizontally_clamped(
        GuiModel { first_visible_line: less(row, last_first_row(g, a, metrics)), ..fresh },
        a,
        metrics.visible_line_count as int,
    )
}

/// The view moved so that `row` is in it.
pub open spec fn row_brought_in(first: int, row: int, visible: int) -> int {
    if row < first {
        row
    } else if row >= first + visible {
        saturated(rest(row, visible) + 1)
    } else {
        first
    }
}

/// The row of an offset in the text.
pub open spec fn row_of_offset(g: GuiModel, a: AppModel, metrics: EditorMetrics, offset: int) -> int {
    let line = line_at(a.document.index.starts, offset);
    if a.settings.word_wrap {
        let starts = rows_in_use(g, a, metrics).starts;
        saturated(
            (if line < starts.len() {
                starts[line]
            } else {
                0
            }) + row_in_line(
                g.ruler,
                a.document,
                line,
                metrics.editor_text_width as int,
                offset,
            ),
        )
    } else {
        line
    }
}

/// How far to scroll a line so that the caret is in view.
pub open spec fn caret_column_brought_in(g: GuiModel, a: AppModel) -> int {
    let line = line_at(a.document.index.starts, a.caret);
    let start = visible_start(a.document, line, g.horizontal_offset);
    let end = visible_end(a.document, line, g.horizontal_offset);
    if a.settings.word_wrap {
        0
    } else if a.caret < start || a.caret > end {
        rest(a.caret, a.document.index.starts[line])
    } else {
        g.horizontal_offset
    }
}

/// The selection put in the middle of the view.
pub open spec fn selection_centered(
    g: GuiModel,
    a: AppModel,
    metrics: EditorMetrics,
    start: int,
    end: int,
) -> GuiModel {
    let line = line_at(a.document.index.starts, start);
    let left = a.document.index.starts[line];
    let right = content_end(a.document, line);
    let from = less(greater(start, left), right);
    let to = greater(less(end, right), from);
    GuiModel {
        horizontal_offset: if a.settings.word_wrap {
            0
        } else {
            centered(
                from - left,
                to - left,
                byte_capacity(g.ruler, metrics.editor_text_width as int),
            )
        },
        ..g
    }
}

/// The document with its lines indexed further towards the end of the selection.
pub open spec fn indexed_towards(d: DocumentModel, offset: int) -> DocumentModel {
    if index_covers(d.index, offset) {
        d
    } else {
        DocumentModel {
            index: index_extended_towards(
                d.bytes,
                d.index,
                offset,
                REVEAL_LINE_INDEX_BUDGET_BYTES as int,
            ),
            ..d
        }
    }
}

/// The view with the selection in the middle, and the error where it is at no
/// position.
pub open spec fn selection_placed(
    g: GuiModel,
    a: AppModel,
    metrics: EditorMetrics,
    start: int,
    end: int,
) -> (GuiModel, Option<ErrorModel>) {
    let offset = less(end, a.document.bytes.len() as int);
    let placed = GuiModel {
        first_visible_line: less(
            rest(row_of_offset(g, a, metrics, offset), metrics.visible_line_count as int / 2),
            last_first_row(g, a, metrics),
        ),
        ..with_rows(g, a, metrics)
    };
    if boundary_error(a.document.bytes, offset) is Some {
        (g, boundary_error(a.document.bytes, offset))
    } else if boundary_error(a.document.bytes, start) is Some {
        (placed, boundary_error(a.document.bytes, start))
    } else {
        (
            horizontally_clamped(
                selection_centered(placed, a, metrics, start, end),
                a,
                metrics.visible_line_count as int,
            ),
            None,
        )
    }
}

/// What bringing the selection into view leads to: the state of the window, the
/// document, whether it is done, and the error.
pub open spec fn selection_revealed(g: GuiModel, a: AppModel, metrics: EditorMetrics) -> (
    GuiModel,
    AppModel,
    bool,
    Option<ErrorModel>,
) {
    match a.selection {
        None => (g, a, true, None),
        Some((start, end)) => {
            let offset = less(end, a.document.bytes.len() as int);
            let b = AppModel { document: indexed_towards(a.document, offset), ..a };
            let placed = selection_placed(g, b, metrics, start, end);
            if !index_covers(b.document.index, offset) {
                (g, b, false, None)
            } else {
                (placed.0, b, placed.1 is None, placed.1)
            }
        },
    }
}

/// What following the caret leads to: the state of the window, the editor, and
/// the error.
pub open spec fn caret_followed(g: GuiModel, a: AppModel, width: int, height: int) -> (
    GuiModel,
    AppModel,
    Option<ErrorModel>,
) {
    if g.last_caret_offset == a.caret && !g.pending_reveal_selection {
        (g, a, None)
    } else {
        match layout_of(a, width, height) {
            None => (GuiModel { last_caret_offset: a.caret, ..g }, a, None),
            Some(metrics) => if g.pending_reveal_selection {
                let (h, b, done, error) = selection_revealed(g, a, metrics);
                if done && error is None {
                    (
                        GuiModel {
                            pending_reveal_selection: false,
                            last_caret_offset: a.caret,
                            ..h
                        },
                        b,
                        None,
                    )
                } else {
                    (h, b, error)
                }
            } else if boundary_error(a.document.bytes, a.caret) is Some {
                (g, a, boundary_error(a.document.bytes, a.caret))
            } else {
                let fresh = with_rows(g, a, metrics);
                let visible = metrics.visible_line_count as int;
                let first = row_brought_in(
                    g.first_visible_line,
                    row_of_offset(g, a, metrics, a.caret),
                    visible,
                );
                let placed = GuiModel {
                    first_visible_line: less(first, last_first_row(g, a, metrics)),
                    horizontal_offset: caret_column_brought_in(g, a),
                    ..fresh
                };
                (
                    GuiModel {
                        last_caret_offset: a.caret,
                        ..horizontally_clamped(placed, a, visible)
                    },
                    a,
                    None,
                )
            },
        }
    }
}

/// The view back at the start of the text.
pub open spec fn scroll_reset(g: GuiModel, caret: int) -> GuiModel {
    GuiModel {
        first_visible_line: 0,
        horizontal_offset: 0,
        rows: None,
        last_caret_offset: caret,
        pending_reveal_selection: false,
        status_message: None,
        selection_anchor: None,
        selection_focus: None,
        mouse_selecting: false,
        editor_ime_composition: Seq::empty(),
        ..g
    }
}

/// The view after lines are wrapped, or are not any more.
pub open spec fn wrap_view_reset(g: GuiModel) -> GuiModel {
    GuiModel {
        first_visible_line: 0,
        horizontal_offset: 0,
        rows: None,
        editor_ime_composition: Seq::empty(),
        ..g
    }
}

// ---------------------------------------------------------------------------
// Messages
// ---------------------------------------------------------------------------

/// What the status bar says besides its cells.
pub open spec fn status_note(g: GuiModel) -> Option<Seq<char>> {
    if g.printing {
        Some("Printing..."@)
    } else if g.saving {
        Some("Saving..."@)
    } else {
        g.status_message
    }
}

/// Indexes the lines further towards an offset. The answer says whether the
/// index covers it.
fn index_towards(app: &mut BlitzApp, offset: usize) -> (covers: bool)
    requires
        old(app).wf(),
    ensures
        final(app).wf(),
        final(app)@ == (AppModel {
            document: indexed_towards(old(app)@.document, offset as int),
            ..old(app)@
        }),
        covers == index_covers(final(app)@.document.index, offset as int),
{
    if app.document().line_index_covers_offset(offset) {
        return true;
    }
    app.document_mut().extend_line_index_towards_offset(offset, REVEAL_LINE_INDEX_BUDGET_BYTES)
}

impl GuiState {
    /// The state of a new window.
    pub fn new() -> (state: Self)
        ensures
            state@.active_menu is None,
            state@.dialog is None,
            !state@.dialog_mouse_was_down,
            state@.pending_info_dialog is None,
            state@.find_window is None,
            state@.last_search is None,
            state@.status_message is None,
            state@.clipboard == Seq::<char>::empty(),
            !state@.mouse_was_down,
            state@.first_visible_line == 0,
            state@.horizontal_offset == 0,
            state@.last_caret_offset == 0,
            !state@.pending_reveal_selection,
            state@.scroll_drag is None,
            state@.selection_anchor is None,
            state@.selection_focus is None,
            !state@.mouse_selecting,
            !state@.saving,
            !state@.printing,
            state@.ruler.glyphs == Map::<u64, u32>::empty(),
            state@.ruler.clusters.len() == 0,
            state@.rows is None,
            state@.editor_ime_composition == Seq::<char>::empty(),
    {
        GuiState {
            active_menu: None,
            dialog: None,
            dialog_mouse_was_down: false,
            pending_info_dialog: None,
            find_window: None,
            last_search: None,
            status_message: None,
            clipboard: String::new(),
            mouse_was_down: false,
            first_visible_line: 0,
            horizontal_offset: 0,
            last_caret_offset: 0,
            pending_reveal_selection: false,
            scroll_drag: None,
            selection_anchor: None,
            selection_focus: None,
            mouse_selecting: false,
            saving: false,
            printing: false,
            ruler: Ruler::new(),
            wrapped_row_index: None,
            editor_ime_composition: String::new(),
        }
    }

    pub fn set_message(&mut self, message: &str)
        ensures
            final(self)@ == (GuiModel { status_message: Some(message@), ..old(self)@ }),
    {
        self.status_message = Some(owned(message));
    }

    /// What the status bar says besides its cells.
    pub fn status_text(&self) -> (text: Option<String>)
        ensures
            opt_text(text) == status_note(self@),
    {
        if self.printing {
            Some(owned("Printing..."))
        } else if self.saving {
            Some(owned("Saving..."))
        } else {
            match &self.status_message {
                Some(message) => Some(owned(message.as_str())),
                None => None,
            }
        }
    }

    /// Goes back to the start of the text.
    pub fn reset_scroll(&mut self, app: &BlitzApp)
        ensures
            final(self)@ == scroll_reset(old(self)@, app@.caret),
    {
        self.first_visible_line = 0;
        self.horizontal_offset = 0;
        self.wrapped_row_index = None;
        self.last_caret_offset = app.caret_offset();
        self.pending_reveal_selection = false;
        self.status_message = None;
        self.selection_anchor = None;
        self.selection_focus = None;
        self.mouse_selecting = false;
        self.editor_ime_composition = String::new();
    }

    pub fn reset_word_wrap_view(&mut self)
        ensures
            final(self)@ == wrap_view_reset(old(self)@),
    {
        self.first_visible_line = 0;
        self.horizontal_offset = 0;
        self.wrapped_row_index = None;
        self.editor_ime_composition = String::new();
    }

    // -----------------------------------------------------------------------
    // Scrolling
    // -----------------------------------------------------------------------

    /// Brings the index of rows up to date, where rows are wrapped.
    pub fn refresh_rows(&mut self, app: &BlitzApp, metrics: EditorMetrics)
        requires
            app.wf(),
        ensures
            final(self)@ == with_rows(old(self)@, app@, metrics),
    {
        if !app.settings().word_wrap {
            return;
        }
        proof {
            reveal(index_in_use);
        }
        let current = match &self.wrapped_row_index {
            Some(index) => index.is_for(app.document(), metrics.editor_text_width),
            None => false,
        };
        if !current {
            self.wrapped_row_index = Some(
                WrappedRowIndex::build(app.document(), &self.ruler, metrics.editor_text_width),
            );
        }
    }

    /// How many rows there are to scroll through.
    pub fn vertical_content_len(&mut self, app: &BlitzApp, metrics: EditorMetrics) -> (len: usize)
        requires
            app.wf(),
        ensures
            final(self)@ == with_rows(old(self)@, app@, metrics),
            len == content_rows(old(self)@, app@, metrics),
    {
        self.refresh_rows(app, metrics);
        if app.settings().word_wrap {
            match &self.wrapped_row_index {
                Some(index) => greater_of(index.total_rows(), 1),
                None => 1,
            }
        } else {
            greater_of(app.document().line_count(), 1)
        }
    }

    /// The last row that the view can begin with.
    pub fn max_first_visible_line(&mut self, app: &BlitzApp, metrics: EditorMetrics) -> (row: usize)
        requires
            app.wf(),
        ensures
            final(self)@ == with_rows(old(self)@, app@, metrics),
            row == last_first_row(old(self)@, app@, metrics),
    {
        let len: usize = self.vertical_content_len(app, metrics);
        len.saturating_sub(metrics.visible_line_count)
    }

    /// Moves the view to begin with `row`, as far as there is text.
    pub fn scroll_to(&mut self, app: &BlitzApp, row: usize, metrics: EditorMetrics)
        requires
            app.wf(),
        ensures
            final(self)@ == scrolled_to(old(self)@, app@, row as int, metrics),
    {
        let last: usize = self.max_first_visible_line(app, metrics);
        self.first_visible_line = smaller_of(row, last);
        self.clamp_horizontal(app, metrics.visible_line_count);
    }

    pub fn scroll_vertical(&mut self, app: &BlitzApp, delta_lines: isize, metrics: EditorMetrics)
        requires
            app.wf(),
        ensures
            final(self)@ == scrolled_to(
                old(self)@,
                app@,
                moved(old(self)@.first_visible_line, delta_lines as int),
                metrics,
            ),
    {
        let row: usize = offset_with_delta(self.first_visible_line, delta_lines);
        self.scroll_to(app, row, metrics);
    }

    pub fn scroll_horizontal(&mut self, app: &BlitzApp, delta_bytes: isize, visible_lines: usize)
        requires
            app.wf(),
        ensures
            final(self)@ == horizontally_clamped(
                GuiModel {
                    horizontal_offset: moved(old(self)@.horizontal_offset, delta_bytes as int),
                    ..old(self)@
                },
                app@,
                visible_lines as int,
            ),
    {
        self.horizontal_offset = offset_with_delta(self.horizontal_offset, delta_bytes);
        self.clamp_horizontal(app, visible_lines);
    }

    pub fn clamp_horizontal(&mut self, app: &BlitzApp, visible_lines: usize)
        requires
            app.wf(),
        ensures
            final(self)@ == horizontally_clamped(old(self)@, app@, visible_lines as int),
    {
        if app.settings().word_wrap {
            self.horizontal_offset = 0;
            return;
        }
        let longest: usize = max_visible_line_len(
            app.document(),
            self.first_visible_line,
            visible_lines,
        );
        self.horizontal_offset = smaller_of(self.horizontal_offset, longest);
    }

    /// The row of an offset in the text.
    pub fn visual_row_for_offset(
        &mut self,
        app: &BlitzApp,
        metrics: EditorMetrics,
        byte_offset: usize,
    ) -> (row: Result<usize>)
        requires
            app.wf(),
        ensures
            fails_as(row, boundary_error(app@.document.bytes, byte_offset as int)),
            final(self)@ == (if row is Ok {
                with_rows(old(self)@, app@, metrics)
            } else {
                old(self)@
            }),
            row matches Ok(row) ==> row == row_of_offset(
                old(self)@,
                app@,
                metrics,
                byte_offset as int,
            ),
    {
        let line: usize = app.document().line_for_offset(byte_offset)?;
        if !app.settings().word_wrap {
            return Ok(line);
        }
        self.refresh_rows(app, metrics);
        let preceding: usize = match &self.wrapped_row_index {
            Some(index) => index.row_start(line),
            None => 0,
        };
        let within: usize = wrapped_row_in_line_for_offset(
            app.document(),
            line,
            &self.ruler,
            metrics.editor_text_width,
            byte_offset,
        );
        Ok(preceding.saturating_add(within))
    }

    /// Moves the view to the caret, where it has moved, or to the selection,
    /// where that is asked for.
    pub fn follow_caret_if_moved(&mut self, app: &mut BlitzApp, width: usize, height: usize) -> (result:
        Result<()>)
        requires
            old(app).wf(),
        ensures
            final(app).wf(),
            ({
                let outcome = caret_followed(old(self)@, old(app)@, width as int, height as int);
                &&& final(self)@ == outcome.0
                &&& final(app)@ == outcome.1
                &&& fails_as(result, outcome.2)
            }),
    {
        if self.last_caret_offset == app.caret_offset() && !self.pending_reveal_selection {
            return Ok(());
        }
        let metrics = match editor_metrics_from_flags(
            app.settings().status_bar_visible,
            app.settings().word_wrap,
            width,
            height,
        ) {
            Some(metrics) => metrics,
            None => {
                self.last_caret_offset = app.caret_offset();
                return Ok(());
            },
        };
        if self.pending_reveal_selection {
            if self.reveal_selection(app, metrics)? {
                self.pending_reveal_selection = false;
                self.last_caret_offset = app.caret_offset();
            }
            return Ok(());
        }
        self.bring_caret_in(app, metrics)
    }

    /// How far to scroll a line so that the caret is in view.
    fn caret_column(&self, app: &BlitzApp) -> (offset: usize)
        requires
            app.wf(),
            boundary_error(app@.document.bytes, app@.caret) is None,
        ensures
            offset == caret_column_brought_in(self@, app@),
    {
        if app.settings().word_wrap {
            return 0;
        }
        let caret: usize = app.caret_offset();
        let line: usize = match app.document().line_for_offset(caret) {
            Ok(line) => line,
            Err(_) => 0,
        };
        proof {
            app.lemma_valid();
            lemma_line_at(app@.document.index.starts, caret as int);
        }
        let lines = app.document().visible_lines_at(line, 1, self.horizontal_offset);
        assert(is_visible_line(
            lines@[0],
            app@.document,
            line as int,
            self.horizontal_offset as int,
        ));
        if caret < lines[0].byte_range.start || caret > lines[0].byte_range.end {
            match app.document().line_start(line) {
                Some(start) => caret.saturating_sub(start),
                None => caret,
            }
        } else {
            self.horizontal_offset
        }
    }

    fn bring_caret_in(&mut self, app: &BlitzApp, metrics: EditorMetrics) -> (result: Result<()>)
        requires
            app.wf(),
        ensures
            fails_as(result, boundary_error(app@.document.bytes, app@.caret)),
            final(self)@ == (if result is Err {
                old(self)@
            } else {
                let g = old(self)@;
                let a = app@;
                let fresh = with_rows(g, a, metrics);
                let visible = metrics.visible_line_count as int;
                let first = row_brought_in(
                    g.first_visible_line,
                    row_of_offset(g, a, metrics, a.caret),
                    visible,
                );
                let placed = GuiModel {
                    first_visible_line: less(first, last_first_row(g, a, metrics)),
                    horizontal_offset: caret_column_brought_in(g, a),
                    ..fresh
                };
                GuiModel {
                    last_caret_offset: a.caret,
                    ..horizontally_clamped(placed, a, visible)
                }
            }),
    {
        let caret: usize = app.caret_offset();
        let visible: usize = metrics.visible_line_count;
        let row: usize = self.visual_row_for_offset(app, metrics, caret)?;
        if row < self.first_visible_line {
            self.first_visible_line = row;
        } else if row - self.first_visible_line >= visible {
            self.first_visible_line = row.saturating_sub(visible).saturating_add(1);
        }
        self.horizontal_offset = self.caret_column(app);
        proof {
            lemma_rows_settled(old(self)@, self@, app@, metrics);
        }
        let last: usize = self.max_first_visible_line(app, metrics);
        self.first_visible_line = smaller_of(self.first_visible_line, last);
        self.clamp_horizontal(app, visible);
        self.last_caret_offset = caret;
        Ok(())
    }

    /// Brings the selection into view. The answer says whether it is done, or
    /// more of the text has to be indexed first.
    pub fn reveal_selection(&mut self, app: &mut BlitzApp, metrics: EditorMetrics) -> (done: Result<
        bool,
    >)
        requires
            old(app).wf(),
        ensures
            final(app).wf(),
            ({
                let outcome = selection_revealed(old(self)@, old(app)@, metrics);
                &&& final(self)@ == outcome.0
                &&& final(app)@ == outcome.1
                &&& fails_as(done, outcome.3)
                &&& done matches Ok(done) ==> done == outcome.2
            }),
    {
        let (start, end) = match app.selected_range() {
            Some(range) => (range.start, range.end),
            None => {
                return Ok(true);
            },
        };
        let offset: usize = smaller_of(end, app.document().len());
        if !index_towards(app, offset) {
            return Ok(false);
        }
        self.place_selection(app, metrics, start, end)?;
        Ok(true)
    }

    fn place_selection(
        &mut self,
        app: &BlitzApp,
        metrics: EditorMetrics,
        start: usize,
        end: usize,
    ) -> (result: Result<()>)
        requires
            app.wf(),
        ensures
            final(self)@ == selection_placed(old(self)@, app@, metrics, start as int, end as int).0,
            fails_as(
                result,
                selection_placed(old(self)@, app@, metrics, start as int, end as int).1,
            ),
    {
        let offset: usize = smaller_of(end, app.document().len());
        let row: usize = self.visual_row_for_offset(app, metrics, offset)?;
        proof {
            lemma_rows_settled(old(self)@, self@, app@, metrics);
        }
        let last: usize = self.max_first_visible_line(app, metrics);
        self.first_visible_line = smaller_of(
            row.saturating_sub(metrics.visible_line_count / 2),
            last,
        );
        self.center_horizontal_range(app, metrics, start, end)?;
        self.clamp_horizontal(app, metrics.visible_line_count);
        Ok(())
    }

    fn center_horizontal_range(
        &mut self,
        app: &BlitzApp,
        metrics: EditorMetrics,
        start: usize,
        end: usize,
    ) -> (result: Result<()>)
        requires
            app.wf(),
        ensures
            fails_as(result, boundary_error(app@.document.bytes, start as int)),
            final(self)@ == (if result is Err {
                old(self)@
            } else {
                selection_centered(old(self)@, app@, metrics, start as int, end as int)
            }),
    {
        let content = app.document().line_content_range_for_offset(start)?;
        let from: usize = smaller_of(greater_of(start, content.start), content.end);
        let to: usize = greater_of(smaller_of(end, content.end), from);
        if app.settings().word_wrap {
            self.horizontal_offset = 0;
            return Ok(());
        }
        let visible_bytes: usize = visible_byte_capacity(&self.ruler, metrics.editor_text_width);
        self.horizontal_offset = centered_offset_for_range(
            from - content.start,
            to - content.start,
            visible_bytes,
        );
        Ok(())
    }
}

} // verus!

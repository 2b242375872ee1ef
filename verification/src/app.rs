//! The editor: a document with a caret, a selection and settings.

use crate::app_laws::{law_replace_all_replaces_every_match, law_search_succeeds};
use crate::date_time::{fallback_text, fallback_time_date, LocalDateTime};
use crate::document::{
    boundary_error, caret_column, caret_error, char_column, char_column_error, column_offset,
    column_offset_error, content_end, document_valid, edited, edited_all, edits_model,
    floor_boundary, leading_width, next_error, open_error, opened, previous_error, saved_as_is,
    shown_name, undone, untitled_document, Document, DocumentModel, DocumentPath, EditModel,
    LoadMode, LoadedSource, SaveTarget, TextEdit,
};
use crate::encoding::{detected_encoding, TextEncoding, ANSI_LIMIT};
use crate::error::{fails_as, BlitzError, ErrorModel, Result};
use crate::line_index::line_at;
use crate::piece_table::bounds_error;
use crate::search::{
    find_all_document_ranges, find_streaming_backward, find_streaming_forward, first_match,
    greedy_matches, last_match, least, needle_of, range_starts, search_needle,
};
use crate::settings::{default_settings, EditorSettings, SettingsModel};
use crate::text::{same_bytes, shown_text};
use crate::ui::{default_ui_state, NotepadUiState};
use crate::undo_laws::replaced_together;
use std::ops::Range;
use vstd::prelude::*;
use vstd::utf8::*;

verus! {

// ---------------------------------------------------------------------------
// Model
// ---------------------------------------------------------------------------

/// The editor as a mathematical value. A selection is given by its start and
/// its end.
pub struct AppModel {
    pub document: DocumentModel,
    pub settings: SettingsModel,
    pub caret: int,
    pub selection: Option<(int, int)>,
    pub clipboard_has_text: bool,
}

pub open spec fn range_model(range: Option<Range<usize>>) -> Option<(int, int)> {
    match range {
        Some(range) => Some((range.start as int, range.end as int)),
        None => None,
    }
}

/// A new editor.
pub open spec fn fresh_app(document: DocumentModel, settings: SettingsModel) -> AppModel {
    AppModel { document, settings, caret: 0, selection: None, clipboard_has_text: false }
}

/// The caret placed at `offset`.
pub open spec fn caret_set(m: AppModel, offset: int) -> (AppModel, Option<ErrorModel>) {
    match caret_error(m.document, offset) {
        Some(error) => (m, Some(error)),
        None => (AppModel { caret: offset, selection: None, ..m }, None),
    }
}

/// A selection made from `start` to `end`, with the caret at its end.
pub open spec fn selected(m: AppModel, start: int, end: int) -> (AppModel, Option<ErrorModel>) {
    if caret_error(m.document, start) is Some {
        (m, caret_error(m.document, start))
    } else if caret_error(m.document, end) is Some {
        (m, caret_error(m.document, end))
    } else {
        (AppModel { caret: end, selection: Some((start, end)), ..m }, None)
    }
}

/// The range between two offsets in either order, if there is anything between.
pub open spec fn between(anchor: int, focus: int) -> Option<(int, int)> {
    if anchor < focus {
        Some((anchor, focus))
    } else if focus < anchor {
        Some((focus, anchor))
    } else {
        None
    }
}

/// The text of a range, if the range lies within the document.
pub open spec fn range_text(m: DocumentModel, range: (int, int)) -> Option<Seq<char>> {
    if bounds_error(m.bytes.len() as int, range.0, range.1) is Some {
        None
    } else {
        Some(shown_text(m.bytes.subrange(range.0, range.1)))
    }
}

pub open spec fn selected_chars(m: AppModel) -> Option<Seq<char>> {
    match m.selection {
        Some(range) => range_text(m.document, range),
        None => None,
    }
}

/// Text typed at the caret, or in place of the selection.
pub open spec fn typed(m: AppModel, text: Seq<char>) -> (AppModel, Option<ErrorModel>) {
    let (start, end) = match m.selection {
        Some(range) => range,
        None => (m.caret, m.caret),
    };
    let outcome = edited(m.document, start, end, text);
    (
        AppModel {
            document: outcome.0,
            selection: None,
            caret: if outcome.1 is Some {
                m.caret
            } else {
                start + encode_utf8(text).len()
            },
            ..m
        },
        outcome.1,
    )
}

/// The selection deleted.
pub open spec fn selection_deleted(m: AppModel) -> (AppModel, Option<ErrorModel>) {
    match m.selection {
        None => (m, None),
        Some(range) => {
            let outcome = edited(m.document, range.0, range.1, Seq::empty());
            (
                AppModel {
                    document: outcome.0,
                    selection: None,
                    caret: if outcome.1 is Some {
                        m.caret
                    } else {
                        range.0
                    },
                    ..m
                },
                outcome.1,
            )
        },
    }
}

/// The selection, or the character after the caret, deleted.
pub open spec fn deleted_forward(m: AppModel) -> (AppModel, Option<ErrorModel>) {
    if m.selection is Some {
        selection_deleted(m)
    } else if next_error(m.document.bytes, m.caret) is Some {
        (m, next_error(m.document.bytes, m.caret))
    } else if m.caret == m.document.bytes.len() {
        (m, None)
    } else {
        let outcome = edited(
            m.document,
            m.caret,
            m.caret + leading_width(m.document.bytes[m.caret]),
            Seq::empty(),
        );
        (AppModel { document: outcome.0, ..m }, outcome.1)
    }
}

/// The selection, or the character before the caret, deleted.
pub open spec fn deleted_backward(m: AppModel) -> (AppModel, Option<ErrorModel>) {
    let previous = floor_boundary(m.document.bytes, m.caret - 1, 0);
    if m.selection is Some {
        selection_deleted(m)
    } else if previous_error(m.document.bytes, m.caret) is Some {
        (m, previous_error(m.document.bytes, m.caret))
    } else if m.caret == 0 {
        (m, None)
    } else {
        let outcome = edited(m.document, previous, m.caret, Seq::empty());
        (
            AppModel {
                document: outcome.0,
                caret: if outcome.1 is Some {
                    m.caret
                } else {
                    previous
                },
                ..m
            },
            outcome.1,
        )
    }
}

/// What a search finds: the nearest match from `offset` on in the direction of
/// the search or, where there is none and the search wraps around, the one
/// nearest to the other end of the text.
pub open spec fn found_start(
    bytes: Seq<u8>,
    query: Seq<char>,
    match_case: bool,
    forward: bool,
    wrap_around: bool,
    offset: int,
) -> Option<int> {
    let needle = needle_of(query, match_case);
    let near = if forward {
        first_match(bytes, needle, match_case, offset)
    } else {
        last_match(bytes, needle, match_case, offset)
    };
    let far = if forward {
        first_match(bytes, needle, match_case, 0)
    } else {
        last_match(bytes, needle, match_case, bytes.len() as int)
    };
    if query.len() == 0 {
        None
    } else if near is None && wrap_around {
        far
    } else {
        near
    }
}

/// Where a search begins: at the caret or, backwards, before the selection.
pub open spec fn search_offset(m: AppModel, forward: bool) -> int {
    match m.selection {
        Some(range) => if forward {
            m.caret
        } else {
            range.0
        },
        None => m.caret,
    }
}

/// The editor after a search, whether there was a match, and the error.
pub open spec fn searched(
    m: AppModel,
    query: Seq<char>,
    match_case: bool,
    forward: bool,
    wrap_around: bool,
) -> (AppModel, bool, Option<ErrorModel>) {
    match found_start(
        m.document.bytes,
        query,
        match_case,
        forward,
        wrap_around,
        search_offset(m, forward),
    ) {
        None => (m, false, None),
        Some(start) => {
            let outcome = selected(m, start, start + needle_of(query, match_case).len());
            (outcome.0, true, outcome.1)
        },
    }
}

/// The selected text is the searched one.
pub open spec fn selection_matches(m: AppModel, query: Seq<char>, match_case: bool) -> bool {
    m.selection is Some && needle_of(
        match selected_chars(m) {
            Some(text) => text,
            None => Seq::empty(),
        },
        match_case,
    ) == needle_of(query, match_case)
}

/// The selection replaced.
pub open spec fn selection_replaced(m: AppModel, replacement: Seq<char>) -> (
    AppModel,
    Option<ErrorModel>,
) {
    let range = m.selection->0;
    let outcome = edited(m.document, range.0, range.1, replacement);
    if outcome.1 is Some {
        (AppModel { document: outcome.0, ..m }, outcome.1)
    } else {
        (
            AppModel {
                document: outcome.0,
                caret: range.0 + encode_utf8(replacement).len(),
                selection: None,
                ..m
            },
            None,
        )
    }
}

/// The selection replaced where it is a match, else the next match.
pub open spec fn next_replaced(
    m: AppModel,
    query: Seq<char>,
    replacement: Seq<char>,
    match_case: bool,
) -> (AppModel, bool, Option<ErrorModel>) {
    if selection_matches(m, query, match_case) {
        let outcome = selection_replaced(m, replacement);
        (outcome.0, true, outcome.1)
    } else {
        let found = searched(m, query, match_case, true, true);
        if found.2 is Some || !found.1 {
            found
        } else {
            let outcome = selection_replaced(found.0, replacement);
            (outcome.0, true, outcome.1)
        }
    }
}

/// The edits that replace matches of `len` bytes at `starts`.
pub open spec fn replacing_edits(starts: Seq<int>, len: int, replacement: Seq<char>) -> Seq<
    EditModel,
> {
    Seq::new(
        starts.len(),
        |i: int| EditModel { start: starts[i], end: starts[i] + len, replacement },
    )
}

/// All matches of a search, given by their starts, replaced.
pub open spec fn all_replaced(
    m: AppModel,
    starts: Seq<int>,
    len: int,
    replacement: Seq<char>,
) -> (AppModel, Option<ErrorModel>) {
    let outcome = edited_all(m.document, replacing_edits(starts, len, replacement));
    if outcome.1 is Some {
        (AppModel { document: outcome.0, ..m }, outcome.1)
    } else {
        (
            AppModel {
                document: outcome.0,
                caret: least(m.caret, outcome.0.bytes.len() as int),
                selection: None,
                ..m
            },
            None,
        )
    }
}

/// The caret moved to the neighbouring line, to the same column.
pub open spec fn moved_vertically(m: AppModel, down: bool) -> (AppModel, Option<ErrorModel>) {
    let d = m.document;
    let line = line_at(d.index.starts, m.caret);
    let target = if down {
        line + 1
    } else {
        line - 1
    };
    if boundary_error(d.bytes, m.caret) is Some {
        (m, boundary_error(d.bytes, m.caret))
    } else if target < 0 || target >= d.index.starts.len() {
        (m, None)
    } else if char_column_error(d, m.caret) is Some {
        (m, char_column_error(d, m.caret))
    } else if column_offset_error(d, target) is Some {
        (m, column_offset_error(d, target))
    } else {
        caret_set(m, column_offset(d, target, char_column(d, m.caret)))
    }
}

/// A document opened in place of the present one.
pub open spec fn document_opened(m: AppModel, document: DocumentModel) -> AppModel {
    AppModel { document, caret: 0, selection: None, ..m }
}

pub open spec fn zoom_steps() -> Seq<u16> {
    seq![
        10u16,
        20,
        30,
        40,
        50,
        60,
        70,
        80,
        90,
        100,
        125,
        150,
        175,
        200,
        300,
        400,
        450,
        500,
    ]
}

/// The first step from number `i` on that is greater than `current`, or the
/// greatest.
pub open spec fn step_above(current: u16, i: int) -> u16
    decreases zoom_steps().len() - i,
{
    if i >= zoom_steps().len() {
        500
    } else if zoom_steps()[i] > current {
        zoom_steps()[i]
    } else {
        step_above(current, i + 1)
    }
}

/// The last of the first `n` steps that is smaller than `current`, or the
/// smallest.
pub open spec fn step_below(current: u16, n: int) -> u16
    decreases n,
{
    if n <= 0 {
        10
    } else if zoom_steps()[n - 1] < current {
        zoom_steps()[n - 1]
    } else {
        step_below(current, n - 1)
    }
}

/// The zoom after zooming in.
pub open spec fn zoomed_in(current: u16) -> u16 {
    step_above(current, 0)
}

/// The zoom after zooming out.
pub open spec fn zoomed_out(current: u16) -> u16 {
    step_below(current, zoom_steps().len() as int)
}

/// The caret moved by one character to the left.
pub open spec fn moved_left(m: AppModel) -> (AppModel, Option<ErrorModel>) {
    if previous_error(m.document.bytes, m.caret) is Some {
        (m, previous_error(m.document.bytes, m.caret))
    } else if m.caret == 0 {
        (m, None)
    } else {
        caret_set(m, floor_boundary(m.document.bytes, m.caret - 1, 0))
    }
}

/// The caret moved by one character to the right.
pub open spec fn moved_right(m: AppModel) -> (AppModel, Option<ErrorModel>) {
    if next_error(m.document.bytes, m.caret) is Some {
        (m, next_error(m.document.bytes, m.caret))
    } else if m.caret == m.document.bytes.len() {
        (m, None)
    } else {
        caret_set(m, m.caret + leading_width(m.document.bytes[m.caret]))
    }
}

/// The caret moved to the start of its line.
pub open spec fn moved_line_start(m: AppModel) -> (AppModel, Option<ErrorModel>) {
    if boundary_error(m.document.bytes, m.caret) is Some {
        (m, boundary_error(m.document.bytes, m.caret))
    } else {
        caret_set(m, m.document.index.starts[line_at(m.document.index.starts, m.caret)])
    }
}

/// The caret moved to the end of its line, before the line ending.
pub open spec fn moved_line_end(m: AppModel) -> (AppModel, Option<ErrorModel>) {
    if boundary_error(m.document.bytes, m.caret) is Some {
        (m, boundary_error(m.document.bytes, m.caret))
    } else {
        caret_set(m, content_end(m.document, line_at(m.document.index.starts, m.caret)))
    }
}

/// The last edit taken back.
pub open spec fn edit_undone(m: AppModel) -> (AppModel, Option<ErrorModel>) {
    let outcome = undone(m.document);
    if outcome.1 is Some {
        (AppModel { document: outcome.0, ..m }, outcome.1)
    } else {
        (
            AppModel {
                document: outcome.0,
                caret: least(m.caret, outcome.0.bytes.len() as int),
                selection: None,
                ..m
            },
            None,
        )
    }
}

/// The selection cut out; where that fails, it stays selected.
pub open spec fn selection_cut(m: AppModel) -> (AppModel, Option<ErrorModel>) {
    let outcome = selection_deleted(m);
    if outcome.1 is Some {
        (AppModel { document: outcome.0.document, ..m }, outcome.1)
    } else {
        outcome
    }
}

/// All of the text selected.
pub open spec fn all_selected(m: AppModel) -> AppModel {
    let len = m.document.bytes.len() as int;
    AppModel { caret: len, selection: Some((0int, len)), ..m }
}

/// A selection made from `anchor` to `focus`, in either order.
pub open spec fn range_selected(m: AppModel, anchor: int, focus: int) -> (
    AppModel,
    Option<ErrorModel>,
) {
    if selected(m, anchor, focus).1 is Some {
        (m, selected(m, anchor, focus).1)
    } else {
        (AppModel { caret: focus, selection: between(anchor, focus), ..m }, None)
    }
}

pub open spec fn word_wrap_toggled(m: AppModel) -> AppModel {
    AppModel {
        settings: SettingsModel { word_wrap: !m.settings.word_wrap, ..m.settings },
        ..m
    }
}

pub open spec fn status_bar_toggled(m: AppModel) -> AppModel {
    AppModel {
        settings: SettingsModel { status_bar_visible: !m.settings.status_bar_visible, ..m.settings },
        ..m
    }
}

// ---------------------------------------------------------------------------
// The editor
// ---------------------------------------------------------------------------

#[derive(Debug)]
pub struct BlitzApp {
    document: Document,
    settings: EditorSettings,
    caret_offset: usize,
    selection: Option<Range<usize>>,
    clipboard_has_text: bool,
}

/// A document as it is to be written, and where.
#[derive(Debug)]
pub struct SaveSnapshot {
    pub document: Document,
    pub target: SaveTarget,
}

impl View for BlitzApp {
    type V = AppModel;

    closed spec fn view(&self) -> AppModel {
        AppModel {
            document: self.document@,
            settings: self.settings@,
            caret: self.caret_offset as int,
            selection: range_model(self.selection),
            clipboard_has_text: self.clipboard_has_text,
        }
    }
}

impl BlitzApp {
    pub closed spec fn wf(&self) -> bool {
        self.document.wf()
    }

    /// The document.
    pub closed spec fn doc(&self) -> Document {
        self.document
    }

    pub closed spec fn setup(&self) -> EditorSettings {
        self.settings
    }

    /// What the document keeps of itself.
    pub proof fn lemma_valid(&self)
        requires
            self.wf(),
        ensures
            document_valid(self@.document),
    {
        self.document.lemma_valid();
    }

    pub fn new(settings: EditorSettings) -> (app: Self)
        ensures
            app.wf(),
            app@ == fresh_app(untitled_document(), settings@),
    {
        BlitzApp {
            document: Document::new_untitled(),
            settings,
            caret_offset: 0,
            selection: None,
            clipboard_has_text: false,
        }
    }

    /// An editor for a file that was read or mapped.
    pub fn open(path: DocumentPath, loaded: LoadedSource, settings: EditorSettings) -> (app: Result<
        Self,
    >)
        requires
            detected_encoding(loaded.source@) == TextEncoding::Ansi ==> loaded.source@.len()
                <= ANSI_LIMIT,
        ensures
            fails_as(app, open_error(loaded.source@)),
            app matches Ok(app) ==> {
                &&& app.wf()
                &&& app@ == fresh_app(
                    opened(path@, loaded.source@, loaded.mode, loaded.original_file_len),
                    settings@,
                )
            },
    {
        let document = Document::open(path, loaded)?;
        Ok(
            BlitzApp {
                document,
                settings,
                caret_offset: 0,
                selection: None,
                clipboard_has_text: false,
            },
        )
    }

    /// Opens a file that was read or mapped in place of the present document.
    pub fn open_document(&mut self, path: DocumentPath, loaded: LoadedSource) -> (result: Result<()>)
        requires
            old(self).wf(),
            detected_encoding(loaded.source@) == TextEncoding::Ansi ==> loaded.source@.len()
                <= ANSI_LIMIT,
        ensures
            final(self).wf(),
            fails_as(result, open_error(loaded.source@)),
            final(self)@ == (if result is Ok {
                document_opened(
                    old(self)@,
                    opened(path@, loaded.source@, loaded.mode, loaded.original_file_len),
                )
            } else {
                old(self)@
            }),
    {
        let document = Document::open(path, loaded)?;
        self.document = document;
        self.caret_offset = 0;
        self.selection = None;
        Ok(())
    }

    pub fn document(&self) -> (document: &Document)
        ensures
            *document == self.doc(),
            document@ == self@.document,
            self.wf() ==> document.wf(),
    {
        &self.document
    }

    pub fn document_mut(&mut self) -> (document: &mut Document)
        ensures
            *document == old(self).doc(),
            old(self).wf() ==> document.wf(),
            document@ == old(self)@.document,
            final(document).wf() ==> final(self).wf(),
            final(self)@ == (AppModel { document: final(document)@, ..old(self)@ }),
    {
        &mut self.document
    }

    pub fn settings(&self) -> (settings: &EditorSettings)
        ensures
            settings@ == self@.settings,
            *settings == self.setup(),
    {
        &self.settings
    }

    pub fn settings_mut(&mut self) -> (settings: &mut EditorSettings)
        ensures
            *settings == old(self).setup(),
            settings@ == old(self)@.settings,
            final(self).wf() == old(self).wf(),
            final(self).doc() == old(self).doc(),
            final(self)@ == (AppModel { settings: final(settings)@, ..old(self)@ }),
    {
        &mut self.settings
    }

    pub fn caret_offset(&self) -> (offset: usize)
        ensures
            offset == self@.caret,
    {
        self.caret_offset
    }

    /// How many bytes are selected.
    pub fn selection_len(&self) -> (len: usize)
        ensures
            len == selection_bytes(self@),
    {
        match &self.selection {
            Some(range) => if range.start < range.end {
                range.end - range.start
            } else {
                0
            },
            None => 0,
        }
    }

    /// What the window shows.
    pub fn ui_state(&self) -> (state: Result<NotepadUiState>)
        requires
            self.wf(),
        ensures
            fails_as(state, caret_error(self@.document, self@.caret)),
            state matches Ok(state) ==> is_ui_state(state, self@),
    {
        let mut state = default_ui_state(&self.settings);
        let caret = self.document.caret_position(self.caret_offset)?;
        state.file_name = self.document.file_name();
        state.dirty = self.document.is_dirty();
        state.caret_line = caret.line;
        state.caret_column = caret.column;
        state.line_ending = self.document.line_ending();
        state.encoding = self.document.encoding();
        state.selection_bytes = self.selection_len();
        state.can_delete_forward = self.caret_offset < self.document.len();
        state.undo_available = self.document.can_undo();
        state.clipboard_has_text = self.clipboard_has_text;
        Ok(state)
    }

    pub fn set_caret_offset(&mut self, byte_offset: usize) -> (result: Result<()>)
        requires
            old(self).wf(),
        ensures
            final(self).wf(),
            final(self).doc() == old(self).doc(),
            final(self)@ == caret_set(old(self)@, byte_offset as int).0,
            fails_as(result, caret_set(old(self)@, byte_offset as int).1),
    {
        self.document.caret_position(byte_offset)?;
        self.caret_offset = byte_offset;
        self.selection = None;
        Ok(())
    }

    pub fn set_selection(&mut self, range: Range<usize>) -> (result: Result<()>)
        requires
            old(self).wf(),
        ensures
            final(self).wf(),
            final(self).doc() == old(self).doc(),
            final(self)@ == selected(old(self)@, range.start as int, range.end as int).0,
            fails_as(result, selected(old(self)@, range.start as int, range.end as int).1),
    {
        self.document.caret_position(range.start)?;
        self.document.caret_position(range.end)?;
        self.caret_offset = range.end;
        self.selection = Some(range);
        Ok(())
    }

    /// Selects from where the selection began to where it has got to.
    pub fn set_selection_range(&mut self, anchor: usize, focus: usize) -> (result: Result<()>)
        requires
            old(self).wf(),
        ensures
            final(self).wf(),
            final(self).doc() == old(self).doc(),
            final(self)@ == range_selected(old(self)@, anchor as int, focus as int).0,
            fails_as(result, range_selected(old(self)@, anchor as int, focus as int).1),
    {
        self.document.caret_position(anchor)?;
        self.document.caret_position(focus)?;
        self.caret_offset = focus;
        self.selection = normalized_selection(anchor, focus);
        Ok(())
    }

    pub fn selected_range(&self) -> (range: Option<Range<usize>>)
        ensures
            range_model(range) == self@.selection,
    {
        match &self.selection {
            Some(range) => Some(range.start..range.end),
            None => None,
        }
    }

    pub fn set_clipboard_has_text(&mut self, clipboard_has_text: bool)
        ensures
            final(self).wf() == old(self).wf(),
            final(self).doc() == old(self).doc(),
            final(self)@ == (AppModel { clipboard_has_text, ..old(self)@ }),
    {
        self.clipboard_has_text = clipboard_has_text;
    }

    pub fn new_document(&mut self)
        ensures
            final(self).wf(),
            final(self)@ == fresh_app(untitled_document(), old(self)@.settings),
    {
        self.document = Document::new_untitled();
        self.caret_offset = 0;
        self.selection = None;
        self.clipboard_has_text = false;
    }

    pub fn select_all(&mut self)
        requires
            old(self).wf(),
        ensures
            final(self).wf(),
            final(self).doc() == old(self).doc(),
            final(self)@ == all_selected(old(self)@),
    {
        let len: usize = self.document.len();
        self.selection = Some(0..len);
        self.caret_offset = len;
    }

    pub fn selected_text(&self) -> (text: Option<String>)
        requires
            self.wf(),
        ensures
            crate::document::opt_text(text) == selected_chars(self@),
    {
        match &self.selection {
            Some(range) => match self.document.text_range_lossy(range.start..range.end) {
                Ok(text) => Some(text),
                Err(_) => None,
            },
            None => None,
        }
    }

    /// Removes the selection and returns its text.
    pub fn cut_selection(&mut self) -> (text: Result<Option<String>>)
        requires
            old(self).wf(),
        ensures
            final(self).wf(),
            final(self)@ == selection_cut(old(self)@).0,
            fails_as(text, selection_cut(old(self)@).1),
            text matches Ok(text) ==> crate::document::opt_text(text) == selected_chars(old(self)@),
    {
        let (start, end) = match &self.selection {
            Some(range) => (range.start, range.end),
            None => {
                return Ok(None);
            },
        };
        let text = self.selected_text();
        self.document.delete_range(start..end)?;
        self.caret_offset = start;
        self.selection = None;
        Ok(text)
    }

    pub fn paste_text(&mut self, text: &str) -> (result: Result<()>)
        requires
            old(self).wf(),
        ensures
            final(self).wf(),
            final(self)@ == typed(old(self)@, text@).0,
            fails_as(result, typed(old(self)@, text@).1),
    {
        self.insert_text(text)
    }

    /// Types `text` at the caret, or in place of the selection.
    pub fn insert_text(&mut self, text: &str) -> (result: Result<()>)
        requires
            old(self).wf(),
        ensures
            final(self).wf(),
            final(self)@ == typed(old(self)@, text@).0,
            fails_as(result, typed(old(self)@, text@).1),
    {
        let (start, end) = match self.selected_range() {
            Some(range) => (range.start, range.end),
            None => (self.caret_offset, self.caret_offset),
        };
        let ghost before = self@;
        self.selection = None;
        self.document.replace_range(start..end, text)?;
        let new_len: usize = self.document.len();
        proof {
            lemma_edit_fits(before.document, start as int, end as int, text@);
        }
        self.caret_offset = start + text.as_bytes().len();
        Ok(())
    }

    /// Deletes the selection. The answer says whether there was one.
    pub fn delete_selection(&mut self) -> (result: Result<bool>)
        requires
            old(self).wf(),
        ensures
            final(self).wf(),
            final(self)@ == selection_deleted(old(self)@).0,
            fails_as(result, selection_deleted(old(self)@).1),
            result matches Ok(was_any) ==> was_any == (old(self)@.selection is Some),
    {
        let (start, end) = match self.selected_range() {
            Some(range) => (range.start, range.end),
            None => {
                return Ok(false);
            },
        };
        self.selection = None;
        self.document.delete_range(start..end)?;
        self.caret_offset = start;
        Ok(true)
    }

    /// Deletes the selection or the character after the caret. The answer says
    /// whether there was one.
    pub fn delete_forward(&mut self) -> (result: Result<bool>)
        requires
            old(self).wf(),
        ensures
            final(self).wf(),
            final(self)@ == deleted_forward(old(self)@).0,
            fails_as(result, deleted_forward(old(self)@).1),
            result matches Ok(was_any) ==> was_any == (old(self)@.selection is Some
                || old(self)@.caret < old(self)@.document.bytes.len()),
    {
        if self.delete_selection()? {
            return Ok(true);
        }
        let next_offset: usize = match self.document.next_char_offset(self.caret_offset)? {
            Some(offset) => offset,
            None => {
                return Ok(false);
            },
        };
        self.document.delete_range(self.caret_offset..next_offset)?;
        Ok(true)
    }

    /// Deletes the selection or the character before the caret. The answer says
    /// whether there was one.
    pub fn backspace(&mut self) -> (result: Result<bool>)
        requires
            old(self).wf(),
        ensures
            final(self).wf(),
            final(self)@ == deleted_backward(old(self)@).0,
            fails_as(result, deleted_backward(old(self)@).1),
            result matches Ok(was_any) ==> was_any == (old(self)@.selection is Some
                || old(self)@.caret > 0),
    {
        if self.delete_selection()? {
            return Ok(true);
        }
        let previous_offset: usize = match self.document.previous_char_offset(self.caret_offset)? {
            Some(offset) => offset,
            None => {
                return Ok(false);
            },
        };
        self.document.delete_range(previous_offset..self.caret_offset)?;
        self.caret_offset = previous_offset;
        Ok(true)
    }

    /// Finds `query` from the caret on, and around the end of the text.
    pub fn find_text(&mut self, query: &str, match_case: bool, forward: bool) -> (found: Result<
        bool,
    >)
        requires
            old(self).wf(),
        ensures
            final(self).wf(),
            final(self).doc() == old(self).doc(),
            ({
                let outcome = searched(old(self)@, query@, match_case, forward, true);
                &&& final(self)@ == outcome.0
                &&& fails_as(found, outcome.2)
                &&& found matches Ok(any) ==> any == outcome.1
            }),
            valid_utf8(old(self)@.document.bytes) ==> found is Ok,
    {
        self.find_text_with_options(query, match_case, forward, true)
    }

    /// Finds and selects the nearest match of `query`.
    pub fn find_text_with_options(
        &mut self,
        query: &str,
        match_case: bool,
        forward: bool,
        wrap_around: bool,
    ) -> (found: Result<bool>)
        requires
            old(self).wf(),
        ensures
            final(self).wf(),
            final(self).doc() == old(self).doc(),
            ({
                let outcome = searched(old(self)@, query@, match_case, forward, wrap_around);
                &&& final(self)@ == outcome.0
                &&& fails_as(found, outcome.2)
                &&& found matches Ok(any) ==> any == outcome.1
            }),
            valid_utf8(old(self)@.document.bytes) ==> found is Ok,
    {
        proof {
            self.lemma_valid();
            if valid_utf8(self@.document.bytes) {
                law_search_succeeds(self@, query@, match_case, forward, wrap_around);
            }
        }
        let offset: usize = match &self.selection {
            Some(range) => if forward {
                self.caret_offset
            } else {
                range.start
            },
            None => self.caret_offset,
        };
        match self.fast_find_range(query, match_case, forward, wrap_around, offset) {
            Some(range) => {
                self.set_selection(range)?;
                Ok(true)
            },
            None => Ok(false),
        }
    }

    fn fast_find_range(
        &self,
        query: &str,
        match_case: bool,
        forward: bool,
        wrap_around: bool,
        offset: usize,
    ) -> (range: Option<Range<usize>>)
        requires
            self.wf(),
        ensures
            crate::search::is_range_of(
                range,
                found_start(
                    self@.document.bytes,
                    query@,
                    match_case,
                    forward,
                    wrap_around,
                    offset as int,
                ),
                needle_of(query@, match_case).len() as int,
            ),
    {
        if query.is_empty() {
            return None;
        }
        if forward {
            match find_streaming_forward(&self.document, query, offset, match_case) {
                Some(range) => Some(range),
                None => if wrap_around {
                    find_streaming_forward(&self.document, query, 0, match_case)
                } else {
                    None
                },
            }
        } else {
            match find_streaming_backward(&self.document, query, offset, match_case) {
                Some(range) => Some(range),
                None => if wrap_around {
                    let len: usize = self.document.len();
                    find_streaming_backward(&self.document, query, len, match_case)
                } else {
                    None
                },
            }
        }
    }

    /// Replaces the selection if it is a match, else the next match. The answer
    /// says whether there was one.
    pub fn replace_next(&mut self, query: &str, replacement: &str, match_case: bool) -> (result:
        Result<bool>)
        requires
            old(self).wf(),
        ensures
            final(self).wf(),
            ({
                let outcome = next_replaced(old(self)@, query@, replacement@, match_case);
                &&& final(self)@ == outcome.0
                &&& fails_as(result, outcome.2)
                &&& result matches Ok(any) ==> any == outcome.1
            }),
    {
        if self.selection_is(query, match_case) {
            self.replace_selection(replacement)?;
            return Ok(true);
        }
        if self.find_text(query, match_case, true)? {
            self.replace_selection(replacement)?;
            Ok(true)
        } else {
            Ok(false)
        }
    }

    fn selection_is(&self, query: &str, match_case: bool) -> (matches: bool)
        requires
            self.wf(),
        ensures
            matches == selection_matches(self@, query@, match_case),
    {
        if self.selection.is_none() {
            return false;
        }
        let text = match self.selected_text() {
            Some(text) => text,
            None => String::new(),
        };
        text_matches(text.as_str(), query, match_case)
    }

    fn replace_selection(&mut self, replacement: &str) -> (result: Result<()>)
        requires
            old(self).wf(),
            old(self)@.selection is Some,
        ensures
            final(self).wf(),
            final(self)@ == selection_replaced(old(self)@, replacement@).0,
            fails_as(result, selection_replaced(old(self)@, replacement@).1),
    {
        let (start, end) = match self.selected_range() {
            Some(range) => (range.start, range.end),
            None => (0, 0),
        };
        let ghost before = self@;
        self.document.replace_range(start..end, replacement)?;
        let new_len: usize = self.document.len();
        proof {
            lemma_edit_fits(before.document, start as int, end as int, replacement@);
        }
        self.caret_offset = start + replacement.as_bytes().len();
        self.selection = None;
        Ok(())
    }

    /// Replaces all matches as one edit and returns how many there were.
    pub fn replace_all(&mut self, query: &str, replacement: &str, match_case: bool) -> (count: Result<
        usize,
    >)
        requires
            old(self).wf(),
        ensures
            final(self).wf(),
            query@.len() == 0 ==> count == Ok::<usize, BlitzError>(0) && final(self)@ == old(self)@,
            query@.len() > 0 ==> ({
                let needle = needle_of(query@, match_case);
                let starts = greedy_matches(old(self)@.document.bytes, needle, match_case, 0);
                let outcome = all_replaced(
                    old(self)@,
                    starts,
                    needle.len() as int,
                    replacement@,
                );
                &&& final(self)@ == outcome.0
                &&& fails_as(count, outcome.1)
                &&& count matches Ok(count) ==> count == starts.len()
                &&& valid_utf8(old(self)@.document.bytes) ==> {
                    &&& count is Ok
                    &&& final(self)@.document.bytes == replaced_together(
                        old(self)@.document.bytes,
                        replacing_edits(starts, needle.len() as int, replacement@),
                        0,
                        0,
                    )
                }
            }),
    {
        let _len: usize = self.document.len();
        proof {
            if valid_utf8(self@.document.bytes) && query@.len() > 0 {
                law_replace_all_replaces_every_match(self@, query@, replacement@, match_case);
            }
        }
        if query.is_empty() {
            return Ok(0);
        }
        let ranges = find_all_document_ranges(&self.document, query, match_case);
        let edits = edits_for(&ranges, replacement);
        let ghost len = needle_of(query@, match_case).len() as int;
        proof {
            assert(ranges_as_edits(ranges@, replacement@) =~= replacing_edits(
                range_starts(ranges@),
                len,
                replacement@,
            ));
        }
        self.document.apply_edits_from_end(edits.as_slice())?;
        let new_len: usize = self.document.len();
        if new_len < self.caret_offset {
            self.caret_offset = new_len;
        }
        self.selection = None;
        Ok(ranges.len())
    }

    /// Puts the caret at the start of a line, counted from one. The answer says
    /// whether there is such a line.
    pub fn go_to_line(&mut self, one_based_line: usize) -> (result: Result<bool>)
        requires
            old(self).wf(),
        ensures
            final(self).wf(),
            final(self).doc() == old(self).doc(),
            ({
                let starts = old(self)@.document.index.starts;
                let exists_line = 1 <= one_based_line <= starts.len();
                let outcome = caret_set(old(self)@, starts[one_based_line - 1]);
                &&& final(self)@ == (if exists_line {
                    outcome.0
                } else {
                    old(self)@
                })
                &&& fails_as(
                    result,
                    if exists_line {
                        outcome.1
                    } else {
                        None
                    },
                )
                &&& result matches Ok(any) ==> any == exists_line
            }),
    {
        if one_based_line == 0 {
            return Ok(false);
        }
        match self.document.line_start(one_based_line - 1) {
            Some(offset) => {
                self.set_caret_offset(offset)?;
                Ok(true)
            },
            None => Ok(false),
        }
    }

    pub fn move_left(&mut self) -> (result: Result<()>)
        requires
            old(self).wf(),
        ensures
            final(self).wf(),
            final(self).doc() == old(self).doc(),
            final(self)@ == moved_left(old(self)@).0,
            fails_as(result, moved_left(old(self)@).1),
    {
        match self.document.previous_char_offset(self.caret_offset)? {
            Some(offset) => self.set_caret_offset(offset),
            None => Ok(()),
        }
    }

    pub fn move_right(&mut self) -> (result: Result<()>)
        requires
            old(self).wf(),
        ensures
            final(self).wf(),
            final(self).doc() == old(self).doc(),
            final(self)@ == moved_right(old(self)@).0,
            fails_as(result, moved_right(old(self)@).1),
    {
        match self.document.next_char_offset(self.caret_offset)? {
            Some(offset) => self.set_caret_offset(offset),
            None => Ok(()),
        }
    }

    pub fn move_line_start(&mut self) -> (result: Result<()>)
        requires
            old(self).wf(),
        ensures
            final(self).wf(),
            final(self).doc() == old(self).doc(),
            final(self)@ == moved_line_start(old(self)@).0,
            fails_as(result, moved_line_start(old(self)@).1),
    {
        let range = self.document.line_content_range_for_offset(self.caret_offset)?;
        self.set_caret_offset(range.start)
    }

    pub fn move_line_end(&mut self) -> (result: Result<()>)
        requires
            old(self).wf(),
        ensures
            final(self).wf(),
            final(self).doc() == old(self).doc(),
            final(self)@ == moved_line_end(old(self)@).0,
            fails_as(result, moved_line_end(old(self)@).1),
    {
        let range = self.document.line_content_range_for_offset(self.caret_offset)?;
        self.set_caret_offset(range.end)
    }

    pub fn move_up(&mut self) -> (result: Result<()>)
        requires
            old(self).wf(),
        ensures
            final(self).wf(),
            final(self).doc() == old(self).doc(),
            final(self)@ == moved_vertically(old(self)@, false).0,
            fails_as(result, moved_vertically(old(self)@, false).1),
    {
        self.move_vertical(false)
    }

    pub fn move_down(&mut self) -> (result: Result<()>)
        requires
            old(self).wf(),
        ensures
            final(self).wf(),
            final(self).doc() == old(self).doc(),
            final(self)@ == moved_vertically(old(self)@, true).0,
            fails_as(result, moved_vertically(old(self)@, true).1),
    {
        self.move_vertical(true)
    }

    fn move_vertical(&mut self, down: bool) -> (result: Result<()>)
        requires
            old(self).wf(),
        ensures
            final(self).wf(),
            final(self).doc() == old(self).doc(),
            final(self)@ == moved_vertically(old(self)@, down).0,
            fails_as(result, moved_vertically(old(self)@, down).1),
    {
        let line: usize = self.document.line_for_offset(self.caret_offset)?;
        let count: usize = self.document.line_count();
        proof {
            self.document.lemma_valid();
            lemma_line_in_bounds(self.document@, self.caret_offset as int);
        }
        let target: usize = if down {
            if line + 1 >= count {
                return Ok(());
            }
            line + 1
        } else {
            if line == 0 {
                return Ok(());
            }
            line - 1
        };
        let column: usize = self.document.char_column_for_offset(self.caret_offset)?;
        let offset: usize = self.document.offset_for_char_column(target, column)?;
        self.set_caret_offset(offset)
    }

    /// Takes back the last edit. The answer says whether there was one.
    pub fn undo(&mut self) -> (result: Result<bool>)
        requires
            old(self).wf(),
        ensures
            final(self).wf(),
            final(self)@ == edit_undone(old(self)@).0,
            fails_as(result, edit_undone(old(self)@).1),
            result matches Ok(any) ==> any == (old(self)@.document.undo.len() > 0),
    {
        let undone = self.document.undo()?;
        let len: usize = self.document.len();
        if len < self.caret_offset {
            self.caret_offset = len;
        }
        self.selection = None;
        Ok(undone)
    }

    /// Where and how the document is to be written, if it has a path.
    pub fn save(&self) -> (target: Option<SaveTarget>)
        ensures
            target is Some <==> self@.document.path is Some,
            target matches Some(target) ==> is_target_of(target, self@.document),
    {
        match self.document.save() {
            Ok(target) => Some(target),
            Err(_) => None,
        }
    }

    /// The document as it is, to be written while editing goes on.
    pub fn save_snapshot(&self) -> (snapshot: Option<SaveSnapshot>)
        requires
            self.wf(),
        ensures
            snapshot is Some <==> self@.document.path is Some,
            snapshot matches Some(snapshot) ==> {
                &&& snapshot.document.wf()
                &&& snapshot.document@ == (DocumentModel {
                    undo: Seq::empty(),
                    ..self@.document
                })
                &&& is_target_of(snapshot.target, self@.document)
            },
    {
        match self.document.save() {
            Ok(target) => Some(
                SaveSnapshot { document: self.document.snapshot_clone(), target },
            ),
            Err(_) => None,
        }
    }

    /// Notes that the state of the given generation was saved. The answer says
    /// whether that is still the present one.
    pub fn complete_save_snapshot(&mut self, generation: u64, saved_len: u64) -> (marked: bool)
        requires
            old(self).wf(),
        ensures
            final(self).wf(),
            marked == (old(self)@.document.generation == generation),
            final(self)@ == (if marked {
                AppModel { document: saved_as_is(old(self)@.document, saved_len), ..old(self)@ }
            } else {
                old(self)@
            }),
    {
        self.document.mark_saved_generation(generation, saved_len)
    }

    /// Notes that the document now fills a file of `saved_len` bytes at `path`.
    pub fn save_as_path(&mut self, path: DocumentPath, saved_len: u64)
        requires
            old(self).wf(),
        ensures
            final(self).wf(),
            final(self)@ == (AppModel {
                document: DocumentModel {
                    path: Some(path@),
                    load_mode: LoadMode::Heap,
                    ..saved_as_is(old(self)@.document, saved_len)
                },
                ..old(self)@
            }),
    {
        let encoding = self.document.encoding();
        let line_ending = self.document.line_ending();
        self.document.save_as(path, encoding, line_ending, saved_len);
    }

    /// Replaces several ranges by the same text, as one edit.
    pub fn apply_multi_cursor_text(&mut self, ranges: Vec<Range<usize>>, replacement: &str) -> (
    result: Result<()>)
        requires
            old(self).wf(),
        ensures
            final(self).wf(),
            ({
                let outcome = edited_all(
                    old(self)@.document,
                    ranges_as_edits(ranges@, replacement@),
                );
                &&& final(self)@ == (AppModel { document: outcome.0, ..old(self)@ })
                &&& fails_as(result, outcome.1)
            }),
    {
        let edits = edits_for(&ranges, replacement);
        assert(edits_model(edits@) =~= ranges_as_edits(ranges@, replacement@));
        self.document.apply_edits_from_end(edits.as_slice())
    }

    /// Types the time and date.
    pub fn insert_time_date(&mut self, now: LocalDateTime) -> (result: Result<()>)
        requires
            old(self).wf(),
        ensures
            final(self).wf(),
            final(self)@ == typed(old(self)@, fallback_text(now)).0,
            fails_as(result, typed(old(self)@, fallback_text(now)).1),
    {
        let text = fallback_time_date(now);
        self.insert_text(text.as_str())
    }

    pub fn zoom_in(&mut self)
        ensures
            final(self).wf() == old(self).wf(),
            final(self).doc() == old(self).doc(),
            final(self)@ == with_zoom(old(self)@, zoomed_in(old(self)@.settings.zoom_percent)),
    {
        let next: u16 = next_zoom_in(self.settings.zoom_percent);
        self.settings.set_zoom_percent(next);
    }

    pub fn zoom_out(&mut self)
        ensures
            final(self).wf() == old(self).wf(),
            final(self).doc() == old(self).doc(),
            final(self)@ == with_zoom(old(self)@, zoomed_out(old(self)@.settings.zoom_percent)),
    {
        let next: u16 = next_zoom_out(self.settings.zoom_percent);
        self.settings.set_zoom_percent(next);
    }

    pub fn restore_default_zoom(&mut self)
        ensures
            final(self).wf() == old(self).wf(),
            final(self).doc() == old(self).doc(),
            final(self)@ == with_zoom(old(self)@, 100),
    {
        self.settings.set_zoom_percent(100);
    }

    pub fn toggle_word_wrap(&mut self)
        ensures
            final(self).wf() == old(self).wf(),
            final(self).doc() == old(self).doc(),
            final(self)@ == word_wrap_toggled(old(self)@),
    {
        self.settings.word_wrap = !self.settings.word_wrap;
    }

    pub fn toggle_status_bar(&mut self)
        ensures
            final(self).wf() == old(self).wf(),
            final(self).doc() == old(self).doc(),
            final(self)@ == status_bar_toggled(old(self)@),
    {
        self.settings.status_bar_visible = !self.settings.status_bar_visible;
    }
}

impl Default for BlitzApp {
    fn default() -> (app: Self)
        ensures
            app.wf(),
            app@ == fresh_app(untitled_document(), default_settings()),
    {
        BlitzApp::new(EditorSettings::default())
    }
}

/// A state of the window shows the editor.
pub open spec fn is_ui_state(state: NotepadUiState, m: AppModel) -> bool {
    let d = m.document;
    &&& state.file_name@ == shown_name(d.path)
    &&& state.dirty == d.dirty
    &&& state.caret_line == line_at(d.index.starts, m.caret) + 1
    &&& state.caret_column == caret_column(d, m.caret)
    &&& state.zoom_percent == m.settings.zoom_percent
    &&& state.line_ending == d.line_ending
    &&& state.encoding == d.encoding
    &&& state.selection_bytes == selection_bytes(m)
    &&& state.can_delete_forward == (m.caret < d.bytes.len())
    &&& state.undo_available == (d.undo.len() > 0)
    &&& state.clipboard_has_text == m.clipboard_has_text
    &&& state.word_wrap == m.settings.word_wrap
    &&& state.status_bar_visible == m.settings.status_bar_visible
}

pub open spec fn selection_bytes(m: AppModel) -> int {
    match m.selection {
        Some(range) => if range.0 < range.1 {
            range.1 - range.0
        } else {
            0
        },
        None => 0,
    }
}

pub open spec fn is_target_of(target: SaveTarget, m: DocumentModel) -> bool {
    &&& Some(target.path@) == m.path
    &&& target.encoding == m.encoding
    &&& target.line_ending == m.line_ending
    &&& target.generation == m.generation
}

pub open spec fn with_zoom(m: AppModel, zoom_percent: u16) -> AppModel {
    AppModel { settings: SettingsModel { zoom_percent, ..m.settings }, ..m }
}

pub open spec fn ranges_as_edits(ranges: Seq<Range<usize>>, replacement: Seq<char>) -> Seq<
    EditModel,
> {
    Seq::new(
        ranges.len(),
        |i: int|
            EditModel {
                start: ranges[i].start as int,
                end: ranges[i].end as int,
                replacement,
            },
    )
}

fn edits_for(ranges: &Vec<Range<usize>>, replacement: &str) -> (edits: Vec<TextEdit>)
    ensures
        edits_model(edits@) == ranges_as_edits(ranges@, replacement@),
{
    let mut edits: Vec<TextEdit> = Vec::new();
    let mut i: usize = 0;
    while i < ranges.len()
        invariant
            i <= ranges@.len(),
            edits_model(edits@) == ranges_as_edits(ranges@, replacement@).take(i as int),
        decreases ranges@.len() - i,
    {
        let ghost held = edits@;
        edits.push(
            TextEdit {
                range: ranges[i].start..ranges[i].end,
                replacement: crate::text::owned(replacement),
            },
        );
        i += 1;
        assert(edits_model(edits@) =~= edits_model(held).push(edits@.last()@));
        assert(edits_model(edits@) =~= ranges_as_edits(ranges@, replacement@).take(i as int));
    }
    assert(edits_model(edits@) =~= ranges_as_edits(ranges@, replacement@));
    edits
}

/// Whether two texts are the same, up to the case of ASCII letters unless case
/// matters.
pub fn text_matches(text: &str, query: &str, match_case: bool) -> (matches: bool)
    ensures
        matches == (needle_of(text@, match_case) == needle_of(query@, match_case)),
{
    let a = search_needle(text, match_case);
    let b = search_needle(query, match_case);
    same_bytes(a.as_slice(), b.as_slice())
}

/// The range between two offsets in either order, if there is anything between.
pub fn normalized_selection(anchor: usize, focus: usize) -> (range: Option<Range<usize>>)
    ensures
        range_model(range) == between(anchor as int, focus as int),
{
    if anchor < focus {
        Some(anchor..focus)
    } else if focus < anchor {
        Some(focus..anchor)
    } else {
        None
    }
}

fn zoom_step_list() -> (steps: Vec<u16>)
    ensures
        steps@ == zoom_steps(),
{
    let steps: Vec<u16> = vec![
        10, 20, 30, 40, 50, 60, 70, 80, 90, 100, 125, 150, 175, 200, 300, 400, 450, 500,
    ];
    assert(steps@ =~= zoom_steps());
    steps
}

fn next_zoom_in(current: u16) -> (step: u16)
    ensures
        step == zoomed_in(current),
        10 <= step <= 500,
{
    let steps = zoom_step_list();
    let mut i: usize = 0;
    while i < steps.len()
        invariant
            steps@ == zoom_steps(),
            i <= steps@.len(),
            zoomed_in(current) == step_above(current, i as int),
        decreases steps@.len() - i,
    {
        if steps[i] > current {
            assert(10 <= zoom_steps()[i as int] <= 500);
            return steps[i];
        }
        i += 1;
    }
    500
}

fn next_zoom_out(current: u16) -> (step: u16)
    ensures
        step == zoomed_out(current),
        10 <= step <= 500,
{
    let steps = zoom_step_list();
    let mut i: usize = steps.len();
    while i > 0
        invariant
            steps@ == zoom_steps(),
            i <= steps@.len(),
            zoomed_out(current) == step_below(current, i as int),
        decreases i,
    {
        if steps[i - 1] < current {
            assert(10 <= zoom_steps()[i - 1] <= 500);
            return steps[i - 1];
        }
        i -= 1;
    }
    10
}

/// What an edit puts in lies within the new text.
proof fn lemma_edit_fits(m: DocumentModel, start: int, end: int, text: Seq<char>)
    requires
        0 <= start,
        edited(m, start, end, text).1 is None,
    ensures
        start + encode_utf8(text).len() <= edited(m, start, end, text).0.bytes.len(),
{
    if start == end && text.len() == 0 {
        assert(encode_utf8(text).len() == 0);
    }
}

proof fn lemma_line_in_bounds(m: DocumentModel, offset: int)
    requires
        document_valid(m),
        offset >= 0,
    ensures
        0 <= line_at(m.index.starts, offset) < m.index.starts.len(),
{
    crate::line_index::lemma_line_at(m.index.starts, offset);
}

} // verus!

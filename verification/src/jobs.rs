//! What happens once something outside of the editor is done, and what a frame
//! shows of it.

use crate::app::{document_opened, range_model, AppModel, BlitzApp};
use crate::commands::{
    came_out, dialog_opened, noted, open_info_window, proceed, quiet, stepped, Effect, Step,
};
use crate::dialog::DialogModel;
use crate::document::{
    open_error, opened, opt_text, saved_as_is, shown_name, Document, DocumentModel, DocumentPath, LoadMode,
    LoadedSource,
};
use crate::encoding::{detected_encoding, TextEncoding, ANSI_LIMIT};
use crate::error::{fails_as, Result};
use crate::gui::{scroll_reset, status_note, GuiModel, GuiState};
use crate::text::{owned, texts};
use crate::ui::{status_texts, NotepadUiState};
use std::ops::Range;
use vstd::prelude::*;

verus! {

// ---------------------------------------------------------------------------
// Files
// ---------------------------------------------------------------------------

/// Opens a file that was picked and read.
pub fn finish_open(
    app: &mut BlitzApp,
    gui_state: &mut GuiState,
    path: DocumentPath,
    loaded: LoadedSource,
    shown_path: &str,
) -> (result: Result<()>)
    requires
        old(app).wf(),
        detected_encoding(loaded.source@) == TextEncoding::Ansi ==> loaded.source@.len()
            <= ANSI_LIMIT,
    ensures
        final(app).wf(),
        fails_as(result, open_error(loaded.source@)),
        result is Err ==> final(app)@ == old(app)@ && final(gui_state)@ == old(gui_state)@,
        result is Ok ==> {
            &&& final(app)@ == document_opened(
                old(app)@,
                opened(path@, loaded.source@, loaded.mode, loaded.original_file_len),
            )
            &&& final(gui_state)@ == noted(
                scroll_reset(old(gui_state)@, 0),
                "Opened "@ + shown_path@,
            )
        },
{
    app.open_document(path, loaded)?;
    gui_state.reset_scroll(app);
    let mut message = owned("Opened ");
    message.append(shown_path);
    gui_state.set_message(message.as_str());
    Ok(())
}

/// Notes that the document was saved under another path.
pub fn finish_save_as(
    app: &mut BlitzApp,
    gui_state: &mut GuiState,
    path: DocumentPath,
    saved_len: u64,
    shown_path: &str,
)
    requires
        old(app).wf(),
    ensures
        final(app).wf(),
        final(app)@ == (AppModel {
            document: DocumentModel {
                path: Some(path@),
                load_mode: LoadMode::Heap,
                ..saved_as_is(old(app)@.document, saved_len)
            },
            ..old(app)@
        }),
        final(gui_state)@ == noted(old(gui_state)@, "Saved "@ + shown_path@),
{
    app.save_as_path(path, saved_len);
    let mut message = owned("Saved ");
    message.append(shown_path);
    gui_state.set_message(message.as_str());
}

/// How a save in the background ended.
#[derive(Debug, PartialEq, Eq)]
pub enum SaveEnd {
    /// So many bytes of the given generation were written.
    Written { generation: u64, len: u64 },
    Failed(String),
    /// The save stopped without a word.
    Stopped,
}

/// What the end of a save leads to: changes made since then stay unsaved.
pub open spec fn save_ended(g: GuiModel, a: AppModel, end: SaveEnd) -> (GuiModel, AppModel) {
    let idle = GuiModel { saving: false, ..g };
    match end {
        SaveEnd::Written { generation, len } => if a.document.generation == generation {
            (
                noted(idle, "Saved"@),
                AppModel { document: saved_as_is(a.document, len), ..a },
            )
        } else {
            (noted(idle, "Saved snapshot; newer edits remain"@), a)
        },
        SaveEnd::Failed(error) => (
            dialog_opened(
                idle,
                DialogModel::Info { title: "Save"@, message: "Save failed: "@ + error@ },
            ),
            a,
        ),
        SaveEnd::Stopped => (
            dialog_opened(
                idle,
                DialogModel::Info { title: "Save"@, message: "Save failed: worker stopped"@ },
            ),
            a,
        ),
    }
}

/// Takes in the end of a save in the background.
pub fn poll_save_job(app: &mut BlitzApp, gui_state: &mut GuiState, end: SaveEnd)
    requires
        old(app).wf(),
    ensures
        final(app).wf(),
        (final(gui_state)@, final(app)@) == save_ended(old(gui_state)@, old(app)@, end),
{
    gui_state.saving = false;
    match end {
        SaveEnd::Written { generation, len } => {
            if app.complete_save_snapshot(generation, len) {
                gui_state.set_message("Saved");
            } else {
                gui_state.set_message("Saved snapshot; newer edits remain");
            }
        },
        SaveEnd::Failed(error) => {
            let mut message = owned("Save failed: ");
            message.append(error.as_str());
            open_info_window(gui_state, "Save", message.as_str());
        },
        SaveEnd::Stopped => {
            open_info_window(gui_state, "Save", "Save failed: worker stopped");
        },
    }
}

// ---------------------------------------------------------------------------
// Unsaved changes
// ---------------------------------------------------------------------------

/// The question about unsaved changes.
pub fn unsaved_changes_question(app: &BlitzApp) -> (question: String)
    ensures
        question@ == "Do you want to save changes to "@ + shown_name(app@.document.path) + "?"@,
{
    let mut question = owned("Do you want to save changes to ");
    question.append(app.document().file_name().as_str());
    question.append("?");
    question
}

/// An answer to the question about unsaved changes.
#[derive(Clone, Copy, Debug, PartialEq, Eq, Structural)]
pub enum Answer {
    Yes,
    No,
    Cancel,
}

/// What an answer asks for.
#[derive(Debug, PartialEq, Eq)]
pub enum Answered {
    /// Nothing more is done.
    Stay,
    /// The step is taken.
    Go(Effect),
    /// The document is to be saved where it is from, before the step.
    SaveFirst,
    /// A place to save the document is to be picked, before the step.
    PickFileFirst,
}

/// Takes in the answer to the question about unsaved changes.
pub fn answer_unsaved_changes(
    app: &mut BlitzApp,
    gui_state: &mut GuiState,
    step: Step,
    answer: Answer,
) -> (answered: Answered)
    requires
        old(app).wf(),
    ensures
        final(app).wf(),
        answer == Answer::No ==> {
            &&& answered matches Answered::Go(effect)
            &&& came_out(
                final(app)@,
                final(gui_state)@,
                Ok(effect),
                stepped(old(gui_state)@, old(app)@, step),
            )
        },
        answer != Answer::No ==> final(app)@ == old(app)@,
        answer == Answer::Cancel ==> answered == Answered::Stay && final(gui_state)@ == old(
            gui_state,
        )@,
        answer == Answer::Yes && old(app)@.document.path is Some ==> answered
            == Answered::SaveFirst && final(gui_state)@ == old(gui_state)@,
        answer == Answer::Yes && old(app)@.document.path is None && !old(gui_state)@.saving
            ==> answered == Answered::PickFileFirst && final(gui_state)@ == old(gui_state)@,
        answer == Answer::Yes && old(app)@.document.path is None && old(gui_state)@.saving
            ==> answered == Answered::Stay && final(gui_state)@ == noted(
            old(gui_state)@,
            "Saving"@,
        ),
{
    match answer {
        Answer::No => Answered::Go(proceed(app, gui_state, step)),
        Answer::Cancel => Answered::Stay,
        Answer::Yes => match save_as_needed(app, gui_state) {
            SaveNeed::Path => Answered::SaveFirst,
            SaveNeed::Pick => Answered::PickFileFirst,
            SaveNeed::Wait => Answered::Stay,
        },
    }
}

/// What saving the document takes.
enum SaveNeed {
    Path,
    Pick,
    Wait,
}

fn save_as_needed(app: &BlitzApp, gui_state: &mut GuiState) -> (need: SaveNeed)
    ensures
        need is Path <==> app@.document.path is Some,
        need is Pick <==> app@.document.path is None && !old(gui_state)@.saving,
        final(gui_state)@ == (if need is Wait {
            noted(old(gui_state)@, "Saving"@)
        } else {
            old(gui_state)@
        }),
{
    if app.save().is_some() {
        return SaveNeed::Path;
    }
    if gui_state.saving {
        gui_state.set_message("Saving");
        return SaveNeed::Wait;
    }
    SaveNeed::Pick
}

/// Notes that the document was saved where it is from.
pub fn finish_save(app: &mut BlitzApp, gui_state: &mut GuiState, generation: u64, saved_len: u64)
    requires
        old(app).wf(),
        generation == old(app)@.document.generation,
    ensures
        final(app).wf(),
        final(app)@ == (AppModel {
            document: saved_as_is(old(app)@.document, saved_len),
            ..old(app)@
        }),
        final(gui_state)@ == noted(old(gui_state)@, "Saved"@),
{
    let marked = app.complete_save_snapshot(generation, saved_len);
    gui_state.set_message("Saved");
}

/// Takes a step that waited for the document to be saved, if no changes are
/// unsaved now.
pub fn proceed_if_saved(app: &mut BlitzApp, gui_state: &mut GuiState, step: Step) -> (effect: Effect)
    requires
        old(app).wf(),
    ensures
        final(app).wf(),
        came_out(
            final(app)@,
            final(gui_state)@,
            Ok(effect),
            if old(app)@.document.dirty {
                quiet(old(gui_state)@, old(app)@)
            } else {
                stepped(old(gui_state)@, old(app)@, step)
            },
        ),
{
    if app.document().is_dirty() {
        Effect::Nothing
    } else {
        proceed(app, gui_state, step)
    }
}

/// The message about something that was tried outside of the editor.
pub open spec fn attempt_noted(
    g: GuiModel,
    error: Option<Seq<char>>,
    done: Seq<char>,
    failed: Seq<char>,
) -> GuiModel {
    match error {
        None => noted(g, done),
        Some(error) => noted(g, failed + error),
    }
}

/// Says whether another window was opened.
pub fn report_new_window(gui_state: &mut GuiState, error: Option<String>)
    ensures
        final(gui_state)@ == attempt_noted(
            old(gui_state)@,
            opt_text(error),
            "Opened new window"@,
            "New Window failed: "@,
        ),
{
    match error {
        None => gui_state.set_message("Opened new window"),
        Some(error) => {
            let mut message = owned("New Window failed: ");
            message.append(error.as_str());
            gui_state.set_message(message.as_str());
        },
    }
}

/// Says whether a page was opened in the browser.
pub fn report_browser(gui_state: &mut GuiState, error: Option<String>)
    ensures
        final(gui_state)@ == attempt_noted(
            old(gui_state)@,
            opt_text(error),
            "Opened browser"@,
            "Browser open failed: "@,
        ),
{
    match error {
        None => gui_state.set_message("Opened browser"),
        Some(error) => {
            let mut message = owned("Browser open failed: ");
            message.append(error.as_str());
            gui_state.set_message(message.as_str());
        },
    }
}

// ---------------------------------------------------------------------------
// Printing
// ---------------------------------------------------------------------------

/// What is printed: the document as it is, and its name.
#[derive(Debug)]
pub struct PrintRequest {
    pub document: Document,
    pub title: String,
}

pub fn print_request_for_app(app: &BlitzApp) -> (request: PrintRequest)
    requires
        app.wf(),
    ensures
        request.document.wf(),
        request.document@ == (DocumentModel { undo: Seq::empty(), ..app@.document }),
        request.title@ == shown_name(app@.document.path),
{
    PrintRequest { document: app.document().snapshot_clone(), title: app.document().file_name() }
}

/// How printing in the background ended.
#[derive(Debug, PartialEq, Eq)]
pub enum PrintEnd {
    Submitted,
    Cancelled,
    Failed(String),
    /// The printing stopped without a word.
    Stopped,
}

/// What the end of printing leads to.
pub open spec fn print_ended(g: GuiModel, end: PrintEnd) -> GuiModel {
    let idle = GuiModel { printing: false, ..g };
    match end {
        PrintEnd::Submitted => noted(idle, "Printed"@),
        PrintEnd::Cancelled => noted(idle, "Print canceled"@),
        PrintEnd::Failed(error) => dialog_opened(
            idle,
            DialogModel::Info { title: "Print"@, message: "Print failed: "@ + error@ },
        ),
        PrintEnd::Stopped => dialog_opened(
            idle,
            DialogModel::Info { title: "Print"@, message: "Print failed: worker stopped"@ },
        ),
    }
}

/// Takes in the end of printing in the background.
pub fn poll_print_job(gui_state: &mut GuiState, end: PrintEnd)
    ensures
        final(gui_state)@ == print_ended(old(gui_state)@, end),
{
    gui_state.printing = false;
    match end {
        PrintEnd::Submitted => gui_state.set_message("Printed"),
        PrintEnd::Cancelled => gui_state.set_message("Print canceled"),
        PrintEnd::Failed(error) => {
            let mut message = owned("Print failed: ");
            message.append(error.as_str());
            open_info_window(gui_state, "Print", message.as_str());
        },
        PrintEnd::Stopped => {
            open_info_window(gui_state, "Print", "Print failed: worker stopped");
        },
    }
}

// ---------------------------------------------------------------------------
// Frames
// ---------------------------------------------------------------------------

/// What is being composed with an input method; nothing while another window
/// takes the keys.
pub fn update_editor_ime_state(gui_state: &mut GuiState, composition: Option<String>)
    ensures
        final(gui_state)@ == (GuiModel {
            editor_ime_composition: if old(gui_state)@.find_window is Some
                || old(gui_state)@.dialog is Some {
                Seq::empty()
            } else {
                match opt_text(composition) {
                    Some(text) => text,
                    None => Seq::empty(),
                }
            },
            ..old(gui_state)@
        }),
{
    if gui_state.find_window.is_some() || gui_state.dialog.is_some() {
        gui_state.editor_ime_composition = String::new();
        return;
    }
    gui_state.editor_ime_composition = match composition {
        Some(text) => text,
        None => String::new(),
    };
}

/// The texts of the status bar: a message, if there is one, before the cells.
pub open spec fn bar_texts(state: NotepadUiState, g: GuiModel) -> Seq<Seq<char>> {
    match status_note(g) {
        Some(message) => if message.len() > 0 {
            seq![message] + status_texts(state)
        } else {
            status_texts(state)
        },
        None => status_texts(state),
    }
}

pub fn status_bar_cells(state: &NotepadUiState, gui_state: &GuiState) -> (cells: Vec<String>)
    ensures
        texts(cells@) == bar_texts(*state, gui_state@),
{
    let mut cells = state.status_cells();
    if let Some(message) = gui_state.status_text() {
        if !message.as_str().is_empty() {
            let ghost before = cells@;
            cells.insert(0, message);
            assert(texts(cells@) =~= seq![message@] + texts(before));
        }
    }
    cells
}

/// What is compared to tell whether the editor's window is to be drawn anew. The
/// text itself is not part of it.
#[derive(Debug, PartialEq, Eq)]
pub struct FrameSignature {
    pub width: usize,
    pub height: usize,
    pub ui_state: NotepadUiState,
    pub document_line_count: usize,
    pub active_menu: Option<usize>,
    pub status_text: Option<String>,
    pub first_visible_line: usize,
    pub horizontal_offset: usize,
    pub selected_range: Option<Range<usize>>,
}

/// The signature of the frame that is to be drawn now.
pub fn frame_signature(
    app: &BlitzApp,
    state: NotepadUiState,
    width: usize,
    height: usize,
    gui_state: &GuiState,
) -> (signature: FrameSignature)
    ensures
        signature.width == width,
        signature.height == height,
        signature.ui_state == state,
        signature.document_line_count == app@.document.index.starts.len(),
        signature.active_menu == gui_state@.active_menu,
        opt_text(signature.status_text) == (if state.status_bar_visible {
            status_note(gui_state@)
        } else {
            None
        }),
        signature.first_visible_line == gui_state@.first_visible_line,
        signature.horizontal_offset == gui_state@.horizontal_offset,
        range_model(signature.selected_range) == app@.selection,
{
    let status_text = if state.status_bar_visible {
        gui_state.status_text()
    } else {
        None
    };
    FrameSignature {
        width,
        height,
        ui_state: state,
        document_line_count: app.document().line_count(),
        active_menu: gui_state.active_menu,
        status_text,
        first_visible_line: gui_state.first_visible_line,
        horizontal_offset: gui_state.horizontal_offset,
        selected_range: app.selected_range(),
    }
}

} // verus!

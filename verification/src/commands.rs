//! The commands of the editor, from keys and menus.

use crate::app::{
    all_selected, deleted_backward, deleted_forward, edit_undone, moved_left, moved_line_end,
    moved_line_start, moved_right, moved_vertically, range_selected, searched, selected_chars,
    selection_cut, status_bar_toggled, typed, with_zoom, word_wrap_toggled, zoomed_in, zoomed_out,
    fresh_app, AppModel, BlitzApp,
};
use crate::date_time::{fallback_text, LocalDateTime};
use crate::dialog::{
    clipboard_choice, clipboard_text, should_defer_dialog_window, DialogModel, DialogState,
    FindModel, FindWindow, ReplaceField,
};
use crate::document::{caret_error, opt_text, untitled_document};
use crate::error::{fails_as, ErrorModel, Result};
use crate::gui::{
    layout_of, scroll_reset, scrolled_to, wrap_view_reset, GuiModel, GuiState, MIN_HEIGHT, MIN_WIDTH,
};
use crate::line_index::line_at;
use crate::scroll::{editor_metrics_from_flags, greater, greater_of, moved};
use crate::text::{decimal, owned, push_decimal};
use crate::web::{bing_search_url, search_address};
use vstd::prelude::*;

verus! {

/// What the editor can be told to do.
#[derive(Clone, Copy, Debug, PartialEq, Eq)]
pub enum Command {
    New,
    NewWindow,
    Open,
    Save,
    SaveAs,
    Print,
    Exit,
    Undo,
    Cut,
    Copy,
    Paste,
    Delete,
    SelectAll,
    TimeDate,
    SearchWithBing,
    Find,
    FindNext,
    FindPrevious,
    Replace,
    GoTo,
    WordWrap,
    Font,
    ZoomIn,
    ZoomOut,
    RestoreZoom,
    StatusBar,
    Browse,
    About,
    MoveLeft { extend: bool },
    MoveRight { extend: bool },
    MoveUp { extend: bool },
    MoveDown { extend: bool },
    LineStart { extend: bool },
    LineEnd { extend: bool },
    PageUp,
    PageDown,
    Backspace,
    NewLine,
    Tab,
    Unavailable(&'static str),
}

/// What waits for an answer about unsaved changes.
#[derive(Clone, Copy, Debug, PartialEq, Eq, Structural)]
pub enum Step {
    New,
    Open,
    Exit,
}

/// What is to be done outside of the editor.
#[derive(Debug, PartialEq, Eq)]
pub enum Effect {
    Nothing,
    /// Ask about unsaved changes, and go on where the answer allows it.
    Ask(Step),
    Quit,
    OpenWindow,
    PickFile,
    PickSaveFile,
    /// Save a snapshot of the document.
    Save,
    /// Print a snapshot of the document.
    Print,
    WriteClipboard(String),
    Browse(String),
}

/// An effect as a mathematical value.
pub enum EffectModel {
    Nothing,
    Ask(Step),
    Quit,
    OpenWindow,
    PickFile,
    PickSaveFile,
    Save,
    Print,
    WriteClipboard(Seq<char>),
    Browse(Seq<char>),
}

impl View for Effect {
    type V = EffectModel;

    open spec fn view(&self) -> EffectModel {
        match *self {
            Effect::Nothing => EffectModel::Nothing,
            Effect::Ask(step) => EffectModel::Ask(step),
            Effect::Quit => EffectModel::Quit,
            Effect::OpenWindow => EffectModel::OpenWindow,
            Effect::PickFile => EffectModel::PickFile,
            Effect::PickSaveFile => EffectModel::PickSaveFile,
            Effect::Save => EffectModel::Save,
            Effect::Print => EffectModel::Print,
            Effect::WriteClipboard(text) => EffectModel::WriteClipboard(text@),
            Effect::Browse(url) => EffectModel::Browse(url@),
        }
    }
}

/// What a command may need from outside: the system's clipboard, the time, what
/// fonts there are, and the size of the window.
#[derive(Debug)]
pub struct Surroundings {
    pub clipboard: Option<String>,
    pub now: LocalDateTime,
    pub fonts: String,
    pub width: usize,
    pub height: usize,
}

/// What a command leads to.
pub struct Outcome {
    pub gui: GuiModel,
    pub app: AppModel,
    pub effect: EffectModel,
    pub error: Option<ErrorModel>,
}

pub open spec fn came_out(
    app: AppModel,
    gui: GuiModel,
    result: Result<Effect>,
    outcome: Outcome,
) -> bool {
    &&& app == outcome.app
    &&& gui == outcome.gui
    &&& fails_as(result, outcome.error)
    &&& result matches Ok(effect) ==> effect@ == outcome.effect
}

// ---------------------------------------------------------------------------
// Model
// ---------------------------------------------------------------------------

pub open spec fn quiet(g: GuiModel, a: AppModel) -> Outcome {
    Outcome { gui: g, app: a, effect: EffectModel::Nothing, error: None }
}

pub open spec fn outside(g: GuiModel, a: AppModel, effect: EffectModel) -> Outcome {
    Outcome { gui: g, app: a, effect, error: None }
}

pub open spec fn failed(g: GuiModel, a: AppModel, error: Option<ErrorModel>) -> Outcome {
    Outcome { gui: g, app: a, effect: EffectModel::Nothing, error }
}

pub open spec fn noted(g: GuiModel, message: Seq<char>) -> GuiModel {
    GuiModel { status_message: Some(message), ..g }
}

/// The mouse's selection forgotten.
pub open spec fn deselected(g: GuiModel) -> GuiModel {
    GuiModel { selection_anchor: None, selection_focus: None, ..g }
}

/// What a step leads to once unsaved changes are settled.
pub open spec fn stepped(g: GuiModel, a: AppModel, step: Step) -> Outcome {
    match step {
        Step::New => quiet(
            noted(scroll_reset(g, 0), "New document"@),
            fresh_app(untitled_document(), a.settings),
        ),
        Step::Open => outside(g, a, EffectModel::PickFile),
        Step::Exit => outside(g, a, EffectModel::Quit),
    }
}

/// A step taken only where no changes are unsaved; while a save is under way it
/// is not taken at all.
pub open spec fn confirmed_first(g: GuiModel, a: AppModel, step: Step) -> Outcome {
    if g.saving {
        quiet(noted(g, "Saving"@), a)
    } else if !a.document.dirty {
        stepped(g, a, step)
    } else {
        outside(g, a, EffectModel::Ask(step))
    }
}

pub open spec fn save_as_begun(g: GuiModel, a: AppModel) -> Outcome {
    if g.saving {
        quiet(noted(g, "Saving"@), a)
    } else {
        outside(g, a, EffectModel::PickSaveFile)
    }
}

/// A document with a path is saved there; one save at a time.
pub open spec fn save_begun(g: GuiModel, a: AppModel) -> Outcome {
    if g.saving {
        quiet(noted(g, "Saving"@), a)
    } else if a.document.path is None {
        save_as_begun(g, a)
    } else {
        outside(noted(GuiModel { saving: true, ..g }, "Saving"@), a, EffectModel::Save)
    }
}

pub open spec fn print_begun(g: GuiModel, a: AppModel) -> Outcome {
    if g.printing {
        quiet(noted(g, "Printing..."@), a)
    } else {
        outside(noted(GuiModel { printing: true, ..g }, "Printing..."@), a, EffectModel::Print)
    }
}

/// An edit of the text, after which the mouse's selection is forgotten.
pub open spec fn edit_made(g: GuiModel, outcome: (AppModel, Option<ErrorModel>)) -> Outcome {
    if outcome.1 is Some {
        failed(g, outcome.0, outcome.1)
    } else {
        quiet(deselected(g), outcome.0)
    }
}

pub open spec fn cut_made(g: GuiModel, a: AppModel) -> Outcome {
    let outcome = selection_cut(a);
    if outcome.1 is Some {
        failed(g, outcome.0, outcome.1)
    } else {
        match selected_chars(a) {
            Some(text) => outside(
                noted(GuiModel { clipboard: text, ..deselected(g) }, "Cut"@),
                outcome.0,
                EffectModel::WriteClipboard(text),
            ),
            None => quiet(g, outcome.0),
        }
    }
}

pub open spec fn copy_made(g: GuiModel, a: AppModel) -> Outcome {
    match selected_chars(a) {
        Some(text) => outside(
            noted(GuiModel { clipboard: text, ..g }, "Copied"@),
            a,
            EffectModel::WriteClipboard(text),
        ),
        None => quiet(g, a),
    }
}

pub open spec fn paste_made(g: GuiModel, a: AppModel, system: Option<Seq<char>>) -> Outcome {
    let text = clipboard_choice(system, g.clipboard);
    if text.len() == 0 {
        quiet(deselected(g), a)
    } else {
        edit_made_keeping(g, typed(a, text), text)
    }
}

/// An edit that puts in what is then on the clipboard.
pub open spec fn edit_made_keeping(
    g: GuiModel,
    outcome: (AppModel, Option<ErrorModel>),
    text: Seq<char>,
) -> Outcome {
    if outcome.1 is Some {
        failed(g, outcome.0, outcome.1)
    } else {
        quiet(deselected(GuiModel { clipboard: text, ..g }), outcome.0)
    }
}

pub open spec fn all_text_selected(g: GuiModel, a: AppModel) -> Outcome {
    quiet(
        GuiModel {
            selection_anchor: Some(0),
            selection_focus: Some(a.document.bytes.len() as usize),
            ..g
        },
        all_selected(a),
    )
}

pub open spec fn web_searched(g: GuiModel, a: AppModel) -> Outcome {
    match selected_chars(a) {
        Some(text) => if text.len() > 0 {
            outside(g, a, EffectModel::Browse(search_address(text)))
        } else {
            quiet(noted(g, "Select text before searching"@), a)
        },
        None => quiet(noted(g, "Select text before searching"@), a),
    }
}

/// What a search begins with: the selected text, or what was searched for last.
pub open spec fn first_query(g: GuiModel, a: AppModel) -> Seq<char> {
    match selected_chars(a) {
        Some(text) => text,
        None => match g.last_search {
            Some(search) => search.query,
            None => Seq::empty(),
        },
    }
}

/// The find window opened, unless it is open.
pub open spec fn find_opened(g: GuiModel, a: AppModel) -> GuiModel {
    if g.find_window is Some {
        g
    } else {
        GuiModel {
            find_window: Some(
                FindModel {
                    query: first_query(g, a),
                    match_case: g.last_search is Some && g.last_search->0.match_case,
                    wrap_around: g.last_search is Some && g.last_search->0.wrap_around,
                    forward: true,
                    mouse_was_down: false,
                },
            ),
            ..g
        }
    }
}

/// A dialog opened; news waits while another dialog is open.
pub open spec fn dialog_opened(g: GuiModel, dialog: DialogModel) -> GuiModel {
    if g.dialog is Some && dialog is Info {
        GuiModel { pending_info_dialog: Some(dialog), ..g }
    } else {
        GuiModel { dialog: Some(dialog), dialog_mouse_was_down: false, ..g }
    }
}

pub open spec fn replace_opened(g: GuiModel, a: AppModel) -> GuiModel {
    dialog_opened(
        g,
        DialogModel::Replace {
            query: first_query(g, a),
            replacement: Seq::empty(),
            active_field: ReplaceField::Find,
            match_case: false,
        },
    )
}

pub open spec fn go_to_opened(g: GuiModel, a: AppModel) -> Outcome {
    if caret_error(a.document, a.caret) is Some {
        failed(g, a, caret_error(a.document, a.caret))
    } else {
        quiet(
            dialog_opened(
                g,
                DialogModel::GoTo {
                    line: decimal(line_at(a.document.index.starts, a.caret) + 1),
                    replace_on_input: true,
                },
            ),
            a,
        )
    }
}

pub open spec fn font_news(fonts: Seq<char>) -> DialogModel {
    DialogModel::Info {
        title: "Font"@,
        message: "Current font stack: "@ + fonts
            + "\nSample: AaBbYyZz\nAptos / Yu Gothic UI are preferred when available."@,
    }
}

pub open spec fn about_news() -> DialogModel {
    DialogModel::Info {
        title: "About Notepad"@,
        message: "blitzpad 0.1.0\nNotepad-compatible editor"@,
    }
}

/// The last search made again.
pub open spec fn found_again(g: GuiModel, a: AppModel, forward: bool) -> Outcome {
    match g.last_search {
        None => quiet(noted(g, "No active search"@), a),
        Some(search) => {
            let outcome = searched(
                a,
                search.query,
                search.match_case,
                forward,
                search.wrap_around,
            );
            if outcome.2 is Some {
                failed(g, outcome.0, outcome.2)
            } else if outcome.1 {
                quiet(
                    noted(GuiModel { pending_reveal_selection: true, ..g }, "Found"@),
                    outcome.0,
                )
            } else {
                quiet(noted(g, "Cannot find text"@), outcome.0)
            }
        },
    }
}

/// The caret moved; with shift down the selection goes with it.
pub open spec fn caret_moved(
    g: GuiModel,
    a: AppModel,
    extend: bool,
    step: (AppModel, Option<ErrorModel>),
) -> Outcome {
    let anchor = match g.selection_anchor {
        Some(anchor) => anchor as int,
        None => a.caret,
    };
    if step.1 is Some {
        failed(g, step.0, step.1)
    } else if !extend {
        quiet(deselected(g), step.0)
    } else {
        let outcome = range_selected(step.0, anchor, step.0.caret);
        if outcome.1 is Some {
            failed(g, outcome.0, outcome.1)
        } else {
            quiet(
                GuiModel {
                    selection_anchor: Some(anchor as usize),
                    selection_focus: Some(step.0.caret as usize),
                    ..g
                },
                outcome.0,
            )
        }
    }
}

/// The view moved by a page.
#[verifier::opaque]
pub open spec fn page_turned(g: GuiModel, a: AppModel, width: int, height: int, down: bool) -> GuiModel {
    match layout_of(
        a,
        greater(width, MIN_WIDTH as int),
        greater(height, MIN_HEIGHT as int),
    ) {
        None => g,
        Some(metrics) => scrolled_to(
            g,
            a,
            moved(
                g.first_visible_line,
                if down {
                    metrics.visible_line_count as int
                } else {
                    -(metrics.visible_line_count as int)
                },
            ),
            metrics,
        ),
    }
}

/// What a command on files leads to.
#[verifier::opaque]
pub open spec fn file_command_run(g: GuiModel, a: AppModel, command: Command) -> Outcome {
    match command {
        Command::New => confirmed_first(g, a, Step::New),
        Command::NewWindow => outside(g, a, EffectModel::OpenWindow),
        Command::Open => confirmed_first(g, a, Step::Open),
        Command::Save => save_begun(g, a),
        Command::SaveAs => save_as_begun(g, a),
        Command::Print => print_begun(g, a),
        _ => confirmed_first(g, a, Step::Exit),
    }
}

/// What a command that edits the text leads to.
#[verifier::opaque]
pub open spec fn edit_command_run(
    g: GuiModel,
    a: AppModel,
    command: Command,
    time_text: Seq<char>,
) -> Outcome {
    match command {
        Command::Undo => edit_made(g, edit_undone(a)),
        Command::Delete => edit_made(g, deleted_forward(a)),
        Command::TimeDate => edit_made(g, typed(a, time_text)),
        Command::Backspace => edit_made(g, deleted_backward(a)),
        Command::NewLine => edit_made(g, typed(a, "\n"@)),
        _ => edit_made(g, typed(a, "\t"@)),
    }
}

/// What a command with the clipboard leads to.
#[verifier::opaque]
pub open spec fn clipboard_command_run(
    g: GuiModel,
    a: AppModel,
    command: Command,
    system: Option<Seq<char>>,
) -> Outcome {
    match command {
        Command::Cut => cut_made(g, a),
        Command::Copy => copy_made(g, a),
        _ => paste_made(g, a, system),
    }
}

/// What a command that searches leads to.
#[verifier::opaque]
pub open spec fn search_command_run(g: GuiModel, a: AppModel, command: Command) -> Outcome {
    match command {
        Command::SearchWithBing => web_searched(g, a),
        Command::Find => quiet(find_opened(g, a), a),
        Command::FindNext => found_again(g, a, true),
        Command::FindPrevious => found_again(g, a, false),
        Command::Replace => quiet(replace_opened(g, a), a),
        _ => go_to_opened(g, a),
    }
}

/// What a command that moves the caret leads to.
#[verifier::opaque]
pub open spec fn move_command_run(g: GuiModel, a: AppModel, command: Command, extend: bool) -> Outcome {
    caret_moved(g, a, extend, step_of(command, a))
}

/// What a command leads to.
pub open spec fn command_run(g: GuiModel, a: AppModel, command: Command, around: Surroundings) -> Outcome {
    match command {
        Command::Cut | Command::Copy | Command::Paste => clipboard_command_run(
            g,
            a,
            command,
            opt_text(around.clipboard),
        ),
        Command::SelectAll => all_text_selected(g, a),
        Command::Undo | Command::Delete | Command::TimeDate | Command::Backspace
        | Command::NewLine | Command::Tab => edit_command_run(
            g,
            a,
            command,
            fallback_text(around.now),
        ),
        Command::SearchWithBing | Command::Find | Command::FindNext | Command::FindPrevious
        | Command::Replace | Command::GoTo => search_command_run(g, a, command),
        Command::WordWrap => quiet(wrap_view_reset(g), word_wrap_toggled(a)),
        Command::Font => quiet(dialog_opened(g, font_news(around.fonts@)), a),
        Command::ZoomIn => quiet(g, with_zoom(a, zoomed_in(a.settings.zoom_percent))),
        Command::ZoomOut => quiet(g, with_zoom(a, zoomed_out(a.settings.zoom_percent))),
        Command::RestoreZoom => quiet(g, with_zoom(a, 100)),
        Command::StatusBar => quiet(g, status_bar_toggled(a)),
        Command::Browse => outside(g, a, EffectModel::Browse("https://github.com/"@)),
        Command::About => quiet(dialog_opened(g, about_news()), a),
        Command::MoveLeft { extend } => move_command_run(g, a, command, extend),
        Command::MoveRight { extend } => move_command_run(g, a, command, extend),
        Command::MoveUp { extend } => move_command_run(g, a, command, extend),
        Command::MoveDown { extend } => move_command_run(g, a, command, extend),
        Command::LineStart { extend } => move_command_run(g, a, command, extend),
        Command::LineEnd { extend } => move_command_run(g, a, command, extend),
        Command::PageUp => quiet(
            page_turned(g, a, around.width as int, around.height as int, false),
            a,
        ),
        Command::PageDown => quiet(
            page_turned(g, a, around.width as int, around.height as int, true),
            a,
        ),
        Command::Unavailable(label) => quiet(noted(g, label@ + " is not available yet"@), a),
        _ => file_command_run(g, a, command),
    }
}

// ---------------------------------------------------------------------------
// Commands
// ---------------------------------------------------------------------------

fn deselect(gui_state: &mut GuiState)
    ensures
        final(gui_state)@ == deselected(old(gui_state)@),
{
    gui_state.selection_anchor = None;
    gui_state.selection_focus = None;
}

/// Takes a step once unsaved changes are settled.
pub fn proceed(app: &mut BlitzApp, gui_state: &mut GuiState, step: Step) -> (effect: Effect)
    requires
        old(app).wf(),
    ensures
        final(app).wf(),
        came_out(
            final(app)@,
            final(gui_state)@,
            Ok(effect),
            stepped(old(gui_state)@, old(app)@, step),
        ),
{
    match step {
        Step::New => {
            app.new_document();
            gui_state.reset_scroll(app);
            gui_state.set_message("New document");
            Effect::Nothing
        },
        Step::Open => Effect::PickFile,
        Step::Exit => Effect::Quit,
    }
}

/// Takes a step, or asks about unsaved changes first.
pub fn confirm_unsaved_changes(app: &mut BlitzApp, gui_state: &mut GuiState, step: Step) -> (effect:
    Effect)
    requires
        old(app).wf(),
    ensures
        final(app).wf(),
        came_out(
            final(app)@,
            final(gui_state)@,
            Ok(effect),
            confirmed_first(old(gui_state)@, old(app)@, step),
        ),
{
    if gui_state.saving {
        gui_state.set_message("Saving");
        return Effect::Nothing;
    }
    if !app.document().is_dirty() {
        return proceed(app, gui_state, step);
    }
    Effect::Ask(step)
}

pub fn save_as_dialog(app: &BlitzApp, gui_state: &mut GuiState) -> (effect: Effect)
    ensures
        came_out(
            app@,
            final(gui_state)@,
            Ok(effect),
            save_as_begun(old(gui_state)@, app@),
        ),
{
    if gui_state.saving {
        gui_state.set_message("Saving");
        return Effect::Nothing;
    }
    Effect::PickSaveFile
}

pub fn save_document_or_dialog(app: &BlitzApp, gui_state: &mut GuiState) -> (effect: Effect)
    ensures
        came_out(app@, final(gui_state)@, Ok(effect), save_begun(old(gui_state)@, app@)),
{
    if gui_state.saving {
        gui_state.set_message("Saving");
        return Effect::Nothing;
    }
    if app.save().is_none() {
        return save_as_dialog(app, gui_state);
    }
    gui_state.saving = true;
    gui_state.set_message("Saving");
    Effect::Save
}

pub fn start_background_print(app: &BlitzApp, gui_state: &mut GuiState) -> (effect: Effect)
    ensures
        came_out(app@, final(gui_state)@, Ok(effect), print_begun(old(gui_state)@, app@)),
{
    if gui_state.printing {
        gui_state.set_message("Printing...");
        return Effect::Nothing;
    }
    gui_state.printing = true;
    gui_state.set_message("Printing...");
    Effect::Print
}

fn cut(app: &mut BlitzApp, gui_state: &mut GuiState) -> (result: Result<Effect>)
    requires
        old(app).wf(),
    ensures
        final(app).wf(),
        came_out(
            final(app)@,
            final(gui_state)@,
            result,
            cut_made(old(gui_state)@, old(app)@),
        ),
{
    match app.cut_selection()? {
        Some(text) => {
            gui_state.clipboard = owned(text.as_str());
            deselect(gui_state);
            gui_state.set_message("Cut");
            Ok(Effect::WriteClipboard(text))
        },
        None => Ok(Effect::Nothing),
    }
}

fn copy(app: &BlitzApp, gui_state: &mut GuiState) -> (effect: Effect)
    requires
        app.wf(),
    ensures
        came_out(app@, final(gui_state)@, Ok(effect), copy_made(old(gui_state)@, app@)),
{
    match app.selected_text() {
        Some(text) => {
            gui_state.clipboard = owned(text.as_str());
            gui_state.set_message("Copied");
            Effect::WriteClipboard(text)
        },
        None => Effect::Nothing,
    }
}

/// Pastes the text of the clipboard.
pub fn paste_from_clipboard(
    app: &mut BlitzApp,
    gui_state: &mut GuiState,
    system: &Option<String>,
) -> (result: Result<Effect>)
    requires
        old(app).wf(),
    ensures
        final(app).wf(),
        came_out(
            final(app)@,
            final(gui_state)@,
            result,
            paste_made(old(gui_state)@, old(app)@, opt_text(*system)),
        ),
{
    let system = match system {
        Some(text) => Some(owned(text.as_str())),
        None => None,
    };
    let text = clipboard_text(system, gui_state.clipboard.as_str());
    if !text.as_str().is_empty() {
        app.paste_text(text.as_str())?;
        gui_state.clipboard = text;
    }
    deselect(gui_state);
    Ok(Effect::Nothing)
}

fn select_all(app: &mut BlitzApp, gui_state: &mut GuiState) -> (effect: Effect)
    requires
        old(app).wf(),
    ensures
        final(app).wf(),
        came_out(
            final(app)@,
            final(gui_state)@,
            Ok(effect),
            all_text_selected(old(gui_state)@, old(app)@),
        ),
{
    app.select_all();
    gui_state.selection_anchor = Some(0);
    gui_state.selection_focus = Some(app.caret_offset());
    Effect::Nothing
}

pub fn search_with_bing(app: &BlitzApp, gui_state: &mut GuiState) -> (effect: Effect)
    requires
        app.wf(),
    ensures
        came_out(app@, final(gui_state)@, Ok(effect), web_searched(old(gui_state)@, app@)),
{
    if let Some(query) = app.selected_text() {
        if !query.as_str().is_empty() {
            return Effect::Browse(bing_search_url(query.as_str()));
        }
    }
    gui_state.set_message("Select text before searching");
    Effect::Nothing
}

fn starting_query(app: &BlitzApp, gui_state: &GuiState) -> (query: String)
    requires
        app.wf(),
    ensures
        query@ == first_query(gui_state@, app@),
{
    match app.selected_text() {
        Some(text) => text,
        None => match &gui_state.last_search {
            Some(search) => owned(search.query.as_str()),
            None => String::new(),
        },
    }
}

pub fn open_find_window(app: &BlitzApp, gui_state: &mut GuiState)
    requires
        app.wf(),
    ensures
        final(gui_state)@ == find_opened(old(gui_state)@, app@),
{
    if gui_state.find_window.is_some() {
        return;
    }
    let query = starting_query(app, gui_state);
    let (match_case, wrap_around) = match &gui_state.last_search {
        Some(search) => (search.match_case, search.wrap_around),
        None => (false, false),
    };
    gui_state.find_window = Some(
        FindWindow { query, match_case, wrap_around, forward: true, mouse_was_down: false },
    );
}

/// Opens a dialog; news waits while another dialog is open.
pub fn open_dialog_window(gui_state: &mut GuiState, state: DialogState)
    ensures
        final(gui_state)@ == dialog_opened(old(gui_state)@, state@),
{
    if should_defer_dialog_window(&state, gui_state.dialog.is_some()) {
        gui_state.pending_info_dialog = Some(state);
        return;
    }
    gui_state.dialog = Some(state);
    gui_state.dialog_mouse_was_down = false;
}

pub fn open_info_window(gui_state: &mut GuiState, title: &str, message: &str)
    ensures
        final(gui_state)@ == dialog_opened(
            old(gui_state)@,
            DialogModel::Info { title: title@, message: message@ },
        ),
{
    open_dialog_window(
        gui_state,
        DialogState::Info { title: owned(title), message: owned(message) },
    );
}

fn open_replace_dialog(app: &BlitzApp, gui_state: &mut GuiState)
    requires
        app.wf(),
    ensures
        final(gui_state)@ == replace_opened(old(gui_state)@, app@),
{
    let query = starting_query(app, gui_state);
    let replacement = String::new();
    assert(replacement@ =~= Seq::empty());
    open_dialog_window(
        gui_state,
        DialogState::Replace {
            query,
            replacement,
            active_field: ReplaceField::Find,
            match_case: false,
        },
    );
}

/// The number of the caret's line.
pub fn go_to_dialog_line(app: &BlitzApp) -> (line: Result<String>)
    requires
        app.wf(),
    ensures
        fails_as(line, caret_error(app@.document, app@.caret)),
        line matches Ok(line) ==> line@ == decimal(
            line_at(app@.document.index.starts, app@.caret) + 1,
        ),
{
    let state = app.ui_state()?;
    let mut line = String::new();
    push_decimal(&mut line, state.caret_line);
    assert(line@ =~= decimal(state.caret_line as int));
    Ok(line)
}

pub fn open_go_to_dialog(app: &BlitzApp, gui_state: &mut GuiState) -> (result: Result<Effect>)
    requires
        app.wf(),
    ensures
        came_out(app@, final(gui_state)@, result, go_to_opened(old(gui_state)@, app@)),
{
    let line = go_to_dialog_line(app)?;
    open_dialog_window(gui_state, DialogState::GoTo { line, replace_on_input: true });
    Ok(Effect::Nothing)
}

fn open_font_news(gui_state: &mut GuiState, fonts: &str)
    ensures
        final(gui_state)@ == dialog_opened(old(gui_state)@, font_news(fonts@)),
{
    let mut message = owned("Current font stack: ");
    message.append(fonts);
    message.append("\nSample: AaBbYyZz\nAptos / Yu Gothic UI are preferred when available.");
    open_info_window(gui_state, "Font", message.as_str());
}

/// Makes the last search again.
pub fn find_again(app: &mut BlitzApp, gui_state: &mut GuiState, forward: bool) -> (result: Result<Effect>)
    requires
        old(app).wf(),
    ensures
        final(app).wf(),
        came_out(
            final(app)@,
            final(gui_state)@,
            result,
            found_again(old(gui_state)@, old(app)@, forward),
        ),
{
    let found = match &gui_state.last_search {
        Some(search) => app.find_text_with_options(
            search.query.as_str(),
            search.match_case,
            forward,
            search.wrap_around,
        )?,
        None => {
            gui_state.set_message("No active search");
            return Ok(Effect::Nothing);
        },
    };
    if found {
        gui_state.pending_reveal_selection = true;
        gui_state.set_message("Found");
    } else {
        gui_state.set_message("Cannot find text");
    }
    Ok(Effect::Nothing)
}

/// What was an edit is over: the mouse's selection is forgotten.
fn finish_edit(gui_state: &mut GuiState, result: Result<()>) -> (done: Result<Effect>)
    ensures
        done is Ok <==> result is Ok,
        done matches Ok(effect) ==> effect@ == EffectModel::Nothing,
        done matches Err(e) ==> result matches Err(f) && e == f,
        final(gui_state)@ == (if result is Ok {
            deselected(old(gui_state)@)
        } else {
            old(gui_state)@
        }),
{
    match result {
        Ok(_) => {
            deselect(gui_state);
            Ok(Effect::Nothing)
        },
        Err(error) => Err(error),
    }
}

fn without_value(result: Result<bool>) -> (done: Result<()>)
    ensures
        done is Ok <==> result is Ok,
        done matches Err(e) ==> result matches Err(f) && e == f,
{
    match result {
        Ok(_) => Ok(()),
        Err(error) => Err(error),
    }
}

/// Where a selection begins that the keys make: where the mouse's began, or at
/// the caret.
fn selection_start(app: &BlitzApp, gui_state: &GuiState) -> (anchor: usize)
    ensures
        anchor == (match gui_state@.selection_anchor {
            Some(anchor) => anchor as int,
            None => app@.caret,
        }),
{
    match gui_state.selection_anchor {
        Some(anchor) => anchor,
        None => app.caret_offset(),
    }
}

fn finish_move(
    app: &mut BlitzApp,
    gui_state: &mut GuiState,
    extend: bool,
    anchor: usize,
) -> (result: Result<Effect>)
    requires
        old(app).wf(),
    ensures
        final(app).wf(),
        ({
            let g = old(gui_state)@;
            let a = old(app)@;
            let outcome = range_selected(a, anchor as int, a.caret);
            came_out(
                final(app)@,
                final(gui_state)@,
                result,
                if !extend {
                    quiet(deselected(g), a)
                } else if outcome.1 is Some {
                    failed(g, outcome.0, outcome.1)
                } else {
                    quiet(
                        GuiModel {
                            selection_anchor: Some(anchor),
                            selection_focus: Some(a.caret as usize),
                            ..g
                        },
                        outcome.0,
                    )
                },
            )
        }),
{
    if extend {
        let caret: usize = app.caret_offset();
        app.set_selection_range(anchor, caret)?;
        gui_state.selection_anchor = Some(anchor);
        gui_state.selection_focus = Some(caret);
    } else {
        deselect(gui_state);
    }
    Ok(Effect::Nothing)
}

/// Moves the caret, and with `extend` the selection with it.
pub fn move_caret_with_selection(
    app: &mut BlitzApp,
    gui_state: &mut GuiState,
    command: Command,
    extend: bool,
) -> (result: Result<Effect>)
    requires
        old(app).wf(),
        is_move(command),
    ensures
        final(app).wf(),
        came_out(
            final(app)@,
            final(gui_state)@,
            result,
            move_command_run(old(gui_state)@, old(app)@, command, extend),
        ),
{
    proof {
        reveal(move_command_run);
    }
    let anchor: usize = selection_start(app, gui_state);
    let result = match command {
        Command::MoveLeft { .. } => app.move_left(),
        Command::MoveRight { .. } => app.move_right(),
        Command::MoveUp { .. } => app.move_up(),
        Command::MoveDown { .. } => app.move_down(),
        Command::LineStart { .. } => app.move_line_start(),
        _ => app.move_line_end(),
    };
    result?;
    finish_move(app, gui_state, extend, anchor)
}

/// A command that moves the caret.
pub open spec fn is_move(command: Command) -> bool {
    match command {
        Command::MoveLeft { .. } => true,
        Command::MoveRight { .. } => true,
        Command::MoveUp { .. } => true,
        Command::MoveDown { .. } => true,
        Command::LineStart { .. } => true,
        Command::LineEnd { .. } => true,
        _ => false,
    }
}

/// Where a command moves the caret to.
pub open spec fn step_of(command: Command, a: AppModel) -> (AppModel, Option<ErrorModel>) {
    match command {
        Command::MoveLeft { .. } => moved_left(a),
        Command::MoveRight { .. } => moved_right(a),
        Command::MoveUp { .. } => moved_vertically(a, false),
        Command::MoveDown { .. } => moved_vertically(a, true),
        Command::LineStart { .. } => moved_line_start(a),
        _ => moved_line_end(a),
    }
}

/// Moves the view by a page.
pub fn scroll_page(
    app: &BlitzApp,
    gui_state: &mut GuiState,
    width: usize,
    height: usize,
    down: bool,
)
    requires
        app.wf(),
    ensures
        final(gui_state)@ == page_turned(
            old(gui_state)@,
            app@,
            width as int,
            height as int,
            down,
        ),
{
    proof {
        reveal(page_turned);
    }
    let metrics = match editor_metrics_from_flags(
        app.settings().status_bar_visible,
        app.settings().word_wrap,
        greater_of(width, MIN_WIDTH),
        greater_of(height, MIN_HEIGHT),
    ) {
        Some(metrics) => metrics,
        None => {
            return;
        },
    };
    let row: usize = if down {
        gui_state.first_visible_line.saturating_add(metrics.visible_line_count)
    } else {
        gui_state.first_visible_line.saturating_sub(metrics.visible_line_count)
    };
    gui_state.scroll_to(app, row, metrics);
}

fn run_file_command(app: &mut BlitzApp, gui_state: &mut GuiState, command: Command) -> (effect:
    Effect)
    requires
        old(app).wf(),
    ensures
        final(app).wf(),
        came_out(
            final(app)@,
            final(gui_state)@,
            Ok(effect),
            file_command_run(old(gui_state)@, old(app)@, command),
        ),
{
    proof {
        reveal(file_command_run);
    }
    match command {
        Command::New => confirm_unsaved_changes(app, gui_state, Step::New),
        Command::NewWindow => Effect::OpenWindow,
        Command::Open => confirm_unsaved_changes(app, gui_state, Step::Open),
        Command::Save => save_document_or_dialog(app, gui_state),
        Command::SaveAs => save_as_dialog(app, gui_state),
        Command::Print => start_background_print(app, gui_state),
        _ => confirm_unsaved_changes(app, gui_state, Step::Exit),
    }
}

fn run_edit_command(
    app: &mut BlitzApp,
    gui_state: &mut GuiState,
    command: Command,
    around: &Surroundings,
) -> (result: Result<Effect>)
    requires
        old(app).wf(),
    ensures
        final(app).wf(),
        came_out(
            final(app)@,
            final(gui_state)@,
            result,
            edit_command_run(
                old(gui_state)@,
                old(app)@,
                command,
                fallback_text(around.now),
            ),
        ),
{
    proof {
        reveal(edit_command_run);
    }
    let result = match command {
        Command::Undo => without_value(app.undo()),
        Command::Delete => without_value(app.delete_forward()),
        Command::TimeDate => app.insert_time_date(around.now),
        Command::Backspace => without_value(app.backspace()),
        Command::NewLine => app.insert_text("\n"),
        _ => app.insert_text("\t"),
    };
    finish_edit(gui_state, result)
}

fn run_clipboard_command(
    app: &mut BlitzApp,
    gui_state: &mut GuiState,
    command: Command,
    system: &Option<String>,
) -> (result: Result<Effect>)
    requires
        old(app).wf(),
    ensures
        final(app).wf(),
        came_out(
            final(app)@,
            final(gui_state)@,
            result,
            clipboard_command_run(old(gui_state)@, old(app)@, command, opt_text(*system)),
        ),
{
    proof {
        reveal(clipboard_command_run);
    }
    match command {
        Command::Cut => cut(app, gui_state),
        Command::Copy => Ok(copy(app, gui_state)),
        _ => paste_from_clipboard(app, gui_state, system),
    }
}

fn run_search_command(app: &mut BlitzApp, gui_state: &mut GuiState, command: Command) -> (result: Result<
    Effect,
>)
    requires
        old(app).wf(),
    ensures
        final(app).wf(),
        came_out(
            final(app)@,
            final(gui_state)@,
            result,
            search_command_run(old(gui_state)@, old(app)@, command),
        ),
{
    proof {
        reveal(search_command_run);
    }
    match command {
        Command::SearchWithBing => Ok(search_with_bing(app, gui_state)),
        Command::Find => {
            open_find_window(app, gui_state);
            Ok(Effect::Nothing)
        },
        Command::FindNext => find_again(app, gui_state, true),
        Command::FindPrevious => find_again(app, gui_state, false),
        Command::Replace => {
            open_replace_dialog(app, gui_state);
            Ok(Effect::Nothing)
        },
        _ => open_go_to_dialog(app, gui_state),
    }
}

/// Runs a command. The answer says what is to be done outside of the editor.
pub fn run_command(
    app: &mut BlitzApp,
    gui_state: &mut GuiState,
    command: Command,
    around: &Surroundings,
) -> (result: Result<Effect>)
    requires
        old(app).wf(),
    ensures
        final(app).wf(),
        came_out(
            final(app)@,
            final(gui_state)@,
            result,
            command_run(old(gui_state)@, old(app)@, command, *around),
        ),
{
    match command {
        Command::Cut | Command::Copy | Command::Paste => run_clipboard_command(
            app,
            gui_state,
            command,
            &around.clipboard,
        ),
        Command::SelectAll => Ok(select_all(app, gui_state)),
        Command::Undo | Command::Delete | Command::TimeDate | Command::Backspace
        | Command::NewLine | Command::Tab => run_edit_command(app, gui_state, command, around),
        Command::SearchWithBing | Command::Find | Command::FindNext | Command::FindPrevious
        | Command::Replace | Command::GoTo => run_search_command(app, gui_state, command),
        Command::WordWrap => {
            app.toggle_word_wrap();
            gui_state.reset_word_wrap_view();
            Ok(Effect::Nothing)
        },
        Command::Font => {
            open_font_news(gui_state, around.fonts.as_str());
            Ok(Effect::Nothing)
        },
        Command::ZoomIn => {
            app.zoom_in();
            Ok(Effect::Nothing)
        },
        Command::ZoomOut => {
            app.zoom_out();
            Ok(Effect::Nothing)
        },
        Command::RestoreZoom => {
            app.restore_default_zoom();
            Ok(Effect::Nothing)
        },
        Command::StatusBar => {
            app.toggle_status_bar();
            Ok(Effect::Nothing)
        },
        Command::Browse => Ok(Effect::Browse(owned("https://github.com/"))),
        Command::About => {
            open_info_window(
                gui_state,
                "About Notepad",
                "blitzpad 0.1.0\nNotepad-compatible editor",
            );
            Ok(Effect::Nothing)
        },
        Command::MoveLeft { extend } => move_caret_with_selection(app, gui_state, command, extend),
        Command::MoveRight { extend } => move_caret_with_selection(
            app,
            gui_state,
            command,
            extend,
        ),
        Command::MoveUp { extend } => move_caret_with_selection(app, gui_state, command, extend),
        Command::MoveDown { extend } => move_caret_with_selection(app, gui_state, command, extend),
        Command::LineStart { extend } => move_caret_with_selection(
            app,
            gui_state,
            command,
            extend,
        ),
        Command::LineEnd { extend } => move_caret_with_selection(app, gui_state, command, extend),
        Command::PageUp => {
            scroll_page(app, gui_state, around.width, around.height, false);
            Ok(Effect::Nothing)
        },
        Command::PageDown => {
            scroll_page(app, gui_state, around.width, around.height, true);
            Ok(Effect::Nothing)
        },
        Command::Unavailable(label) => {
            let mut message = owned(label);
            message.append(" is not available yet");
            gui_state.set_message(message.as_str());
            Ok(Effect::Nothing)
        },
        _ => Ok(run_file_command(app, gui_state, command)),
    }
}

} // verus!

//! The find window, the dialogs and the background jobs around the editor.

use crate::app::{all_replaced, caret_set, next_replaced, searched, AppModel, BlitzApp};
use crate::canvas::covers;
use crate::commands::{dialog_opened, open_dialog_window};
use crate::dialog::{
    all_entered, append_find_query_paste, backspace_dialog_field, clipboard_choice, clipboard_text,
    field_shortened, field_switched, find_cancel_button_rect, find_down_radio_rect,
    find_match_case_rect, find_next_button_rect, find_up_radio_rect, find_wrap_rect,
    go_to_accept_button_rect, go_to_cancel_button_rect, handle_dialog_window_text_input, keys_text,
    line_number, option_toggled, parse_line_number, paste_into_dialog_field, printable, push_keys,
    push_printable, tab_dialog_field, text_entered, toggle_dialog_option, without_last, DialogModel,
    DialogState, FindModel, FindWindow, SearchModel, SearchSpec,
};
use crate::document::opt_text;
use crate::error::{fails_as, ErrorModel, Result};
use crate::gui::{GuiModel, GuiState};
use crate::input::{should_use_find_ascii_fallback, Key};
use crate::scroll::hit_rect;
use crate::search::{greedy_matches, needle_of};
use crate::text::owned;
use vstd::prelude::*;

verus! {

// ---------------------------------------------------------------------------
// The find window
// ---------------------------------------------------------------------------

/// What came to the find window in one frame.
#[derive(Debug)]
pub struct FindInput {
    pub escape: bool,
    pub enter: bool,
    pub backspace: bool,
    pub up: bool,
    pub down: bool,
    pub paste: bool,
    pub command: bool,
    pub shift: bool,
    pub ime_open: bool,
    pub characters: Vec<char>,
    pub keys: Vec<Key>,
    pub clipboard: Option<String>,
    pub mouse_down: bool,
    pub mouse: Option<(usize, usize)>,
}

/// A search from the find window. What was found is brought into view and is
/// what is searched for next.
#[verifier::opaque]
pub open spec fn find_run(g: GuiModel, a: AppModel, f: FindModel) -> (GuiModel, AppModel) {
    let outcome = searched(a, f.query, f.match_case, f.forward, f.wrap_around);
    if f.query.len() == 0 {
        (g, a)
    } else if outcome.1 && outcome.2 is None {
        (
            GuiModel {
                pending_reveal_selection: true,
                last_search: Some(
                    SearchModel {
                        query: f.query,
                        match_case: f.match_case,
                        wrap_around: f.wrap_around,
                    },
                ),
                ..g
            },
            outcome.0,
        )
    } else {
        (g, outcome.0)
    }
}

/// Searches from the find window.
pub fn run_find_from_window(app: &mut BlitzApp, gui_state: &mut GuiState, find_window: &FindWindow)
    requires
        old(app).wf(),
    ensures
        final(app).wf(),
        final(app).doc() == old(app).doc(),
        (final(gui_state)@, final(app)@) == find_run(old(gui_state)@, old(app)@, find_window@),
{
    proof {
        reveal(find_run);
    }
    if find_window.query.as_str().is_empty() {
        return;
    }
    let found = match app.find_text_with_options(
        find_window.query.as_str(),
        find_window.match_case,
        find_window.forward,
        find_window.wrap_around,
    ) {
        Ok(found) => found,
        Err(_) => false,
    };
    if found {
        gui_state.pending_reveal_selection = true;
        gui_state.last_search = Some(
            SearchSpec {
                query: owned(find_window.query.as_str()),
                match_case: find_window.match_case,
                wrap_around: find_window.wrap_around,
            },
        );
    }
}

/// The find window after the keys that change it.
pub open spec fn find_keys_seen(f: FindModel, input: FindInput) -> FindModel {
    FindModel {
        query: if input.backspace {
            without_last(f.query)
        } else {
            f.query
        },
        forward: if input.down {
            true
        } else if input.up {
            false
        } else {
            f.forward
        },
        ..f
    }
}

/// What is typed into the find window: characters, or where none come, what the
/// keys stand for.
pub open spec fn find_typed(input: FindInput) -> Seq<char> {
    if input.characters@.len() == 0 && !input.command && !input.ime_open {
        keys_text(input.keys@, input.shift)
    } else {
        printable(input.characters@)
    }
}

/// What the keys lead to: the state, the editor, the find window, and whether it
/// stays open.
pub open spec fn find_keyed(g: GuiModel, a: AppModel, f: FindModel, input: FindInput) -> (
    GuiModel,
    AppModel,
    FindModel,
    bool,
) {
    let (g1, a1) = if input.enter {
        find_run(g, a, f)
    } else {
        (g, a)
    };
    let seen = find_keys_seen(f, input);
    let pasted = clipboard_choice(opt_text(input.clipboard), g1.clipboard);
    if input.escape {
        (g, a, f, false)
    } else if input.command && input.paste {
        (
            GuiModel {
                clipboard: if pasted.len() == 0 {
                    g1.clipboard
                } else {
                    pasted
                },
                ..g1
            },
            a1,
            FindModel { query: seen.query + pasted, ..seen },
            true,
        )
    } else {
        (g1, a1, FindModel { query: seen.query + find_typed(input), ..seen }, true)
    }
}

fn see_find_keys(find_window: &mut FindWindow, input: &FindInput)
    ensures
        final(find_window)@ == find_keys_seen(old(find_window)@, *input),
{
    if input.backspace {
        find_window.query.pop();
    }
    if input.up {
        find_window.forward = false;
    }
    if input.down {
        find_window.forward = true;
    }
}

fn type_into_find(find_window: &mut FindWindow, input: &FindInput)
    ensures
        final(find_window)@ == (FindModel {
            query: old(find_window)@.query + find_typed(*input),
            ..old(find_window)@
        }),
{
    if should_use_find_ascii_fallback(
        input.characters.len() == 0,
        input.command,
        input.ime_open,
    ) {
        push_keys(&mut find_window.query, &input.keys, input.shift);
    } else {
        push_printable(&mut find_window.query, &input.characters);
    }
}

pub fn handle_find_window_keys(
    app: &mut BlitzApp,
    gui_state: &mut GuiState,
    find_window: &mut FindWindow,
    input: &FindInput,
) -> (keep_open: bool)
    requires
        old(app).wf(),
    ensures
        final(app).wf(),
        final(app).doc() == old(app).doc(),
        (final(gui_state)@, final(app)@, final(find_window)@, keep_open) == find_keyed(
            old(gui_state)@,
            old(app)@,
            old(find_window)@,
            *input,
        ),
{
    if input.escape {
        return false;
    }
    if input.enter {
        run_find_from_window(app, gui_state, find_window);
    }
    see_find_keys(find_window, input);
    if input.command && input.paste {
        let system = match &input.clipboard {
            Some(text) => Some(owned(text.as_str())),
            None => None,
        };
        let pasted = clipboard_text(system, gui_state.clipboard.as_str());
        append_find_query_paste(&mut find_window.query, &mut gui_state.clipboard, pasted);
        return true;
    }
    type_into_find(find_window, input);
    true
}

/// What a click into the find window leads to.
pub open spec fn find_clicked(g: GuiModel, a: AppModel, f: FindModel, x: int, y: int) -> (
    GuiModel,
    AppModel,
    FindModel,
    bool,
) {
    if on(find_next_button_rect(), x, y) {
        let (h, b) = find_run(g, a, f);
        (h, b, f, true)
    } else if on(find_cancel_button_rect(), x, y) {
        (g, a, f, false)
    } else if on(find_match_case_rect(), x, y) {
        (g, a, FindModel { match_case: !f.match_case, ..f }, true)
    } else if on(find_wrap_rect(), x, y) {
        (g, a, FindModel { wrap_around: !f.wrap_around, ..f }, true)
    } else if on(find_up_radio_rect(), x, y) {
        (g, a, FindModel { forward: false, ..f }, true)
    } else if on(find_down_radio_rect(), x, y) {
        (g, a, FindModel { forward: true, ..f }, true)
    } else {
        (g, a, f, true)
    }
}

pub open spec fn on(rect: crate::canvas::Rect, x: int, y: int) -> bool {
    covers(rect.x as int, rect.y as int, rect.width as int, rect.height as int, x, y)
}

/// What the mouse leads to in the find window.
pub open spec fn find_moused(g: GuiModel, a: AppModel, f: FindModel, input: FindInput) -> (
    GuiModel,
    AppModel,
    FindModel,
    bool,
) {
    let now = FindModel { mouse_was_down: input.mouse_down, ..f };
    match input.mouse {
        Some((x, y)) => if input.mouse_down && !f.mouse_was_down {
            find_clicked(g, a, now, x as int, y as int)
        } else {
            (g, a, now, true)
        },
        None => (g, a, now, true),
    }
}

pub fn handle_find_window_mouse(
    app: &mut BlitzApp,
    gui_state: &mut GuiState,
    find_window: &mut FindWindow,
    input: &FindInput,
) -> (keep_open: bool)
    requires
        old(app).wf(),
    ensures
        final(app).wf(),
        final(app).doc() == old(app).doc(),
        (final(gui_state)@, final(app)@, final(find_window)@, keep_open) == find_moused(
            old(gui_state)@,
            old(app)@,
            old(find_window)@,
            *input,
        ),
{
    let clicked = input.mouse_down && !find_window.mouse_was_down;
    find_window.mouse_was_down = input.mouse_down;
    if !clicked {
        return true;
    }
    let (x, y) = match input.mouse {
        Some(position) => position,
        None => {
            return true;
        },
    };
    if hit_rect(x, y, find_next_button_rect()) {
        run_find_from_window(app, gui_state, find_window);
    } else if hit_rect(x, y, find_cancel_button_rect()) {
        return false;
    } else if hit_rect(x, y, find_match_case_rect()) {
        find_window.match_case = !find_window.match_case;
    } else if hit_rect(x, y, find_wrap_rect()) {
        find_window.wrap_around = !find_window.wrap_around;
    } else if hit_rect(x, y, find_up_radio_rect()) {
        find_window.forward = false;
    } else if hit_rect(x, y, find_down_radio_rect()) {
        find_window.forward = true;
    }
    true
}

/// What a frame leads to while the find window is there.
pub open spec fn find_window_run(g: GuiModel, a: AppModel, is_open: bool, input: FindInput) -> (
    GuiModel,
    AppModel,
) {
    match g.find_window {
        None => (g, a),
        Some(f) => if !is_open {
            (GuiModel { find_window: None, ..g }, a)
        } else {
            let base = GuiModel { find_window: None, ..g };
            let keyed = find_keyed(base, a, f, input);
            if !keyed.3 {
                (keyed.0, keyed.1)
            } else {
                let moused = find_moused(keyed.0, keyed.1, keyed.2, input);
                if moused.3 {
                    (GuiModel { find_window: Some(moused.2), ..moused.0 }, moused.1)
                } else {
                    (moused.0, moused.1)
                }
            }
        },
    }
}

/// Takes in a frame of the find window; it is closed where its window is, or
/// where it is told to.
pub fn handle_find_window(
    app: &mut BlitzApp,
    gui_state: &mut GuiState,
    is_open: bool,
    input: &FindInput,
)
    requires
        old(app).wf(),
    ensures
        final(app).wf(),
        final(app).doc() == old(app).doc(),
        (final(gui_state)@, final(app)@) == find_window_run(
            old(gui_state)@,
            old(app)@,
            is_open,
            *input,
        ),
{
    let mut find_window = match gui_state.find_window.take() {
        Some(find_window) => find_window,
        None => {
            return;
        },
    };
    if !is_open {
        return;
    }
    if !handle_find_window_keys(app, gui_state, &mut find_window, input) {
        return;
    }
    if handle_find_window_mouse(app, gui_state, &mut find_window, input) {
        gui_state.find_window = Some(find_window);
    }
}

// ---------------------------------------------------------------------------
// Dialogs
// ---------------------------------------------------------------------------

/// What came to a dialog's window in one frame.
#[derive(Debug)]
pub struct DialogInput {
    pub escape: bool,
    pub paste: bool,
    pub command: bool,
    pub backspace: bool,
    pub tab: bool,
    pub space: bool,
    pub enter: bool,
    pub characters: Vec<char>,
    pub clipboard: Option<String>,
    pub mouse_down: bool,
    pub mouse: Option<(usize, usize)>,
}

/// What a dialog leads to: the state, the editor, the dialog, whether it stays
/// open, and the error.
pub struct DialogOutcome {
    pub gui: GuiModel,
    pub app: AppModel,
    pub dialog: DialogModel,
    pub keep_open: bool,
    pub error: Option<ErrorModel>,
}

/// All matches replaced, from the front of the text.
pub open spec fn everything_replaced(
    a: AppModel,
    query: Seq<char>,
    replacement: Seq<char>,
    match_case: bool,
) -> (AppModel, Option<ErrorModel>) {
    let needle = needle_of(query, match_case);
    if query.len() == 0 {
        (a, None)
    } else {
        all_replaced(
            a,
            greedy_matches(a.document.bytes, needle, match_case, 0),
            needle.len() as int,
            replacement,
        )
    }
}

/// The line of a given number gone to.
pub open spec fn line_gone_to(a: AppModel, number: int) -> (AppModel, bool, Option<ErrorModel>) {
    let starts = a.document.index.starts;
    if 1 <= number <= starts.len() {
        let outcome = caret_set(a, starts[number - 1]);
        (outcome.0, true, outcome.1)
    } else {
        (a, false, None)
    }
}

/// What accepting a dialog leads to: replacing keeps it open, going to a line
/// that is there closes it.
#[verifier::opaque]
pub open spec fn dialog_accepted(
    g: GuiModel,
    a: AppModel,
    dialog: DialogModel,
    command: bool,
) -> DialogOutcome {
    match dialog {
        DialogModel::Replace { query, replacement, active_field, match_case } => {
            let h = GuiModel {
                last_search: Some(SearchModel { query, match_case, wrap_around: true }),
                ..g
            };
            if command {
                let outcome = everything_replaced(a, query, replacement, match_case);
                DialogOutcome {
                    gui: h,
                    app: outcome.0,
                    dialog,
                    keep_open: true,
                    error: outcome.1,
                }
            } else {
                let outcome = next_replaced(a, query, replacement, match_case);
                DialogOutcome {
                    gui: if outcome.1 && outcome.2 is None {
                        GuiModel { pending_reveal_selection: true, ..h }
                    } else {
                        h
                    },
                    app: outcome.0,
                    dialog,
                    keep_open: true,
                    error: outcome.2,
                }
            }
        },
        DialogModel::GoTo { line, replace_on_input } => {
            let outcome = line_gone_to(a, line_number(line));
            DialogOutcome {
                gui: g,
                app: outcome.0,
                dialog,
                keep_open: !outcome.1,
                error: outcome.2,
            }
        },
        DialogModel::Info { .. } => DialogOutcome {
            gui: g,
            app: a,
            dialog,
            keep_open: false,
            error: None,
        },
    }
}

pub open spec fn dialog_came_out(
    app: AppModel,
    gui: GuiModel,
    dialog: DialogModel,
    result: Result<bool>,
    outcome: DialogOutcome,
) -> bool {
    &&& app == outcome.app
    &&& gui == outcome.gui
    &&& dialog == outcome.dialog
    &&& fails_as(result, outcome.error)
    &&& result matches Ok(keep_open) ==> keep_open == outcome.keep_open
}

/// Accepts a dialog. The answer says whether it stays open.
pub fn accept_dialog_state(
    app: &mut BlitzApp,
    gui_state: &mut GuiState,
    dialog: &DialogState,
    command_down: bool,
) -> (keep_open: Result<bool>)
    requires
        old(app).wf(),
    ensures
        final(app).wf(),
        dialog_came_out(
            final(app)@,
            final(gui_state)@,
            dialog@,
            keep_open,
            dialog_accepted(
                old(gui_state)@,
                old(app)@,
                dialog@,
                command_down,
            ),
        ),
{
    proof {
        reveal(dialog_accepted);
    }
    match dialog {
        DialogState::Replace { query, replacement, match_case, .. } => {
            gui_state.last_search = Some(
                SearchSpec {
                    query: owned(query.as_str()),
                    match_case: *match_case,
                    wrap_around: true,
                },
            );
            if command_down {
                app.replace_all(query.as_str(), replacement.as_str(), *match_case)?;
            } else if app.replace_next(query.as_str(), replacement.as_str(), *match_case)? {
                gui_state.pending_reveal_selection = true;
            }
            Ok(true)
        },
        DialogState::GoTo { line, .. } => {
            let number: usize = parse_line_number(line.as_str());
            if app.go_to_line(number)? {
                Ok(false)
            } else {
                Ok(true)
            }
        },
        DialogState::Info { .. } => Ok(false),
    }
}

/// Goes to the line that the dialog names. The answer says whether the dialog
/// stays open.
pub fn activate_go_to_button(
    app: &mut BlitzApp,
    gui_state: &mut GuiState,
    dialog: &DialogState,
) -> (keep_open: Result<bool>)
    requires
        old(app).wf(),
    ensures
        final(app).wf(),
        dialog_came_out(
            final(app)@,
            final(gui_state)@,
            dialog@,
            keep_open,
            dialog_accepted(
                old(gui_state)@,
                old(app)@,
                dialog@,
                false,
            ),
        ),
{
    accept_dialog_state(app, gui_state, dialog, false)
}

/// A dialog after the keys that change it.
pub open spec fn dialog_keys_seen(dialog: DialogModel, input: DialogInput) -> DialogModel {
    let shorter = if input.backspace {
        field_shortened(dialog)
    } else {
        dialog
    };
    let switched = if input.tab {
        field_switched(shorter)
    } else {
        shorter
    };
    if input.space {
        option_toggled(switched)
    } else {
        switched
    }
}

/// What the keys lead to in a dialog.
pub open spec fn dialog_keyed(
    g: GuiModel,
    a: AppModel,
    dialog: DialogModel,
    input: DialogInput,
) -> DialogOutcome {
    let pasted = clipboard_choice(opt_text(input.clipboard), g.clipboard);
    let seen = dialog_keys_seen(dialog, input);
    if input.escape {
        DialogOutcome { gui: g, app: a, dialog, keep_open: false, error: None }
    } else if input.command && input.paste {
        if pasted.len() == 0 {
            DialogOutcome { gui: g, app: a, dialog, keep_open: true, error: None }
        } else {
            DialogOutcome {
                gui: GuiModel { clipboard: pasted, ..g },
                app: a,
                dialog: text_entered(dialog, pasted),
                keep_open: true,
                error: None,
            }
        }
    } else if input.enter {
        dialog_accepted(g, a, seen, input.command && !(seen is GoTo))
    } else {
        DialogOutcome { gui: g, app: a, dialog: seen, keep_open: true, error: None }
    }
}

pub fn handle_dialog_window_keys(
    app: &mut BlitzApp,
    gui_state: &mut GuiState,
    dialog: &mut DialogState,
    input: &DialogInput,
) -> (keep_open: Result<bool>)
    requires
        old(app).wf(),
    ensures
        final(app).wf(),
        dialog_came_out(
            final(app)@,
            final(gui_state)@,
            final(dialog)@,
            keep_open,
            dialog_keyed(
                old(gui_state)@,
                old(app)@,
                old(dialog)@,
                *input,
            ),
        ),
{
    if input.escape {
        return Ok(false);
    }
    if input.command && input.paste {
        let system = match &input.clipboard {
            Some(text) => Some(owned(text.as_str())),
            None => None,
        };
        let pasted = clipboard_text(system, gui_state.clipboard.as_str());
        paste_into_dialog_field(dialog, &mut gui_state.clipboard, pasted);
        return Ok(true);
    }
    if input.backspace {
        backspace_dialog_field(dialog);
    }
    if input.tab {
        tab_dialog_field(dialog);
    }
    if input.space {
        toggle_dialog_option(dialog);
    }
    if input.enter {
        let is_go_to = match &*dialog {
            DialogState::GoTo { .. } => true,
            _ => false,
        };
        return accept_dialog_state(app, gui_state, dialog, input.command && !is_go_to);
    }
    Ok(true)
}

/// What the mouse leads to in a dialog: only going to a line has buttons.
pub open spec fn dialog_moused(
    g: GuiModel,
    a: AppModel,
    dialog: DialogModel,
    input: DialogInput,
) -> DialogOutcome {
    let now = GuiModel { dialog_mouse_was_down: input.mouse_down, ..g };
    let still = DialogOutcome { gui: now, app: a, dialog, keep_open: true, error: None };
    match input.mouse {
        None => still,
        Some((x, y)) => if !input.mouse_down || g.dialog_mouse_was_down || !(dialog is GoTo) {
            still
        } else if on(go_to_accept_button_rect(), x as int, y as int) {
            dialog_accepted(now, a, dialog, false)
        } else {
            DialogOutcome {
                keep_open: !on(go_to_cancel_button_rect(), x as int, y as int),
                ..still
            }
        },
    }
}

pub fn handle_dialog_window_mouse(
    app: &mut BlitzApp,
    gui_state: &mut GuiState,
    dialog: &DialogState,
    input: &DialogInput,
) -> (keep_open: Result<bool>)
    requires
        old(app).wf(),
    ensures
        final(app).wf(),
        dialog_came_out(
            final(app)@,
            final(gui_state)@,
            dialog@,
            keep_open,
            dialog_moused(
                old(gui_state)@,
                old(app)@,
                dialog@,
                *input,
            ),
        ),
{
    let clicked = input.mouse_down && !gui_state.dialog_mouse_was_down;
    gui_state.dialog_mouse_was_down = input.mouse_down;
    if !clicked {
        return Ok(true);
    }
    let (x, y) = match input.mouse {
        Some(position) => position,
        None => {
            return Ok(true);
        },
    };
    match dialog {
        DialogState::GoTo { .. } => {},
        _ => {
            return Ok(true);
        },
    }
    if hit_rect(x, y, go_to_accept_button_rect()) {
        activate_go_to_button(app, gui_state, dialog)
    } else {
        Ok(!hit_rect(x, y, go_to_cancel_button_rect()))
    }
}

/// A dialog closed: news that waited comes up.
pub open spec fn dialog_closed(g: GuiModel) -> GuiModel {
    match g.pending_info_dialog {
        Some(pending) => dialog_opened(
            GuiModel { pending_info_dialog: None, dialog: None, ..g },
            pending,
        ),
        None => GuiModel { dialog: None, ..g },
    }
}

/// The characters that are typed into a dialog: none in a frame with a paste.
pub open spec fn dialog_characters(input: DialogInput) -> Seq<char> {
    if input.command && input.paste {
        Seq::empty()
    } else {
        input.characters@
    }
}

/// What a frame leads to while a dialog is open. Where it fails, the dialog is
/// gone.
pub open spec fn dialog_window_run(
    g: GuiModel,
    a: AppModel,
    is_open: bool,
    input: DialogInput,
) -> (GuiModel, AppModel, Option<ErrorModel>) {
    match g.dialog {
        None => (g, a, None),
        Some(dialog) => {
            let base = GuiModel { dialog: None, ..g };
            if !is_open {
                (dialog_closed(base), a, None)
            } else {
                let keyed = dialog_keyed(base, a, dialog, input);
                if keyed.error is Some {
                    (keyed.gui, keyed.app, keyed.error)
                } else if !keyed.keep_open {
                    (dialog_closed(keyed.gui), keyed.app, None)
                } else {
                    let filled = all_entered(keyed.dialog, dialog_characters(input));
                    let moused = dialog_moused(keyed.gui, keyed.app, filled, input);
                    if moused.error is Some {
                        (moused.gui, moused.app, moused.error)
                    } else if moused.keep_open {
                        (
                            GuiModel { dialog: Some(moused.dialog), ..moused.gui },
                            moused.app,
                            None,
                        )
                    } else {
                        (dialog_closed(moused.gui), moused.app, None)
                    }
                }
            }
        },
    }
}

fn close_dialog(gui_state: &mut GuiState)
    ensures
        final(gui_state)@ == dialog_closed(old(gui_state)@),
{
    gui_state.dialog = None;
    if let Some(pending) = gui_state.pending_info_dialog.take() {
        open_dialog_window(gui_state, pending);
    }
}

/// Takes in a frame of the dialog's window.
pub fn handle_dialog_window(
    app: &mut BlitzApp,
    gui_state: &mut GuiState,
    is_open: bool,
    input: &DialogInput,
) -> (result: Result<()>)
    requires
        old(app).wf(),
    ensures
        final(app).wf(),
        ({
            let outcome = dialog_window_run(
                old(gui_state)@,
                old(app)@,
                is_open,
                *input,
            );
            &&& final(gui_state)@ == outcome.0
            &&& final(app)@ == outcome.1
            &&& fails_as(result, outcome.2)
        }),
{
    let mut dialog = match gui_state.dialog.take() {
        Some(dialog) => dialog,
        None => {
            return Ok(());
        },
    };
    if !is_open {
        close_dialog(gui_state);
        return Ok(());
    }
    if !handle_dialog_window_keys(app, gui_state, &mut dialog, input)? {
        close_dialog(gui_state);
        return Ok(());
    }
    if !(input.command && input.paste) {
        handle_dialog_window_text_input(&mut dialog, &input.characters);
    }
    if handle_dialog_window_mouse(app, gui_state, &dialog, input)? {
        gui_state.dialog = Some(dialog);
    } else {
        close_dialog(gui_state);
    }
    Ok(())
}

} // verus!

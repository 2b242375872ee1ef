//! Commands from keys and menu rows, and typed text.

use crate::app::{typed, AppModel, BlitzApp};
use crate::commands::{deselected, Command};
use crate::error::{fails_as, ErrorModel, Result};
use crate::gui::{GuiModel, GuiState};
use crate::input::{
    has_text, input_queue_has_text, is_control, is_control_char, should_handle_command_shortcuts, Key,
};
use crate::menu::{MenuRow, MENU_COUNT};
use crate::text::same_text;
use vstd::prelude::*;

verus! {

/// The keys in one frame: those pressed just now, those with repetition, and
/// whether shift, the command key or an input method is active.
#[derive(Debug)]
pub struct KeyInput {
    pub pressed: Vec<Key>,
    pub repeated: Vec<Key>,
    pub shift: bool,
    pub command: bool,
    pub composing: bool,
}

// ---------------------------------------------------------------------------
// Menu rows
// ---------------------------------------------------------------------------

/// The command of an item of the File menu.
pub open spec fn file_command(label: Seq<char>) -> Option<Command> {
    if label == "New"@ {
        Some(Command::New)
    } else if label == "New Window"@ {
        Some(Command::NewWindow)
    } else if label == "Open..."@ {
        Some(Command::Open)
    } else if label == "Save"@ {
        Some(Command::Save)
    } else if label == "Save As..."@ {
        Some(Command::SaveAs)
    } else if label == "Print..."@ {
        Some(Command::Print)
    } else if label == "Exit"@ {
        Some(Command::Exit)
    } else {
        None
    }
}

fn file_menu_command(label: &str) -> (command: Option<Command>)
    ensures
        command == file_command(label@),
{
    if same_text(label, "New") {
        Some(Command::New)
    } else if same_text(label, "New Window") {
        Some(Command::NewWindow)
    } else if same_text(label, "Open...") {
        Some(Command::Open)
    } else if same_text(label, "Save") {
        Some(Command::Save)
    } else if same_text(label, "Save As...") {
        Some(Command::SaveAs)
    } else if same_text(label, "Print...") {
        Some(Command::Print)
    } else if same_text(label, "Exit") {
        Some(Command::Exit)
    } else {
        None
    }
}

/// The command of an item of the Edit menu.
pub open spec fn edit_command(label: Seq<char>) -> Option<Command> {
    if label == "Undo"@ {
        Some(Command::Undo)
    } else if label == "Cut"@ {
        Some(Command::Cut)
    } else if label == "Copy"@ {
        Some(Command::Copy)
    } else if label == "Paste"@ {
        Some(Command::Paste)
    } else if label == "Delete"@ {
        Some(Command::Delete)
    } else if label == "Select All"@ {
        Some(Command::SelectAll)
    } else if label == "Time/Date"@ {
        Some(Command::TimeDate)
    } else if label == "Search with Bing..."@ {
        Some(Command::SearchWithBing)
    } else if label == "Find..."@ {
        Some(Command::Find)
    } else if label == "Find Next"@ {
        Some(Command::FindNext)
    } else if label == "Find Previous"@ {
        Some(Command::FindPrevious)
    } else if label == "Replace..."@ {
        Some(Command::Replace)
    } else if label == "Go To..."@ {
        Some(Command::GoTo)
    } else {
        None
    }
}

fn edit_menu_command(label: &str) -> (command: Option<Command>)
    ensures
        command == edit_command(label@),
{
    if same_text(label, "Undo") {
        Some(Command::Undo)
    } else if same_text(label, "Cut") {
        Some(Command::Cut)
    } else if same_text(label, "Copy") {
        Some(Command::Copy)
    } else if same_text(label, "Paste") {
        Some(Command::Paste)
    } else if same_text(label, "Delete") {
        Some(Command::Delete)
    } else if same_text(label, "Select All") {
        Some(Command::SelectAll)
    } else if same_text(label, "Time/Date") {
        Some(Command::TimeDate)
    } else if same_text(label, "Search with Bing...") {
        Some(Command::SearchWithBing)
    } else if same_text(label, "Find...") {
        Some(Command::Find)
    } else if same_text(label, "Find Next") {
        Some(Command::FindNext)
    } else if same_text(label, "Find Previous") {
        Some(Command::FindPrevious)
    } else if same_text(label, "Replace...") {
        Some(Command::Replace)
    } else if same_text(label, "Go To...") {
        Some(Command::GoTo)
    } else {
        None
    }
}

/// The command of an item of the Format menu.
pub open spec fn format_command(label: Seq<char>) -> Option<Command> {
    if label == "Word Wrap"@ {
        Some(Command::WordWrap)
    } else if label == "Font..."@ {
        Some(Command::Font)
    } else {
        None
    }
}

fn format_menu_command(label: &str) -> (command: Option<Command>)
    ensures
        command == format_command(label@),
{
    if same_text(label, "Word Wrap") {
        Some(Command::WordWrap)
    } else if same_text(label, "Font...") {
        Some(Command::Font)
    } else {
        None
    }
}

/// The command of an item of the View menu.
pub open spec fn view_command(label: Seq<char>) -> Option<Command> {
    if label == "Zoom In"@ {
        Some(Command::ZoomIn)
    } else if label == "Zoom Out"@ {
        Some(Command::ZoomOut)
    } else if label == "Restore Default Zoom"@ {
        Some(Command::RestoreZoom)
    } else if label == "Status Bar"@ {
        Some(Command::StatusBar)
    } else {
        None
    }
}

fn view_menu_command(label: &str) -> (command: Option<Command>)
    ensures
        command == view_command(label@),
{
    if same_text(label, "Zoom In") {
        Some(Command::ZoomIn)
    } else if same_text(label, "Zoom Out") {
        Some(Command::ZoomOut)
    } else if same_text(label, "Restore Default Zoom") {
        Some(Command::RestoreZoom)
    } else if same_text(label, "Status Bar") {
        Some(Command::StatusBar)
    } else {
        None
    }
}

/// The command of an item of the Help menu.
pub open spec fn help_command(label: Seq<char>) -> Option<Command> {
    if label == "View Help"@ {
        Some(Command::Browse)
    } else if label == "Send Feedback"@ {
        Some(Command::Browse)
    } else if label == "About Notepad"@ {
        Some(Command::About)
    } else {
        None
    }
}

fn help_menu_command(label: &str) -> (command: Option<Command>)
    ensures
        command == help_command(label@),
{
    if same_text(label, "View Help") {
        Some(Command::Browse)
    } else if same_text(label, "Send Feedback") {
        Some(Command::Browse)
    } else if same_text(label, "About Notepad") {
        Some(Command::About)
    } else {
        None
    }
}

/// The command of an item under a heading.
pub open spec fn item_command(menu_index: int, label: Seq<char>) -> Option<Command> {
    if menu_index == 0 {
        file_command(label)
    } else if menu_index == 1 {
        edit_command(label)
    } else if menu_index == 2 {
        format_command(label)
    } else if menu_index == 3 {
        view_command(label)
    } else {
        help_command(label)
    }
}

/// The command of a row of a menu; a row that is disabled or has a menu under it
/// has none.
pub open spec fn row_command(menu_index: int, row: MenuRow) -> Option<Command> {
    if !row.enabled || row.has_children {
        None
    } else {
        match item_command(menu_index, row.label@) {
            Some(command) => Some(command),
            None => Some(Command::Unavailable(row.label)),
        }
    }
}

pub fn menu_row_command(menu_index: usize, row: &MenuRow) -> (command: Option<Command>)
    requires
        menu_index < MENU_COUNT,
    ensures
        command == row_command(menu_index as int, *row),
{
    if !row.enabled || row.has_children {
        return None;
    }
    let command = if menu_index == 0 {
        file_menu_command(row.label)
    } else if menu_index == 1 {
        edit_menu_command(row.label)
    } else if menu_index == 2 {
        format_menu_command(row.label)
    } else if menu_index == 3 {
        view_menu_command(row.label)
    } else {
        help_menu_command(row.label)
    };
    match command {
        Some(command) => Some(command),
        None => Some(Command::Unavailable(row.label)),
    }
}

// ---------------------------------------------------------------------------
// Keys
// ---------------------------------------------------------------------------

fn contains_key(keys: &Vec<Key>, key: Key) -> (found: bool)
    ensures
        found == keys@.contains(key),
{
    let mut i: usize = 0;
    while i < keys.len()
        invariant
            i <= keys@.len(),
            forall|k: int| 0 <= k < i ==> keys@[k] != key,
        decreases keys@.len() - i,
    {
        if keys[i] == key {
            assert(keys@[i as int] == key);
            return true;
        }
        i += 1;
    }
    false
}

/// One command, under a condition.
#[verifier::opaque]
pub open spec fn when(condition: bool, command: Command) -> Seq<Command> {
    if condition {
        seq![command]
    } else {
        Seq::empty()
    }
}

fn push_when(commands: &mut Vec<Command>, condition: bool, command: Command)
    ensures
        final(commands)@ == old(commands)@ + when(condition, command),
{
    proof {
        reveal(when);
    }
    if condition {
        commands.push(command);
        assert(commands@ =~= old(commands)@ + seq![command]);
    } else {
        assert(commands@ =~= old(commands)@ + Seq::<Command>::empty());
    }
}

/// The commands of the shortcuts that are pressed, in a fixed order. Lines that
/// are wrapped have no numbers to go to.
pub open spec fn shortcuts(
    pressed: Seq<Key>,
    repeated: Seq<Key>,
    shift: bool,
    word_wrap: bool,
) -> Seq<Command> {
    when(
        pressed.contains(Key::N),
        if shift {
            Command::NewWindow
        } else {
            Command::New
        },
    ) + when(pressed.contains(Key::O), Command::Open) + when(
        pressed.contains(Key::S),
        if shift {
            Command::SaveAs
        } else {
            Command::Save
        },
    ) + when(pressed.contains(Key::P), Command::Print) + when(
        pressed.contains(Key::F),
        Command::Find,
    ) + when(pressed.contains(Key::H), Command::Replace) + when(
        pressed.contains(Key::G) && !word_wrap,
        Command::GoTo,
    ) + when(pressed.contains(Key::E), Command::SearchWithBing) + when(
        pressed.contains(Key::A),
        Command::SelectAll,
    ) + when(pressed.contains(Key::X), Command::Cut) + when(
        pressed.contains(Key::C),
        Command::Copy,
    ) + when(pressed.contains(Key::V), Command::Paste) + when(
        pressed.contains(Key::Z),
        Command::Undo,
    ) + when(
        pressed.contains(Key::Key0) || pressed.contains(Key::NumPad0),
        Command::RestoreZoom,
    ) + when(
        repeated.contains(Key::Equal) || repeated.contains(Key::NumPadPlus),
        Command::ZoomIn,
    ) + when(
        repeated.contains(Key::Minus) || repeated.contains(Key::NumPadMinus),
        Command::ZoomOut,
    )
}

fn shortcut_commands(keys: &KeyInput, word_wrap: bool) -> (commands: Vec<Command>)
    ensures
        commands@ == shortcuts(keys.pressed@, keys.repeated@, keys.shift, word_wrap),
{
    let pressed = &keys.pressed;
    let repeated = &keys.repeated;
    let mut commands: Vec<Command> = Vec::new();
    push_when(
        &mut commands,
        contains_key(pressed, Key::N),
        if keys.shift {
            Command::NewWindow
        } else {
            Command::New
        },
    );
    assert(commands@ =~= when(
        pressed@.contains(Key::N),
        if keys.shift {
            Command::NewWindow
        } else {
            Command::New
        },
    ));
    push_when(&mut commands, contains_key(pressed, Key::O), Command::Open);
    push_when(
        &mut commands,
        contains_key(pressed, Key::S),
        if keys.shift {
            Command::SaveAs
        } else {
            Command::Save
        },
    );
    push_when(&mut commands, contains_key(pressed, Key::P), Command::Print);
    push_when(&mut commands, contains_key(pressed, Key::F), Command::Find);
    push_when(&mut commands, contains_key(pressed, Key::H), Command::Replace);
    push_when(&mut commands, contains_key(pressed, Key::G) && !word_wrap, Command::GoTo);
    push_when(&mut commands, contains_key(pressed, Key::E), Command::SearchWithBing);
    push_when(&mut commands, contains_key(pressed, Key::A), Command::SelectAll);
    push_when(&mut commands, contains_key(pressed, Key::X), Command::Cut);
    push_when(&mut commands, contains_key(pressed, Key::C), Command::Copy);
    push_when(&mut commands, contains_key(pressed, Key::V), Command::Paste);
    push_when(&mut commands, contains_key(pressed, Key::Z), Command::Undo);
    push_when(
        &mut commands,
        contains_key(pressed, Key::Key0) || contains_key(pressed, Key::NumPad0),
        Command::RestoreZoom,
    );
    push_when(
        &mut commands,
        contains_key(repeated, Key::Equal) || contains_key(repeated, Key::NumPadPlus),
        Command::ZoomIn,
    );
    push_when(
        &mut commands,
        contains_key(repeated, Key::Minus) || contains_key(repeated, Key::NumPadMinus),
        Command::ZoomOut,
    );
    commands
}

/// The command of a key without the command key.
pub open spec fn key_command(key: Key, shift: bool) -> Option<Command> {
    match key {
        Key::Left => Some(Command::MoveLeft { extend: shift }),
        Key::Right => Some(Command::MoveRight { extend: shift }),
        Key::Up => Some(Command::MoveUp { extend: shift }),
        Key::Down => Some(Command::MoveDown { extend: shift }),
        Key::PageUp => Some(Command::PageUp),
        Key::PageDown => Some(Command::PageDown),
        Key::Home => Some(Command::LineStart { extend: shift }),
        Key::End => Some(Command::LineEnd { extend: shift }),
        Key::Backspace => Some(Command::Backspace),
        Key::Delete => Some(Command::Delete),
        Key::Enter => Some(Command::NewLine),
        Key::NumPadEnter => Some(Command::NewLine),
        Key::Tab => Some(Command::Tab),
        Key::F5 => Some(Command::TimeDate),
        _ => None,
    }
}

fn plain_key_command(key: Key, shift: bool) -> (command: Option<Command>)
    ensures
        command == key_command(key, shift),
{
    match key {
        Key::Left => Some(Command::MoveLeft { extend: shift }),
        Key::Right => Some(Command::MoveRight { extend: shift }),
        Key::Up => Some(Command::MoveUp { extend: shift }),
        Key::Down => Some(Command::MoveDown { extend: shift }),
        Key::PageUp => Some(Command::PageUp),
        Key::PageDown => Some(Command::PageDown),
        Key::Home => Some(Command::LineStart { extend: shift }),
        Key::End => Some(Command::LineEnd { extend: shift }),
        Key::Backspace => Some(Command::Backspace),
        Key::Delete => Some(Command::Delete),
        Key::Enter => Some(Command::NewLine),
        Key::NumPadEnter => Some(Command::NewLine),
        Key::Tab => Some(Command::Tab),
        Key::F5 => Some(Command::TimeDate),
        _ => None,
    }
}

/// The commands of keys, in the order in which they come.
pub open spec fn keys_commands(keys: Seq<Key>, shift: bool) -> Seq<Command>
    decreases keys.len(),
{
    if keys.len() == 0 {
        Seq::empty()
    } else {
        match key_command(keys.last(), shift) {
            Some(command) => keys_commands(keys.drop_last(), shift).push(command),
            None => keys_commands(keys.drop_last(), shift),
        }
    }
}

/// The commands of a frame's keys without the command key: F3 searches again.
pub open spec fn plain_commands(pressed: Seq<Key>, repeated: Seq<Key>, shift: bool) -> Seq<Command> {
    keys_commands(repeated, shift) + when(
        pressed.contains(Key::F3),
        if shift {
            Command::FindPrevious
        } else {
            Command::FindNext
        },
    )
}

fn plain_key_commands(keys: &KeyInput) -> (commands: Vec<Command>)
    ensures
        commands@ == plain_commands(keys.pressed@, keys.repeated@, keys.shift),
{
    let mut commands: Vec<Command> = Vec::new();
    let mut i: usize = 0;
    while i < keys.repeated.len()
        invariant
            i <= keys.repeated@.len(),
            commands@ == keys_commands(keys.repeated@.take(i as int), keys.shift),
        decreases keys.repeated@.len() - i,
    {
        proof {
            let taken = keys.repeated@.take(i + 1);
            assert(taken.drop_last() =~= keys.repeated@.take(i as int));
            assert(taken.last() == keys.repeated@[i as int]);
        }
        if let Some(command) = plain_key_command(keys.repeated[i], keys.shift) {
            commands.push(command);
        }
        i += 1;
    }
    assert(keys.repeated@.take(i as int) =~= keys.repeated@);
    push_when(
        &mut commands,
        contains_key(&keys.pressed, Key::F3),
        if keys.shift {
            Command::FindPrevious
        } else {
            Command::FindNext
        },
    );
    commands
}

/// The commands of a frame's keys. Shortcuts count while no text is on its way;
/// a dialog takes all keys.
pub open spec fn frame_commands(
    g: GuiModel,
    a: AppModel,
    keys: KeyInput,
    queue: Seq<char>,
) -> Seq<Command> {
    let composing = g.editor_ime_composition.len() > 0 || keys.composing;
    if g.dialog is Some {
        Seq::empty()
    } else if keys.command && !has_text(queue) && !composing {
        shortcuts(keys.pressed@, keys.repeated@, keys.shift, a.settings.word_wrap)
    } else {
        plain_commands(keys.pressed@, keys.repeated@, keys.shift)
    }
}

/// The state after a frame's keys: escape closes the menu.
pub open spec fn keys_seen(g: GuiModel, keys: KeyInput) -> GuiModel {
    if g.dialog is None && keys.pressed@.contains(Key::Escape) {
        GuiModel { active_menu: None, ..g }
    } else {
        g
    }
}

/// Takes in a frame's keys. The answer is the commands to run, in order.
pub fn handle_keys(
    input_queue: &Vec<char>,
    keys: &KeyInput,
    app: &BlitzApp,
    gui_state: &mut GuiState,
) -> (commands: Vec<Command>)
    ensures
        final(gui_state)@ == keys_seen(old(gui_state)@, *keys),
        commands@ == frame_commands(old(gui_state)@, app@, *keys, input_queue@),
{
    if gui_state.dialog.is_some() {
        return Vec::new();
    }
    if contains_key(&keys.pressed, Key::Escape) {
        gui_state.active_menu = None;
    }
    let composing = !gui_state.editor_ime_composition.as_str().is_empty() || keys.composing;
    if should_handle_command_shortcuts(keys.command, input_queue_has_text(input_queue), composing) {
        shortcut_commands(keys, app.settings().word_wrap)
    } else {
        plain_key_commands(keys)
    }
}

// ---------------------------------------------------------------------------
// Typed text
// ---------------------------------------------------------------------------

/// The editor after the first `n` characters are typed one by one, whether one
/// was put in, and the error that ended it.
pub open spec fn typed_each(a: AppModel, characters: Seq<char>, n: int) -> (
    AppModel,
    bool,
    Option<ErrorModel>,
)
    decreases n,
{
    if n <= 0 {
        (a, false, None)
    } else {
        let before = typed_each(a, characters, n - 1);
        let c = characters[n - 1];
        if before.2 is Some || is_control_char(c) {
            before
        } else {
            let outcome = typed(before.0, seq![c]);
            (outcome.0, before.1 || outcome.1 is None, outcome.1)
        }
    }
}

/// What typed characters lead to: nothing while a dialog or the find window is
/// open, or where the command key is down and they are all control characters.
pub open spec fn text_taken(g: GuiModel, a: AppModel, characters: Seq<char>, command: bool) -> (
    GuiModel,
    AppModel,
    Option<ErrorModel>,
) {
    if g.dialog is Some || g.find_window is Some || (command && !has_text(characters)) {
        (g, a, None)
    } else {
        let outcome = typed_each(a, characters, characters.len() as int);
        (
            if outcome.1 {
                deselected(g)
            } else {
                g
            },
            outcome.0,
            outcome.2,
        )
    }
}

proof fn lemma_typed_each_stops(a: AppModel, characters: Seq<char>, n: int, m: int)
    requires
        0 <= n <= m,
        typed_each(a, characters, n).2 is Some,
    ensures
        typed_each(a, characters, m) == typed_each(a, characters, n),
    decreases m,
{
    if n < m {
        lemma_typed_each_stops(a, characters, n, m - 1);
    }
}

fn one_char(c: char) -> (text: String)
    ensures
        text@ == seq![c],
{
    let mut text = String::new();
    text.push(c);
    assert(text@ =~= seq![c]);
    text
}

/// Types characters into the text.
pub fn handle_text_input(
    characters: &Vec<char>,
    command_down: bool,
    app: &mut BlitzApp,
    gui_state: &mut GuiState,
) -> (result: Result<()>)
    requires
        old(app).wf(),
    ensures
        final(app).wf(),
        ({
            let outcome = text_taken(old(gui_state)@, old(app)@, characters@, command_down);
            &&& final(gui_state)@ == outcome.0
            &&& final(app)@ == outcome.1
            &&& fails_as(result, outcome.2)
        }),
{
    if gui_state.dialog.is_some() || gui_state.find_window.is_some() {
        return Ok(());
    }
    if command_down && !input_queue_has_text(characters) {
        return Ok(());
    }
    let ghost a = app@;
    let ghost g = gui_state@;
    let mut i: usize = 0;
    while i < characters.len()
        invariant
            app.wf(),
            i <= characters@.len(),
            a == old(app)@,
            g == old(gui_state)@,
            g.dialog is None,
            g.find_window is None,
            !(command_down && !has_text(characters@)),
            app@ == typed_each(a, characters@, i as int).0,
            typed_each(a, characters@, i as int).2 is None,
            gui_state@ == (if typed_each(a, characters@, i as int).1 {
                deselected(g)
            } else {
                g
            }),
        decreases characters@.len() - i,
    {
        let c: char = characters[i];
        if !is_control(c) {
            let text = one_char(c);
            match app.insert_text(text.as_str()) {
                Ok(_) => {
                    gui_state.selection_anchor = None;
                    gui_state.selection_focus = None;
                },
                Err(error) => {
                    proof {
                        lemma_typed_each_stops(
                            a,
                            characters@,
                            i + 1,
                            characters@.len() as int,
                        );
                    }
                    return Err(error);
                },
            }
        }
        i += 1;
    }
    Ok(())
}

} // verus!

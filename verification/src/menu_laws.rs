//! How menus, shortcuts and dialogs hang together with the commands.

use crate::app::{is_ui_state, next_replaced, searched, selection_bytes, AppModel};
use crate::commands::{clipboard_command_run, command_run, edit_command_run, Command, Surroundings};
use crate::dialog::{
    all_digits, digits_of, digits_value, field_shortened, is_digit, line_number, option_toggled,
    text_entered, DialogModel, FindModel, ReplaceField,
};
use crate::document::{column_after, document_valid};
use crate::edit_laws::{
    between_characters, caret_went_to, lemma_on_line, lemma_start_between_characters, on_line,
};
use crate::app_laws::law_caret_can_stand_between_characters;
use crate::gui::GuiModel;
use crate::input::Key;
use crate::keys::{item_command, key_command, row_command, shortcuts};
use crate::menu::{
    app_flags, heading_at, row_at, row_hit, row_top, rows_bottom, title_width, title_x, MenuRow,
    RowModel, MENU_COUNT, MENU_ITEM_HEIGHT,
};
use crate::ruler::RulerModel;
use crate::text::{decimal, lemma_boundary};
use crate::ui::{edit_menu_model, status_texts, title_text, NotepadUiState};
use crate::windows::{
    dialog_accepted, dialog_keyed, everything_replaced, find_keyed, find_run, DialogInput,
    FindInput,
};
use vstd::prelude::*;
use vstd::utf8::*;

verus! {

// ---------------------------------------------------------------------------
// Shortcuts and menu items
// ---------------------------------------------------------------------------

proof fn lemma_one_key(key: Key)
    ensures
        forall|other: Key| #[trigger] seq![key].contains(other) == (other == key),
        forall|other: Key| !(#[trigger] Seq::<Key>::empty().contains(other)),
{
    assert(seq![key][0] == key);
}

/// The command of one key pressed together with the command key.
pub open spec fn shortcut_is(key: Key, shift: bool, command: Command) -> bool {
    forall|word_wrap: bool|
        !word_wrap || key != Key::G ==> #[trigger] shortcuts(
            seq![key],
            Seq::empty(),
            shift,
            word_wrap,
        ) == seq![command]
}

proof fn lemma_shortcut(key: Key, shift: bool, command: Command)
    requires
        ({
            ||| key == Key::N && !shift && command == Command::New
            ||| key == Key::N && shift && command == Command::NewWindow
            ||| key == Key::O && command == Command::Open
            ||| key == Key::S && !shift && command == Command::Save
            ||| key == Key::S && shift && command == Command::SaveAs
            ||| key == Key::P && command == Command::Print
            ||| key == Key::F && command == Command::Find
            ||| key == Key::H && command == Command::Replace
            ||| key == Key::G && command == Command::GoTo
            ||| key == Key::E && command == Command::SearchWithBing
            ||| key == Key::A && command == Command::SelectAll
            ||| key == Key::X && command == Command::Cut
            ||| key == Key::C && command == Command::Copy
            ||| key == Key::V && command == Command::Paste
            ||| key == Key::Z && command == Command::Undo
        }),
    ensures
        shortcut_is(key, shift, command),
{
    lemma_one_key(key);
    reveal(crate::keys::when);
    assert forall|word_wrap: bool| !word_wrap || key != Key::G implies #[trigger] shortcuts(
        seq![key],
        Seq::empty(),
        shift,
        word_wrap,
    ) == seq![command] by {
        assert(shortcuts(seq![key], Seq::empty(), shift, word_wrap) =~= seq![command]);
    }
}

/// A label of the Edit menu and the key next to it stand for the same command,
/// and so do those of the File menu.
pub proof fn law_menu_items_and_shortcuts_agree()
    ensures
        item_command(1, "Undo"@) == Some(Command::Undo) && shortcut_is(
            Key::Z,
            false,
            Command::Undo,
        ),
        item_command(1, "Cut"@) == Some(Command::Cut) && shortcut_is(Key::X, false, Command::Cut),
        item_command(1, "Copy"@) == Some(Command::Copy) && shortcut_is(
            Key::C,
            false,
            Command::Copy,
        ),
        item_command(1, "Paste"@) == Some(Command::Paste) && shortcut_is(
            Key::V,
            false,
            Command::Paste,
        ),
        item_command(1, "Delete"@) == Some(Command::Delete) && key_command(Key::Delete, false)
            == Some(Command::Delete),
        item_command(1, "Select All"@) == Some(Command::SelectAll) && shortcut_is(
            Key::A,
            false,
            Command::SelectAll,
        ),
        item_command(1, "Time/Date"@) == Some(Command::TimeDate) && key_command(Key::F5, false)
            == Some(Command::TimeDate),
        item_command(1, "Find..."@) == Some(Command::Find) && shortcut_is(
            Key::F,
            false,
            Command::Find,
        ),
        item_command(1, "Find Next"@) == Some(Command::FindNext),
        item_command(1, "Find Previous"@) == Some(Command::FindPrevious),
        item_command(1, "Replace..."@) == Some(Command::Replace) && shortcut_is(
            Key::H,
            false,
            Command::Replace,
        ),
        item_command(1, "Go To..."@) == Some(Command::GoTo) && shortcut_is(
            Key::G,
            false,
            Command::GoTo,
        ),
        item_command(1, "Search with Bing..."@) == Some(Command::SearchWithBing) && shortcut_is(
            Key::E,
            false,
            Command::SearchWithBing,
        ),
        item_command(0, "New"@) == Some(Command::New) && shortcut_is(Key::N, false, Command::New),
        item_command(0, "New Window"@) == Some(Command::NewWindow) && shortcut_is(
            Key::N,
            true,
            Command::NewWindow,
        ),
        item_command(0, "Open..."@) == Some(Command::Open) && shortcut_is(
            Key::O,
            false,
            Command::Open,
        ),
        item_command(0, "Save"@) == Some(Command::Save) && shortcut_is(
            Key::S,
            false,
            Command::Save,
        ),
        item_command(0, "Save As..."@) == Some(Command::SaveAs) && shortcut_is(
            Key::S,
            true,
            Command::SaveAs,
        ),
        item_command(0, "Print..."@) == Some(Command::Print) && shortcut_is(
            Key::P,
            false,
            Command::Print,
        ),
        item_command(0, "Exit"@) == Some(Command::Exit),
{
    lemma_edit_labels();
    lemma_file_labels();
    lemma_shortcut(Key::Z, false, Command::Undo);
    lemma_shortcut(Key::X, false, Command::Cut);
    lemma_shortcut(Key::C, false, Command::Copy);
    lemma_shortcut(Key::V, false, Command::Paste);
    lemma_shortcut(Key::A, false, Command::SelectAll);
    lemma_shortcut(Key::F, false, Command::Find);
    lemma_shortcut(Key::H, false, Command::Replace);
    lemma_shortcut(Key::G, false, Command::GoTo);
    lemma_shortcut(Key::E, false, Command::SearchWithBing);
    lemma_shortcut(Key::N, false, Command::New);
    lemma_shortcut(Key::N, true, Command::NewWindow);
    lemma_shortcut(Key::O, false, Command::Open);
    lemma_shortcut(Key::S, false, Command::Save);
    lemma_shortcut(Key::S, true, Command::SaveAs);
    lemma_shortcut(Key::P, false, Command::Print);
}

proof fn lemma_edit_labels()
    ensures
        item_command(1, "Undo"@) == Some(Command::Undo),
        item_command(1, "Cut"@) == Some(Command::Cut),
        item_command(1, "Copy"@) == Some(Command::Copy),
        item_command(1, "Paste"@) == Some(Command::Paste),
        item_command(1, "Delete"@) == Some(Command::Delete),
        item_command(1, "Select All"@) == Some(Command::SelectAll),
        item_command(1, "Time/Date"@) == Some(Command::TimeDate),
        item_command(1, "Find..."@) == Some(Command::Find),
        item_command(1, "Find Next"@) == Some(Command::FindNext),
        item_command(1, "Find Previous"@) == Some(Command::FindPrevious),
        item_command(1, "Replace..."@) == Some(Command::Replace),
        item_command(1, "Go To..."@) == Some(Command::GoTo),
        item_command(1, "Search with Bing..."@) == Some(Command::SearchWithBing),
{
    reveal_strlit("Undo");
    reveal_strlit("Cut");
    reveal_strlit("Copy");
    reveal_strlit("Paste");
    reveal_strlit("Delete");
    reveal_strlit("Select All");
    reveal_strlit("Time/Date");
    reveal_strlit("Find...");
    reveal_strlit("Find Next");
    reveal_strlit("Find Previous");
    reveal_strlit("Replace...");
    reveal_strlit("Go To...");
    reveal_strlit("Search with Bing...");
    assert("Undo"@.len() == 4);
    assert("Cut"@.len() == 3);
    assert("Copy"@.len() == 4);
    assert("Paste"@.len() == 5);
    assert("Delete"@.len() == 6);
    assert("Select All"@.len() == 10);
    assert("Time/Date"@.len() == 9);
    assert("Find..."@.len() == 7);
    assert("Find Next"@.len() == 9);
    assert("Find Previous"@.len() == 13);
    assert("Replace..."@.len() == 10);
    assert("Go To..."@.len() == 8);
    assert("Search with Bing..."@.len() == 19);
    assert("Undo"@[0] != "Copy"@[0]);
    assert("Time/Date"@[0] != "Find Next"@[0]);
    assert("Select All"@[0] != "Replace..."@[0]);
}

proof fn lemma_file_labels()
    ensures
        item_command(0, "New"@) == Some(Command::New),
        item_command(0, "New Window"@) == Some(Command::NewWindow),
        item_command(0, "Open..."@) == Some(Command::Open),
        item_command(0, "Save"@) == Some(Command::Save),
        item_command(0, "Save As..."@) == Some(Command::SaveAs),
        item_command(0, "Print..."@) == Some(Command::Print),
        item_command(0, "Exit"@) == Some(Command::Exit),
{
    reveal_strlit("New");
    reveal_strlit("New Window");
    reveal_strlit("Open...");
    reveal_strlit("Save");
    reveal_strlit("Save As...");
    reveal_strlit("Print...");
    reveal_strlit("Exit");
    assert("New"@.len() == 3);
    assert("New Window"@.len() == 10);
    assert("Open..."@.len() == 7);
    assert("Save"@.len() == 4);
    assert("Save As..."@.len() == 10);
    assert("Print..."@.len() == 8);
    assert("Exit"@.len() == 4);
    assert("New Window"@[0] != "Save As..."@[0]);
    assert("Save"@[0] != "Exit"@[0]);
}

/// A row that is shown disabled, or that only opens further rows, does nothing.
pub proof fn law_disabled_rows_do_nothing(menu_index: int, row: MenuRow)
    ensures
        !row.enabled || row.has_children ==> row_command(menu_index, row) is None,
        row.enabled && !row.has_children ==> row_command(menu_index, row) is Some,
{
}

/// An item of the Edit menu is disabled only where its command would change
/// nothing.
pub proof fn law_disabled_items_would_change_nothing(
    g: GuiModel,
    a: AppModel,
    around: Surroundings,
)
    requires
        document_valid(a.document),
        between_characters(a.document.bytes, a.caret, a.caret),
        a.selection is None,
    ensures
        ({
            let items = edit_menu_model(app_flags(a));
            &&& items[0].label == "Undo"@
            &&& !items[0].enabled ==> command_run(g, a, Command::Undo, around).app.document
                == a.document
            &&& items[1].label == "Cut"@
            &&& !items[1].enabled
            &&& command_run(g, a, Command::Cut, around).app == a
            &&& items[2].label == "Copy"@
            &&& !items[2].enabled
            &&& command_run(g, a, Command::Copy, around).app == a
            &&& items[4].label == "Delete"@
            &&& !items[4].enabled ==> command_run(g, a, Command::Delete, around).app == a
        }),
{
    reveal(edit_command_run);
    reveal(clipboard_command_run);
    lemma_boundary(a.document.bytes, a.caret);
}

/// With something selected, the items that work on it are enabled.
pub proof fn law_items_on_the_selection_are_enabled(a: AppModel, start: int, end: int)
    requires
        a.selection == Some((start, end)),
        start < end,
    ensures
        ({
            let items = edit_menu_model(app_flags(a));
            &&& items[1].enabled && items[2].enabled && items[4].enabled
            &&& items[0].enabled == (a.document.undo.len() > 0)
            &&& items[10].label == "Go To..."@ && items[10].enabled == !a.settings.word_wrap
        }),
{
}

// ---------------------------------------------------------------------------
// Points on menus
// ---------------------------------------------------------------------------

proof fn lemma_titles_rise(ruler: RulerModel, i: int, j: int)
    requires
        0 <= i < j <= MENU_COUNT,
        title_x(ruler, MENU_COUNT as int) < usize::MAX,
    ensures
        title_x(ruler, i) + title_width(ruler, i) <= title_x(ruler, j),
        title_x(ruler, i) < usize::MAX,
        title_x(ruler, j) < usize::MAX,
{
    lemma_titles_bounded(ruler, j, MENU_COUNT as int);
    lemma_titles_bounded(ruler, i + 1, j);
    lemma_titles_bounded(ruler, i, i + 1);
}

proof fn lemma_titles_bounded(ruler: RulerModel, i: int, j: int)
    requires
        0 <= i <= j,
    ensures
        title_x(ruler, i) <= title_x(ruler, j),
    decreases j - i,
{
    if i < j {
        lemma_titles_bounded(ruler, i, j - 1);
        lemma_title_not_negative(ruler, j - 1);
    }
}

proof fn lemma_title_not_negative(ruler: RulerModel, i: int)
    requires
        0 <= i,
    ensures
        title_width(ruler, i) >= 0,
        0 <= title_x(ruler, i) <= usize::MAX,
    decreases i,
{
    crate::pointer_laws::lemma_measured_not_negative(
        ruler,
        crate::ruler::TextRole::Ui,
        crate::menu::heading(i),
    );
    if i > 0 {
        lemma_title_not_negative(ruler, i - 1);
    }
}

/// A point within the width of a heading is on that heading.
pub proof fn law_point_on_a_heading(ruler: RulerModel, x: int, i: int)
    requires
        0 <= i < MENU_COUNT,
        title_x(ruler, MENU_COUNT as int) < usize::MAX,
        title_x(ruler, i) <= x < title_x(ruler, i) + title_width(ruler, i),
    ensures
        heading_at(ruler, x, 0) == Some(i),
{
    lemma_heading_from(ruler, x, i, 0);
}

proof fn lemma_heading_from(ruler: RulerModel, x: int, i: int, from: int)
    requires
        0 <= from <= i < MENU_COUNT,
        title_x(ruler, MENU_COUNT as int) < usize::MAX,
        title_x(ruler, i) <= x < title_x(ruler, i) + title_width(ruler, i),
    ensures
        heading_at(ruler, x, from) == Some(i),
    decreases i - from,
{
    if from < i {
        lemma_titles_rise(ruler, from, i);
        lemma_heading_from(ruler, x, i, from + 1);
    }
}

proof fn lemma_rows_rise(rows: Seq<RowModel>, top: int, i: int, j: int)
    requires
        0 <= i < j <= rows.len(),
        0 <= top,
        rows_bottom(rows, top, rows.len() as int) < usize::MAX,
    ensures
        top <= rows_bottom(rows, top, i),
        row_top(rows, top, i) + MENU_ITEM_HEIGHT <= rows_bottom(rows, top, j),
        rows_bottom(rows, top, i) <= row_top(rows, top, i),
{
    lemma_rows_bounded(rows, top, i + 1, j);
    lemma_rows_bounded(rows, top, j, rows.len() as int);
    lemma_rows_bounded(rows, top, 0, i);
}

proof fn lemma_rows_bounded(rows: Seq<RowModel>, top: int, i: int, j: int)
    requires
        0 <= i <= j <= rows.len(),
        0 <= top,
        rows_bottom(rows, top, rows.len() as int) < usize::MAX,
    ensures
        rows_bottom(rows, top, i) <= rows_bottom(rows, top, j),
        rows_bottom(rows, top, j) < usize::MAX,
{
    lemma_rows_up(rows, top, j, rows.len() as int);
    lemma_rows_up(rows, top, i, j);
}

proof fn lemma_rows_up(rows: Seq<RowModel>, top: int, i: int, j: int)
    requires
        0 <= i <= j <= rows.len(),
        rows_bottom(rows, top, j) < usize::MAX,
    ensures
        rows_bottom(rows, top, i) <= rows_bottom(rows, top, j),
    decreases j - i,
{
    if i < j {
        lemma_rows_up(rows, top, i, j - 1);
    }
}

/// A point on an open menu, within the height of a row, is on that row.
pub proof fn law_point_on_a_menu_row(
    ruler: RulerModel,
    rows: Seq<RowModel>,
    menu_index: int,
    x: int,
    y: int,
    i: int,
)
    requires
        0 <= i < rows.len(),
        rows_bottom(rows, 34, rows.len() as int) < usize::MAX,
        title_x(ruler, menu_index) <= x < title_x(ruler, menu_index) + crate::menu::menu_width(
            ruler,
            rows,
        ),
        row_top(rows, 34, i) <= y < row_top(rows, 34, i) + MENU_ITEM_HEIGHT,
    ensures
        row_hit(ruler, rows, menu_index, x, y) == Some(i),
{
    lemma_rows_rise(rows, 34, i, rows.len() as int);
    lemma_row_from(rows, 34, y, i, 0);
}

proof fn lemma_row_from(rows: Seq<RowModel>, top: int, y: int, i: int, from: int)
    requires
        0 <= from <= i < rows.len(),
        0 <= top,
        rows_bottom(rows, top, rows.len() as int) < usize::MAX,
        row_top(rows, top, i) <= y < row_top(rows, top, i) + MENU_ITEM_HEIGHT,
    ensures
        row_at(rows, top, y, from) == Some(i),
    decreases i - from,
{
    if from < i {
        lemma_rows_rise(rows, top, from, i);
        lemma_rows_rise(rows, top, i, rows.len() as int);
        lemma_row_from(rows, top, y, i, from + 1);
    }
}

// ---------------------------------------------------------------------------
// Going to a line
// ---------------------------------------------------------------------------

/// A number that is written in decimal is read back.
pub proof fn law_written_number_is_read_back(n: int)
    requires
        0 <= n <= usize::MAX,
    ensures
        line_number(decimal(n)) == n,
{
    lemma_decimal(n);
    let text = decimal(n);
    assert(is_digit(text[0]));
}

proof fn lemma_decimal(n: int)
    requires
        0 <= n,
    ensures
        decimal(n).len() > 0,
        all_digits(decimal(n)),
        digits_value(decimal(n)) == n,
    decreases n,
{
    let text = decimal(n);
    if n < 10 {
        assert(text.drop_last() =~= Seq::<char>::empty());
        reveal_with_fuel(digits_value, 2);
    } else {
        lemma_decimal(n / 10);
        let front = decimal(n / 10);
        assert(text.drop_last() =~= front);
        assert forall|i: int| 0 <= i < text.len() implies is_digit(#[trigger] text[i]) by {
            if i < front.len() {
                assert(text[i] == front[i]);
            }
        }
    }
}

/// Accepting a line number in the dialog puts the caret at the start of that line
/// and closes the dialog; where there is no such line, nothing happens and it
/// stays open.
pub proof fn law_going_to_a_line(g: GuiModel, a: AppModel, n: int, command: bool)
    requires
        document_valid(a.document),
        valid_utf8(a.document.bytes),
        0 <= n <= usize::MAX,
    ensures
        ({
            let dialog = DialogModel::GoTo { line: decimal(n), replace_on_input: false };
            let outcome = dialog_accepted(g, a, dialog, command);
            &&& outcome.error is None
            &&& 1 <= n <= a.document.index.starts.len() ==> !outcome.keep_open && caret_went_to(
                a,
                outcome.app,
                a.document.index.starts[n - 1],
            )
            &&& !(1 <= n <= a.document.index.starts.len()) ==> outcome.keep_open && outcome.app == a
        }),
{
    reveal(dialog_accepted);
    law_written_number_is_read_back(n);
    if 1 <= n <= a.document.index.starts.len() {
        lemma_start_between_characters(a.document, n - 1);
        law_caret_can_stand_between_characters(a.document, a.document.index.starts[n - 1]);
    }
}

// ---------------------------------------------------------------------------
// Searching and replacing from windows
// ---------------------------------------------------------------------------

/// The find window searches for what it shows, in the direction that it shows,
/// and remembers what it found.
pub proof fn law_find_window_searches(g: GuiModel, a: AppModel, f: FindModel)
    requires
        f.query.len() > 0,
    ensures
        ({
            let (gui, app) = find_run(g, a, f);
            let found = searched(a, f.query, f.match_case, f.forward, f.wrap_around);
            &&& app == found.0
            &&& found.1 && found.2 is None ==> gui.pending_reveal_selection
                && gui.last_search is Some && (gui.last_search->0).query == f.query && (
            gui.last_search->0).match_case == f.match_case && (gui.last_search->0).wrap_around
                == f.wrap_around
            &&& !found.1 ==> gui == g
        }),
{
    reveal(find_run);
}

/// Escape closes the find window without a search, and Enter searches.
pub proof fn law_keys_of_the_find_window(g: GuiModel, a: AppModel, f: FindModel, input: FindInput)
    ensures
        input.escape ==> find_keyed(g, a, f, input) == (g, a, f, false),
        !input.escape ==> find_keyed(g, a, f, input).3,
        !input.escape && input.enter ==> find_keyed(g, a, f, input).1 == find_run(g, a, f).1,
        !input.escape && !input.enter ==> find_keyed(g, a, f, input).1 == a,
        !input.escape && input.up && !input.down ==> !find_keyed(g, a, f, input).2.forward,
        !input.escape && input.down ==> find_keyed(g, a, f, input).2.forward,
        find_keyed(g, a, f, input).2.match_case == f.match_case,
        find_keyed(g, a, f, input).2.wrap_around == f.wrap_around,
{
}

/// Accepting the dialog for replacing replaces one occurrence, and with the
/// command key all of them; it stays open.
pub proof fn law_replace_dialog_replaces(
    g: GuiModel,
    a: AppModel,
    query: Seq<char>,
    replacement: Seq<char>,
    field: ReplaceField,
    match_case: bool,
)
    ensures
        ({
            let dialog = DialogModel::Replace {
                query,
                replacement,
                active_field: field,
                match_case,
            };
            let one = dialog_accepted(g, a, dialog, false);
            let all = dialog_accepted(g, a, dialog, true);
            &&& one.keep_open && all.keep_open
            &&& one.app == next_replaced(a, query, replacement, match_case).0
            &&& one.error == next_replaced(a, query, replacement, match_case).2
            &&& all.app == everything_replaced(a, query, replacement, match_case).0
            &&& all.error == everything_replaced(a, query, replacement, match_case).1
        }),
{
    reveal(dialog_accepted);
}

/// What is typed into the dialog for replacing is added to the field that is
/// active; Backspace takes the last character away again.
pub proof fn law_typing_into_the_replace_dialog(
    query: Seq<char>,
    replacement: Seq<char>,
    match_case: bool,
    c: char,
)
    ensures
        ({
            let find = DialogModel::Replace {
                query,
                replacement,
                active_field: ReplaceField::Find,
                match_case,
            };
            let put = DialogModel::Replace {
                query,
                replacement,
                active_field: ReplaceField::Replace,
                match_case,
            };
            &&& text_entered(find, seq![c]) == DialogModel::Replace {
                query: query.push(c),
                replacement,
                active_field: ReplaceField::Find,
                match_case,
            }
            &&& text_entered(put, seq![c]) == DialogModel::Replace {
                query,
                replacement: replacement.push(c),
                active_field: ReplaceField::Replace,
                match_case,
            }
            &&& field_shortened(text_entered(find, seq![c])) == find
            &&& field_shortened(text_entered(put, seq![c])) == put
            &&& option_toggled(option_toggled(find)) == find
            &&& option_toggled(find) != find
        }),
{
    assert(query + seq![c] =~= query.push(c));
    assert(replacement + seq![c] =~= replacement.push(c));
    assert(query.push(c).drop_last() =~= query);
    assert(replacement.push(c).drop_last() =~= replacement);
}

/// The first digits that are typed take the place of the line number that is
/// shown; later ones follow. Other characters are not taken.
pub proof fn law_typing_a_line_number(line: Seq<char>, c: char)
    ensures
        ({
            let shown = DialogModel::GoTo { line, replace_on_input: true };
            let begun = DialogModel::GoTo { line, replace_on_input: false };
            &&& 48 <= c as u32 <= 57 ==> text_entered(shown, seq![c]) == DialogModel::GoTo {
                line: seq![c],
                replace_on_input: false,
            } && text_entered(begun, seq![c]) == DialogModel::GoTo {
                line: line.push(c),
                replace_on_input: false,
            }
            &&& !(48 <= c as u32 <= 57) ==> text_entered(shown, seq![c]) == shown && text_entered(
                begun,
                seq![c],
            ) == begun
        }),
{
    assert(seq![c].drop_last() =~= Seq::<char>::empty());
    assert(digits_of(Seq::<char>::empty()) =~= Seq::<char>::empty());
    reveal_with_fuel(digits_of, 2);
    if is_digit(c) {
        assert(digits_of(seq![c]) =~= seq![c]);
        assert(line + seq![c] =~= line.push(c));
    } else {
        assert(digits_of(seq![c]) =~= Seq::<char>::empty());
    }
}

/// Escape closes a dialog and changes nothing.
pub proof fn law_escape_closes_a_dialog(
    g: GuiModel,
    a: AppModel,
    dialog: DialogModel,
    input: DialogInput,
)
    requires
        input.escape,
    ensures
        !dialog_keyed(g, a, dialog, input).keep_open,
        dialog_keyed(g, a, dialog, input).app == a,
        dialog_keyed(g, a, dialog, input).gui == g,
        dialog_keyed(g, a, dialog, input).error is None,
{
}

// ---------------------------------------------------------------------------
// The status bar
// ---------------------------------------------------------------------------

/// The status bar tells the number of the caret's line, counted from one, and the
/// title begins with a star where there are unsaved changes.
pub proof fn law_status_tells_the_line_of_the_caret(
    state: NotepadUiState,
    m: AppModel,
    line: int,
)
    requires
        document_valid(m.document),
        is_ui_state(state, m),
        0 <= m.caret,
        on_line(m.document, line, m.caret),
    ensures
        state.caret_line == line + 1,
        state.dirty == m.document.dirty,
        state.dirty ==> title_text(state).len() > 0 && title_text(state)[0] == '*',
        state.selection_bytes == (match m.selection {
            Some((start, end)) => if start < end {
                end - start
            } else {
                0
            },
            None => 0,
        }),
        state.status_bar_visible ==> status_texts(state).len() == 4,
        !state.status_bar_visible ==> status_texts(state).len() == 0,
{
    lemma_on_line(m.document, line, m.caret);
    reveal_strlit("*");
}

/// The column behind a text without tabs is the number of its characters and one
/// more; a tab leads to the next column behind a multiple of eight.
pub proof fn law_columns_count_characters(text: Seq<char>)
    ensures
        (forall|i: int| 0 <= i < text.len() ==> #[trigger] text[i] != '\t') ==> column_after(text)
            == text.len() + 1,
        column_after(text) >= 1,
        ({
            let column = column_after(text);
            let after = column_after(text.push('\t'));
            &&& (after - 1) % 8 == 0
            &&& column < after <= column + 8
        }),
    decreases text.len(),
{
    assert(text.push('\t').drop_last() =~= text);
    if text.len() > 0 {
        let front = text.drop_last();
        law_columns_count_characters(front);
        if forall|i: int| 0 <= i < text.len() ==> #[trigger] text[i] != '\t' {
            assert(text[text.len() - 1] != '\t');
            assert forall|i: int| 0 <= i < front.len() implies #[trigger] front[i] != '\t' by {
                assert(text[i] != '\t');
            }
        }
    }
    let column = column_after(text);
    assert(column_after(text.push('\t')) == column + (8 - (column - 1) % 8));
    assert((column - 1 + 8 - (column - 1) % 8) % 8 == 0) by (nonlinear_arith)
        requires
            column >= 1,
    ;
}

} // verus!

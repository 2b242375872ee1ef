//! What keys, shortcuts, menu items and typed characters do to the text.

use crate::app::{
    moved_vertically, searched, status_bar_toggled, typed, word_wrap_toggled, zoom_steps, AppModel,
};
use crate::commands::{
    clipboard_command_run, command_run, edit_command_run, file_command_run, move_command_run,
    page_turned, search_command_run, Command, EffectModel, Outcome, Step, Surroundings,
};
use crate::document::{content_end, document_valid, opt_text};
use crate::edit_laws::{
    behind, between_characters, caret_went_to, law_backspace_takes_away_the_previous_character,
    law_delete_takes_away_the_next_character, law_deleting_takes_away_the_selection,
    law_home_and_end_go_to_the_ends_of_the_line, law_left_steps_over_one_character,
    law_right_steps_over_one_character, law_selected_text_is_what_is_selected,
    law_selection_spans_both_ends, law_typing_goes_in_at_the_caret,
    law_typing_replaces_the_selection, lemma_parts, line_is_known, on_line, reads,
    selection_is_gone,
};
use crate::error::ErrorModel;
use crate::gui::{
    caret_followed, content_rows, layout_of, row_of_offset, GuiModel, MIN_HEIGHT, MIN_WIDTH,
};
use crate::input::Key;
use crate::keys::{key_command, plain_commands, text_taken, typed_each};
use crate::text::{lemma_boundary, lemma_encode_concat};
use vstd::prelude::*;
use vstd::utf8::*;

verus! {

/// What a key leads to where the command key is not down.
pub open spec fn key_pressed(
    g: GuiModel,
    a: AppModel,
    key: Key,
    shift: bool,
    around: Surroundings,
) -> Outcome {
    command_run(g, a, key_command(key, shift)->0, around)
}

/// A command has gone through and asks nothing of the world outside.
pub open spec fn went_through(outcome: Outcome) -> bool {
    outcome.error is None && outcome.effect == EffectModel::Nothing
}

// ---------------------------------------------------------------------------
// Keys that edit
// ---------------------------------------------------------------------------

/// The Delete key takes away the character behind the caret, and the Backspace
/// key the one before it.
pub proof fn law_delete_and_backspace_keys(
    g: GuiModel,
    a: AppModel,
    before: Seq<char>,
    c: char,
    after: Seq<char>,
    shift: bool,
    around: Surroundings,
)
    requires
        reads(a, before, seq![c], after),
        a.selection is None,
    ensures
        key_command(Key::Delete, shift) is Some,
        a.caret == behind(before) ==> {
            let outcome = key_pressed(g, a, Key::Delete, shift, around);
            &&& went_through(outcome)
            &&& outcome.app.document.bytes == encode_utf8(before + after)
            &&& outcome.app.caret == behind(before)
        },
        key_command(Key::Backspace, shift) is Some,
        a.caret == behind(before + seq![c]) ==> {
            let outcome = key_pressed(g, a, Key::Backspace, shift, around);
            &&& went_through(outcome)
            &&& outcome.app.document.bytes == encode_utf8(before + after)
            &&& outcome.app.caret == behind(before)
        },
{
    reveal(edit_command_run);
    if a.caret == behind(before) {
        law_delete_takes_away_the_next_character(a, before, c, after);
    }
    if a.caret == behind(before + seq![c]) {
        law_backspace_takes_away_the_previous_character(a, before, c, after);
    }
}

/// Where something is selected, both keys take that away.
pub proof fn law_delete_and_backspace_keys_take_away_the_selection(
    g: GuiModel,
    a: AppModel,
    start: int,
    end: int,
    shift: bool,
    around: Surroundings,
)
    requires
        a.selection == Some((start, end)),
        between_characters(a.document.bytes, start, end),
    ensures
        went_through(key_pressed(g, a, Key::Delete, shift, around)),
        selection_is_gone(a, key_pressed(g, a, Key::Delete, shift, around).app, start, end),
        went_through(key_pressed(g, a, Key::Backspace, shift, around)),
        selection_is_gone(a, key_pressed(g, a, Key::Backspace, shift, around).app, start, end),
{
    reveal(edit_command_run);
    law_deleting_takes_away_the_selection(a, start, end);
}

/// `put_in` has been put in the place of the selection, or in at the caret.
pub open spec fn put_in_place(a: AppModel, after: AppModel, put_in: Seq<u8>) -> bool {
    let (start, end) = match a.selection {
        Some(range) => range,
        None => (a.caret, a.caret),
    };
    &&& after.document.bytes == a.document.bytes.take(start) + put_in + a.document.bytes.skip(end)
    &&& after.caret == start + put_in.len()
    &&& after.selection is None
    &&& after.settings == a.settings
}

/// There is a place to type at: the selection or the caret, between characters.
pub open spec fn can_type(a: AppModel) -> bool {
    match a.selection {
        Some((start, end)) => between_characters(a.document.bytes, start, end),
        None => between_characters(a.document.bytes, a.caret, a.caret),
    }
}

pub proof fn lemma_typing_puts_in_place(a: AppModel, text: Seq<char>)
    requires
        can_type(a),
    ensures
        typed(a, text).1 is None,
        put_in_place(a, typed(a, text).0, encode_utf8(text)),
        typed(a, text).0.clipboard_has_text == a.clipboard_has_text,
{
    match a.selection {
        Some((start, end)) => law_typing_replaces_the_selection(a, start, end, text),
        None => law_typing_goes_in_at_the_caret(a, text),
    }
}

/// Enter types a line feed, and Tab a tab.
pub proof fn law_enter_and_tab_keys(g: GuiModel, a: AppModel, shift: bool, around: Surroundings)
    requires
        can_type(a),
    ensures
        went_through(key_pressed(g, a, Key::Enter, shift, around)),
        put_in_place(a, key_pressed(g, a, Key::Enter, shift, around).app, seq![10u8]),
        went_through(key_pressed(g, a, Key::NumPadEnter, shift, around)),
        put_in_place(a, key_pressed(g, a, Key::NumPadEnter, shift, around).app, seq![10u8]),
        went_through(key_pressed(g, a, Key::Tab, shift, around)),
        put_in_place(a, key_pressed(g, a, Key::Tab, shift, around).app, seq![9u8]),
{
    reveal(edit_command_run);
    reveal_strlit("\n");
    reveal_strlit("\t");
    assert("\n"@ =~= seq!['\n']);
    assert("\t"@ =~= seq!['\t']);
    crate::text::lemma_encode_one('\n');
    crate::text::lemma_encode_one('\t');
    assert(leading_byte_width_1(10u32) == 10u8) by (bit_vector);
    assert(leading_byte_width_1(9u32) == 9u8) by (bit_vector);
    assert(encode_utf8("\n"@) =~= seq![10u8]);
    assert(encode_utf8("\t"@) =~= seq![9u8]);
    lemma_typing_puts_in_place(a, "\n"@);
    lemma_typing_puts_in_place(a, "\t"@);
}

// ---------------------------------------------------------------------------
// Keys that move
// ---------------------------------------------------------------------------

/// The caret has moved to `offset`: without shift nothing is selected, and with
/// shift what lies between there and where the selection began.
pub open spec fn caret_key_moved(
    g: GuiModel,
    a: AppModel,
    outcome: Outcome,
    shift: bool,
    offset: int,
) -> bool {
    let anchor = match g.selection_anchor {
        Some(anchor) => anchor as int,
        None => a.caret,
    };
    &&& went_through(outcome)
    &&& outcome.app.document == a.document
    &&& outcome.app.settings == a.settings
    &&& outcome.app.caret == offset
    &&& !shift ==> outcome.app.selection is None && outcome.gui.selection_anchor is None
    &&& shift ==> outcome.gui.selection_anchor == Some(anchor as usize)
    &&& shift && anchor == offset ==> outcome.app.selection is None
    &&& shift && anchor < offset ==> outcome.app.selection == Some((anchor, offset))
    &&& shift && offset < anchor ==> outcome.app.selection == Some((offset, anchor))
}

/// Where the selection began, there is a place between characters.
pub open spec fn anchor_in_text(g: GuiModel, a: AppModel) -> bool {
    g.selection_anchor matches Some(anchor) ==> between_characters(
        a.document.bytes,
        anchor as int,
        anchor as int,
    )
}

proof fn lemma_caret_moved(
    g: GuiModel,
    a: AppModel,
    command: Command,
    extend: bool,
    offset: int,
)
    requires
        document_valid(a.document),
        anchor_in_text(g, a),
        between_characters(a.document.bytes, a.caret, a.caret),
        between_characters(a.document.bytes, offset, offset),
        crate::commands::step_of(command, a).1 is None,
        caret_went_to(a, crate::commands::step_of(command, a).0, offset),
    ensures
        caret_key_moved(g, a, move_command_run(g, a, command, extend), extend, offset),
{
    reveal(move_command_run);
    let anchor = match g.selection_anchor {
        Some(anchor) => anchor as int,
        None => a.caret,
    };
    let step = crate::commands::step_of(command, a).0;
    law_selection_spans_both_ends(step, anchor, offset);
}

/// The arrows to the left and to the right lead over one character.
pub proof fn law_left_and_right_keys(
    g: GuiModel,
    a: AppModel,
    before: Seq<char>,
    c: char,
    after: Seq<char>,
    shift: bool,
    around: Surroundings,
)
    requires
        document_valid(a.document),
        anchor_in_text(g, a),
        reads(a, before, seq![c], after),
    ensures
        a.caret == behind(before) ==> caret_key_moved(
            g,
            a,
            key_pressed(g, a, Key::Right, shift, around),
            shift,
            behind(before + seq![c]),
        ),
        a.caret == behind(before + seq![c]) ==> caret_key_moved(
            g,
            a,
            key_pressed(g, a, Key::Left, shift, around),
            shift,
            behind(before),
        ),
{
    lemma_parts(before, seq![c], after);
    if a.caret == behind(before) {
        law_right_steps_over_one_character(a, before, c, after);
        lemma_caret_moved(
            g,
            a,
            Command::MoveRight { extend: shift },
            shift,
            behind(before + seq![c]),
        );
    }
    if a.caret == behind(before + seq![c]) {
        law_left_steps_over_one_character(a, before, c, after);
        lemma_caret_moved(g, a, Command::MoveLeft { extend: shift }, shift, behind(before));
    }
}

/// Home leads to the start of the line, and End to the end of its text.
pub proof fn law_home_and_end_keys(
    g: GuiModel,
    a: AppModel,
    line: int,
    shift: bool,
    around: Surroundings,
)
    requires
        document_valid(a.document),
        anchor_in_text(g, a),
        between_characters(a.document.bytes, a.caret, a.caret),
        on_line(a.document, line, a.caret),
        line_is_known(a.document, line),
    ensures
        caret_key_moved(
            g,
            a,
            key_pressed(g, a, Key::Home, shift, around),
            shift,
            a.document.index.starts[line],
        ),
        caret_key_moved(
            g,
            a,
            key_pressed(g, a, Key::End, shift, around),
            shift,
            content_end(a.document, line),
        ),
{
    law_home_and_end_go_to_the_ends_of_the_line(a, line);
    crate::edit_laws::lemma_line_between_characters(a.document, line);
    lemma_boundary(a.document.bytes, a.document.index.starts[line]);
    lemma_boundary(a.document.bytes, content_end(a.document, line));
    lemma_caret_moved(
        g,
        a,
        Command::LineStart { extend: shift },
        shift,
        a.document.index.starts[line],
    );
    lemma_caret_moved(
        g,
        a,
        Command::LineEnd { extend: shift },
        shift,
        content_end(a.document, line),
    );
}

/// The arrows up and down lead where moving up and down leads.
pub proof fn law_up_and_down_keys(g: GuiModel, a: AppModel, shift: bool, around: Surroundings)
    requires
        document_valid(a.document),
        anchor_in_text(g, a),
        between_characters(a.document.bytes, a.caret, a.caret),
    ensures
        ({
            let up = moved_vertically(a, false);
            up.1 is None && caret_went_to(a, up.0, up.0.caret) && between_characters(
                a.document.bytes,
                up.0.caret,
                up.0.caret,
            ) ==> caret_key_moved(
                g,
                a,
                key_pressed(g, a, Key::Up, shift, around),
                shift,
                up.0.caret,
            )
        }),
        ({
            let down = moved_vertically(a, true);
            down.1 is None && caret_went_to(a, down.0, down.0.caret) && between_characters(
                a.document.bytes,
                down.0.caret,
                down.0.caret,
            ) ==> caret_key_moved(
                g,
                a,
                key_pressed(g, a, Key::Down, shift, around),
                shift,
                down.0.caret,
            )
        }),
{
    let up = moved_vertically(a, false);
    let down = moved_vertically(a, true);
    if up.1 is None && caret_went_to(a, up.0, up.0.caret) && between_characters(
        a.document.bytes,
        up.0.caret,
        up.0.caret,
    ) {
        lemma_caret_moved(g, a, Command::MoveUp { extend: shift }, shift, up.0.caret);
    }
    if down.1 is None && caret_went_to(a, down.0, down.0.caret) && between_characters(
        a.document.bytes,
        down.0.caret,
        down.0.caret,
    ) {
        lemma_caret_moved(g, a, Command::MoveDown { extend: shift }, shift, down.0.caret);
    }
}

// ---------------------------------------------------------------------------
// The clipboard
// ---------------------------------------------------------------------------

/// Copying puts what is selected on the clipboard and leaves the text as it is;
/// cutting takes it away besides.
pub proof fn law_copy_and_cut(
    g: GuiModel,
    a: AppModel,
    before: Seq<char>,
    chosen: Seq<char>,
    after: Seq<char>,
    around: Surroundings,
)
    requires
        reads(a, before, chosen, after),
        a.selection == Some((behind(before), behind(before + chosen))),
    ensures
        ({
            let outcome = command_run(g, a, Command::Copy, around);
            &&& outcome.error is None
            &&& outcome.app == a
            &&& outcome.gui.clipboard == chosen
            &&& outcome.effect == EffectModel::WriteClipboard(chosen)
        }),
        ({
            let outcome = command_run(g, a, Command::Cut, around);
            &&& outcome.error is None
            &&& outcome.app.document.bytes == encode_utf8(before + after)
            &&& outcome.app.caret == behind(before)
            &&& outcome.app.selection is None
            &&& outcome.gui.clipboard == chosen
            &&& outcome.effect == EffectModel::WriteClipboard(chosen)
        }),
{
    reveal(clipboard_command_run);
    lemma_parts(before, chosen, after);
    law_selected_text_is_what_is_selected(a, before, chosen, after);
    law_deleting_takes_away_the_selection(a, behind(before), behind(before + chosen));
    lemma_encode_concat(before, after);
}

/// Pasting puts in the text of the system's clipboard or, where that has none,
/// what was copied here; with neither nothing changes.
pub proof fn law_paste(g: GuiModel, a: AppModel, around: Surroundings)
    requires
        can_type(a),
    ensures
        ({
            let outcome = command_run(g, a, Command::Paste, around);
            let system = opt_text(around.clipboard);
            &&& went_through(outcome)
            &&& system is Some && (system->0).len() > 0 ==> put_in_place(
                a,
                outcome.app,
                encode_utf8(system->0),
            )
            &&& (system is None || (system->0).len() == 0) && g.clipboard.len() > 0 ==> put_in_place(
                a,
                outcome.app,
                encode_utf8(g.clipboard),
            )
            &&& (system is None || (system->0).len() == 0) && g.clipboard.len() == 0
                ==> outcome.app == a
        }),
{
    reveal(clipboard_command_run);
    let system = opt_text(around.clipboard);
    lemma_typing_puts_in_place(a, g.clipboard);
    if let Some(text) = system {
        lemma_typing_puts_in_place(a, text);
    }
}

/// What was copied and is pasted over itself leaves the text as it was.
pub proof fn law_pasting_what_was_copied_changes_nothing(
    g: GuiModel,
    a: AppModel,
    before: Seq<char>,
    chosen: Seq<char>,
    after: Seq<char>,
    around: Surroundings,
)
    requires
        reads(a, before, chosen, after),
        a.selection == Some((behind(before), behind(before + chosen))),
        opt_text(around.clipboard) is None,
        chosen.len() > 0,
    ensures
        ({
            let copied = command_run(g, a, Command::Copy, around);
            let pasted = command_run(copied.gui, copied.app, Command::Paste, around);
            &&& went_through(pasted)
            &&& pasted.app.document.bytes == a.document.bytes
            &&& pasted.app.caret == behind(before + chosen)
        }),
{
    lemma_parts(before, chosen, after);
    law_copy_and_cut(g, a, before, chosen, after, around);
    let copied = command_run(g, a, Command::Copy, around);
    law_paste(copied.gui, copied.app, around);
    assert(a.document.bytes.take(behind(before)) + encode_utf8(chosen) + a.document.bytes.skip(
        behind(before + chosen),
    ) =~= a.document.bytes);
}

// ---------------------------------------------------------------------------
// Typed characters
// ---------------------------------------------------------------------------

/// A character that is typed as it is: none that controls.
pub open spec fn writes(c: char) -> bool {
    (c as u32) >= 32 && !(127 <= c as u32 <= 159)
}

/// Characters that are typed one by one go in as they come, in the place of the
/// selection or at the caret.
pub proof fn law_typed_characters_go_in(a: AppModel, characters: Seq<char>, n: int)
    requires
        can_type(a),
        0 < n <= characters.len(),
        forall|i: int| 0 <= i < n ==> writes(#[trigger] characters[i]),
    ensures
        typed_each(a, characters, n).2 is None,
        typed_each(a, characters, n).1,
        put_in_place(a, typed_each(a, characters, n).0, encode_utf8(characters.take(n))),
    decreases n,
{
    let c = characters[n - 1];
    let one = seq![c];
    assert(writes(c));
    assert(characters.take(n) =~= characters.take(n - 1) + one);
    lemma_encode_concat(characters.take(n - 1), one);
    if n == 1 {
        assert(characters.take(1) =~= one);
        reveal_with_fuel(typed_each, 2);
        lemma_typing_puts_in_place(a, one);
    } else {
        law_typed_characters_go_in(a, characters, n - 1);
        let m = typed_each(a, characters, n - 1).0;
        let (start, end) = match a.selection {
            Some(range) => range,
            None => (a.caret, a.caret),
        };
        let front = characters.take(n - 1);
        lemma_behind_typed(a.document.bytes, start, end, front);
        lemma_typing_puts_in_place(m, one);
        let bytes = a.document.bytes;
        let added = encode_utf8(front);
        assert(m.document.bytes.take(m.caret) =~= bytes.take(start) + added);
        assert(m.document.bytes.skip(m.caret) =~= bytes.skip(end));
        assert(bytes.take(start) + added + encode_utf8(one) + bytes.skip(end) =~= bytes.take(start)
            + (added + encode_utf8(one)) + bytes.skip(end));
    }
}

/// Behind what was typed there is a place between characters.
proof fn lemma_behind_typed(bytes: Seq<u8>, start: int, end: int, text: Seq<char>)
    requires
        between_characters(bytes, start, end),
    ensures
        ({
            let new = bytes.take(start) + encode_utf8(text) + bytes.skip(end);
            let at = start + encode_utf8(text).len();
            between_characters(new, at, at)
        }),
{
    lemma_boundary(bytes, start);
    lemma_boundary(bytes, end);
    crate::undo_laws::lemma_splice_is_text(bytes, start, end, text);
    let new = bytes.take(start) + encode_utf8(text) + bytes.skip(end);
    lemma_boundary(new, start + encode_utf8(text).len());
}

/// Control characters are not typed.
pub proof fn law_control_characters_are_not_typed(a: AppModel, characters: Seq<char>, n: int)
    requires
        0 <= n <= characters.len(),
        forall|i: int| 0 <= i < n ==> !writes(#[trigger] characters[i]),
    ensures
        typed_each(a, characters, n) == (a, false, None::<ErrorModel>),
    decreases n,
{
    if n > 0 {
        assert(!writes(characters[n - 1]));
        law_control_characters_are_not_typed(a, characters, n - 1);
    }
}

/// While a dialog or the find window is open, nothing is typed into the text.
pub proof fn law_dialogs_keep_typed_characters(
    g: GuiModel,
    a: AppModel,
    characters: Seq<char>,
    command: bool,
)
    requires
        g.dialog is Some || g.find_window is Some,
    ensures
        text_taken(g, a, characters, command) == (g, a, None::<ErrorModel>),
{
}

// ---------------------------------------------------------------------------
// What commands leave alone
// ---------------------------------------------------------------------------

/// The commands that change the text.
pub open spec fn changes_text(command: Command) -> bool {
    command is Cut || command is Paste || command is Undo || command is Delete || command is TimeDate
        || command is Backspace || command is NewLine || command is Tab || command is New
}

/// No other command does.
pub proof fn law_other_commands_leave_the_text(
    g: GuiModel,
    a: AppModel,
    command: Command,
    around: Surroundings,
)
    requires
        !changes_text(command),
    ensures
        command_run(g, a, command, around).app.document == a.document,
        command_run(g, a, command, around).app.clipboard_has_text == a.clipboard_has_text,
{
    lemma_searching_leaves_the_text(g, a, command);
    lemma_moving_leaves_the_text(g, a, command, true);
    lemma_moving_leaves_the_text(g, a, command, false);
    if command is Copy {
        reveal(clipboard_command_run);
    }
    lemma_files_leave_the_text(g, a, command);
}

proof fn lemma_searching_leaves_the_text(g: GuiModel, a: AppModel, command: Command)
    ensures
        search_command_run(g, a, command).app.document == a.document,
        search_command_run(g, a, command).app.clipboard_has_text == a.clipboard_has_text,
{
    reveal(search_command_run);
}

proof fn lemma_moving_leaves_the_text(g: GuiModel, a: AppModel, command: Command, extend: bool)
    ensures
        move_command_run(g, a, command, extend).app.document == a.document,
        move_command_run(g, a, command, extend).app.clipboard_has_text == a.clipboard_has_text,
{
    reveal(move_command_run);
    let step = crate::commands::step_of(command, a);
    assert(step.0.document == a.document && step.0.clipboard_has_text == a.clipboard_has_text);
}

proof fn lemma_files_leave_the_text(g: GuiModel, a: AppModel, command: Command)
    requires
        !(command is New),
    ensures
        file_command_run(g, a, command).app == a,
{
    reveal(file_command_run);
}


/// A document with unsaved changes is neither left nor replaced: the question
/// about them comes first.
pub proof fn law_unsaved_changes_are_asked_about(
    g: GuiModel,
    a: AppModel,
    around: Surroundings,
)
    requires
        a.document.dirty,
    ensures
        command_run(g, a, Command::New, around).app == a,
        command_run(g, a, Command::Open, around).app == a,
        command_run(g, a, Command::Exit, around).app == a,
        !g.saving ==> command_run(g, a, Command::New, around).effect == EffectModel::Ask(Step::New),
        !g.saving ==> command_run(g, a, Command::Open, around).effect == EffectModel::Ask(Step::Open),
        !g.saving ==> command_run(g, a, Command::Exit, around).effect == EffectModel::Ask(Step::Exit),
        g.saving ==> command_run(g, a, Command::New, around).effect == EffectModel::Nothing,
        g.saving ==> command_run(g, a, Command::Open, around).effect == EffectModel::Nothing,
        g.saving ==> command_run(g, a, Command::Exit, around).effect == EffectModel::Nothing,
{
    reveal(file_command_run);
}

/// Without unsaved changes a new document is empty and has no file, a file is
/// picked to be opened, and the editor is left.
pub proof fn law_without_changes_no_question_is_asked(
    g: GuiModel,
    a: AppModel,
    around: Surroundings,
)
    requires
        !a.document.dirty,
        !g.saving,
    ensures
        ({
            let outcome = command_run(g, a, Command::New, around);
            &&& went_through(outcome)
            &&& outcome.app.document.bytes == Seq::<u8>::empty()
            &&& outcome.app.document.path is None
            &&& !outcome.app.document.dirty
            &&& outcome.app.document.undo.len() == 0
            &&& outcome.app.caret == 0
            &&& outcome.app.selection is None
            &&& outcome.app.settings == a.settings
            &&& outcome.gui.first_visible_line == 0
        }),
        command_run(g, a, Command::Open, around).effect == EffectModel::PickFile,
        command_run(g, a, Command::Exit, around).effect == EffectModel::Quit,
{
    reveal(file_command_run);
}

/// Saving asks for a file where the document has none, and Save As always does.
pub proof fn law_saving_asks_for_a_file(g: GuiModel, a: AppModel, around: Surroundings)
    requires
        !g.saving,
    ensures
        command_run(g, a, Command::Save, around).effect == (if a.document.path is None {
            EffectModel::PickSaveFile
        } else {
            EffectModel::Save
        }),
        command_run(g, a, Command::SaveAs, around).effect == EffectModel::PickSaveFile,
        a.document.path is Some ==> command_run(g, a, Command::Save, around).gui.saving,
{
    reveal(file_command_run);
}

/// Select All selects from the first byte to the last.
pub proof fn law_select_all_command(g: GuiModel, a: AppModel, around: Surroundings)
    ensures
        ({
            let outcome = command_run(g, a, Command::SelectAll, around);
            let len = a.document.bytes.len() as int;
            &&& went_through(outcome)
            &&& outcome.app == (AppModel { caret: len, selection: Some((0int, len)), ..a })
        }),
{
}

/// Undo takes back what was typed last.
pub proof fn law_undo_command_takes_back_typing(
    g: GuiModel,
    a: AppModel,
    text: Seq<char>,
    around: Surroundings,
)
    requires
        document_valid(a.document),
        can_type(a),
        text.len() > 0,
    ensures
        ({
            let outcome = command_run(g, typed(a, text).0, Command::Undo, around);
            &&& went_through(outcome)
            &&& outcome.app.document.bytes == a.document.bytes
            &&& outcome.app.document.dirty == a.document.dirty
        }),
{
    reveal(edit_command_run);
    lemma_typing_puts_in_place(a, text);
    crate::app_laws::law_undo_restores_typing(a, text);
}

/// Searching again goes the way that the key says, with what was searched for
/// last.
pub proof fn law_searching_again(g: GuiModel, a: AppModel, around: Surroundings)
    ensures
        g.last_search is None ==> command_run(g, a, Command::FindNext, around).app == a
            && command_run(g, a, Command::FindPrevious, around).app == a,
        g.last_search matches Some(s) ==> {
            &&& command_run(g, a, Command::FindNext, around).app == searched(
                a,
                s.query,
                s.match_case,
                true,
                s.wrap_around,
            ).0
            &&& command_run(g, a, Command::FindPrevious, around).app == searched(
                a,
                s.query,
                s.match_case,
                false,
                s.wrap_around,
            ).0
        },
        plain_commands(seq![Key::F3], Seq::empty(), false) == seq![Command::FindNext],
        plain_commands(seq![Key::F3], Seq::empty(), true) == seq![Command::FindPrevious],
{
    reveal(search_command_run);
    reveal(crate::keys::when);
    assert(seq![Key::F3][0] == Key::F3);
    assert(plain_commands(seq![Key::F3], Seq::empty(), false) =~= seq![Command::FindNext]);
    assert(plain_commands(seq![Key::F3], Seq::empty(), true) =~= seq![Command::FindPrevious]);
}

// ---------------------------------------------------------------------------
// Settings
// ---------------------------------------------------------------------------

/// Each of the switches turns its setting over and leaves the others.
pub proof fn law_switches_turn_over(g: GuiModel, a: AppModel, around: Surroundings)
    ensures
        ({
            let after = command_run(g, a, Command::WordWrap, around).app;
            &&& after.settings.word_wrap == !a.settings.word_wrap
            &&& after.settings.status_bar_visible == a.settings.status_bar_visible
            &&& after.settings.zoom_percent == a.settings.zoom_percent
            &&& word_wrap_toggled(after) == a
        }),
        ({
            let after = command_run(g, a, Command::StatusBar, around).app;
            &&& after.settings.status_bar_visible == !a.settings.status_bar_visible
            &&& after.settings.word_wrap == a.settings.word_wrap
            &&& after.settings.zoom_percent == a.settings.zoom_percent
            &&& status_bar_toggled(after) == a
        }),
        command_run(g, a, Command::RestoreZoom, around).app.settings.zoom_percent == 100,
{
}

/// Zooming in leads to the next greater step, and zooming out to the next
/// smaller one; at the ends there is none.
pub proof fn law_zoom_goes_by_steps(g: GuiModel, a: AppModel, around: Surroundings)
    requires
        10 <= a.settings.zoom_percent <= 500,
    ensures
        ({
            let now = a.settings.zoom_percent;
            let greater = command_run(g, a, Command::ZoomIn, around).app.settings.zoom_percent;
            let smaller = command_run(g, a, Command::ZoomOut, around).app.settings.zoom_percent;
            &&& zoom_steps().contains(greater)
            &&& zoom_steps().contains(smaller)
            &&& now < 500 ==> now < greater
            &&& now == 500 ==> greater == 500
            &&& 10 < now ==> smaller < now
            &&& now == 10 ==> smaller == 10
            &&& forall|i: int|
                0 <= i < zoom_steps().len() ==> !(now < #[trigger] zoom_steps()[i] < greater)
            &&& forall|i: int|
                0 <= i < zoom_steps().len() ==> !(smaller < #[trigger] zoom_steps()[i] < now)
        }),
{
    let now = a.settings.zoom_percent;
    let steps = zoom_steps();
    assert(steps.len() == 18);
    assert(steps[0] == 10 && steps[17] == 500);
    lemma_step_above(now, 0);
    lemma_step_below(now, 18);
}

proof fn lemma_step_above(now: u16, i: int)
    requires
        0 <= i <= 18,
    ensures
        ({
            let r = crate::app::step_above(now, i);
            &&& zoom_steps().contains(r)
            &&& i < 18 && now < 500 ==> now < r
            &&& now >= 500 ==> r == 500
            &&& forall|k: int| i <= k < 18 ==> !(now < #[trigger] zoom_steps()[k] < r)
        }),
    decreases 18 - i,
{
    let steps = zoom_steps();
    assert(steps.len() == 18);
    assert(steps[17] == 500);
    if i < 18 {
        lemma_steps_rise(i, 17);
        if steps[i] > now {
            assert(steps[i] == crate::app::step_above(now, i));
            assert forall|k: int| i <= k < 18 implies !(now < #[trigger] steps[k] < steps[i]) by {
                lemma_steps_rise(i, k);
            }
        } else {
            lemma_step_above(now, i + 1);
        }
    }
}

proof fn lemma_steps_rise(i: int, k: int)
    requires
        0 <= i <= k < 18,
    ensures
        zoom_steps()[i] <= zoom_steps()[k],
{
}

proof fn lemma_step_below(now: u16, n: int)
    requires
        0 <= n <= 18,
    ensures
        ({
            let r = crate::app::step_below(now, n);
            &&& zoom_steps().contains(r)
            &&& n > 0 && now > 10 ==> r < now
            &&& now <= 10 ==> r == 10
            &&& forall|k: int| 0 <= k < n ==> !(r < #[trigger] zoom_steps()[k] < now)
        }),
    decreases n,
{
    let steps = zoom_steps();
    assert(steps.len() == 18);
    assert(steps[0] == 10);
    if n > 0 {
        lemma_steps_rise(0, n - 1);
        if steps[n - 1] < now {
            assert(steps[n - 1] == crate::app::step_below(now, n));
            assert forall|k: int| 0 <= k < n implies !(steps[n - 1] < #[trigger] steps[k] < now) by {
                lemma_steps_rise(k, n - 1);
            }
        } else {
            lemma_step_below(now, n - 1);
        }
    }
}

// ---------------------------------------------------------------------------
// The view
// ---------------------------------------------------------------------------

/// Page Down and Page Up move the view by as many rows as it shows, as far as
/// there are rows.
pub proof fn law_pages_are_as_long_as_the_view(g: GuiModel, a: AppModel, around: Surroundings)
    requires
        0 <= g.first_visible_line,
        around.width >= MIN_WIDTH,
        around.height >= MIN_HEIGHT,
        g.first_visible_line + around.height <= usize::MAX,
    ensures
        layout_of(a, around.width as int, around.height as int) matches Some(metrics) ==> {
            let visible = metrics.visible_line_count as int;
            let rows = content_rows(g, a, metrics);
            let last = if rows > visible {
                rows - visible
            } else {
                0
            };
            let down = command_run(g, a, Command::PageDown, around);
            let up = command_run(g, a, Command::PageUp, around);
            &&& down.app == a
            &&& up.app == a
            &&& down.gui.first_visible_line == (if g.first_visible_line + visible <= last {
                g.first_visible_line + visible
            } else {
                last
            })
            &&& g.first_visible_line <= last ==> up.gui.first_visible_line == (if visible
                <= g.first_visible_line {
                g.first_visible_line - visible
            } else {
                0
            })
        },
{
    reveal(page_turned);
    crate::scroll::lemma_layout(
        a.settings.status_bar_visible,
        a.settings.word_wrap,
        around.width as int,
        around.height as int,
    );
}

/// After the caret has moved, its row is in view.
pub proof fn law_caret_row_comes_into_view(g: GuiModel, a: AppModel, width: int, height: int)
    requires
        g.last_caret_offset != a.caret,
        !g.pending_reveal_selection,
        0 <= g.first_visible_line,
        0 <= width <= usize::MAX,
        0 <= height <= usize::MAX,
        between_characters(a.document.bytes, a.caret, a.caret),
    ensures
        layout_of(a, width, height) matches Some(metrics) ==> {
            let row = row_of_offset(g, a, metrics, a.caret);
            let after = caret_followed(g, a, width, height);
            let first = after.0.first_visible_line;
            &&& after.2 is None
            &&& after.1 == a
            &&& 0 <= row < content_rows(g, a, metrics) && row <= usize::MAX ==> first <= row < first
                + metrics.visible_line_count
        },
{
    lemma_boundary(a.document.bytes, a.caret);
    crate::scroll::lemma_layout(a.settings.status_bar_visible, a.settings.word_wrap, width, height);
}

} // verus!

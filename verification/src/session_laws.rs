//! What a session looks like from outside: what is opened, what menus, title and
//! status bar tell, what the mouse does besides the text, and how the view
//! follows.

use crate::app::{document_opened, edit_undone, typed, AppModel};
use crate::command_laws::{can_type, lemma_typing_puts_in_place, put_in_place, went_through};
use crate::commands::{
    command_run, edit_command_run, file_command_run, find_opened, found_again, search_command_run,
    Command, EffectModel, Surroundings,
};
use crate::date_time::{is_moment, time_date_text, two_digits, LocalDateTime};
use crate::document::{
    document_valid, lemma_line_span, opened, opt_text, shown_name, visible_end, visible_start,
    LoadMode, PathModel,
};
use crate::edit_laws::{between_characters, lemma_on_line, line_is_known, on_line};
use crate::encoding::{detected_encoding, TextEncoding};
use crate::dialog::{printable, DialogModel, FindModel, ReplaceField};
use crate::frame::vertical_bar_drawn;
use crate::gui::{
    caret_followed, content_rows, layout_of, row_of_offset, status_note, GuiModel, ScrollDrag,
};
use crate::input::is_control_char;
use crate::jobs::{attempt_noted, bar_texts};
use crate::line_index::{LineEnding, LINE_ENDING_SAMPLE_LIMIT};
use crate::menu::{app_flags, app_rows, heading, heading_at, menu_rows_of, row_hit};
use crate::mouse::{moused, wheeled, MouseInput, WheelInput};
use crate::pointer::{horizontal_extent, horizontal_thumb, on_horizontal_bar, scrollbar_clicked};
use crate::scroll::{law_thumb_stays_on_track, lemma_layout, line_len, longest_line};
use crate::search::{greedy_matches, needle_of};
use crate::search_laws::{
    law_replace_all_leaves_the_rest, law_replace_all_takes_every_occurrence_in_turn, occurs,
    pieced_together,
};
use crate::sketch::Mark;
use crate::text::{decimal, lemma_boundary};
use crate::ui::{
    edit_menu_model, format_menu_model, status_texts, title_text, view_menu_model, ItemModel,
    NotepadUiState,
};
use crate::view_laws::lemma_longest_line;
use crate::window_laws::{last_row_on_top, law_typed_text_fills_the_field};
use crate::windows::{
    dialog_keyed, dialog_window_run, everything_replaced, find_keyed, DialogInput, FindInput,
};
use vstd::prelude::*;
use vstd::utf8::*;

verus! {

// ---------------------------------------------------------------------------
// Opening
// ---------------------------------------------------------------------------

/// A document that is opened is shown from its start: the caret stands before
/// its text and nothing is selected.
pub proof fn law_opened_document_is_seen_from_its_start(
    m: AppModel,
    path: PathModel,
    source: Seq<u8>,
    mode: LoadMode,
    len: u64,
)
    ensures
        ({
            let document = opened(path, source, mode, len);
            let after = document_opened(m, document);
            &&& after.document == document
            &&& after.caret == 0
            &&& after.selection is None
            &&& after.settings == m.settings
            &&& after.clipboard_has_text == m.clipboard_has_text
            &&& document.path == Some(path)
            &&& document.load_mode == mode
            &&& document.original_file_len == len
            &&& !document.dirty
        }),
{
}

/// A file whose line breaks are all line feeds is one of that kind when it is
/// opened, and so is one with carriage returns only.
pub proof fn law_opened_document_has_its_line_breaks(
    path: PathModel,
    text: Seq<char>,
    mode: LoadMode,
    len: u64,
    i: int,
)
    requires
        detected_encoding(encode_utf8(text)) == TextEncoding::Utf8,
        encode_utf8(text).len() <= LINE_ENDING_SAMPLE_LIMIT,
        0 <= i < encode_utf8(text).len(),
    ensures
        ({
            let bytes = encode_utf8(text);
            let document = opened(path, bytes, mode, len);
            &&& (forall|k: int| 0 <= k < bytes.len() ==> #[trigger] bytes[k] != 13u8) && bytes[i]
                == 10u8 ==> document.line_ending == LineEnding::Lf
            &&& (forall|k: int| 0 <= k < bytes.len() ==> #[trigger] bytes[k] != 10u8) && bytes[i]
                == 13u8 ==> document.line_ending == LineEnding::Cr
        }),
{
    let bytes = encode_utf8(text);
    assert(bytes.skip(0) =~= bytes);
    crate::file_laws::law_line_breaks_of_one_kind_are_recognised(bytes);
}

// ---------------------------------------------------------------------------
// Replacing everything
// ---------------------------------------------------------------------------

/// Replace All, as the dialog does it, puts the replacement in the place of the
/// occurrences of the searched text, taken from the front so that none overlaps
/// the one before, and leaves all else.
pub proof fn law_everything_is_replaced(
    a: AppModel,
    query: Seq<char>,
    replacement: Seq<char>,
    match_case: bool,
)
    requires
        valid_utf8(a.document.bytes),
        a.document.bytes.len() <= usize::MAX,
        query.len() > 0,
    ensures
        ({
            let len = encode_utf8(query).len() as int;
            let (after, error) = everything_replaced(a, query, replacement, match_case);
            &&& error is None
            &&& exists|starts: Seq<int>|
                {
                    &&& after.document.bytes == #[trigger] pieced_together(
                        a.document.bytes,
                        starts,
                        len,
                        encode_utf8(replacement),
                        0,
                        0,
                    )
                    &&& forall|k: int|
                        0 <= k < starts.len() ==> occurs(
                            a.document.bytes,
                            query,
                            match_case,
                            #[trigger] starts[k],
                        )
                    &&& forall|k: int, i: int|
                        0 <= k < starts.len() && (if k == 0 {
                            0
                        } else {
                            starts[k - 1] + len
                        }) <= i < #[trigger] starts[k] ==> !#[trigger] occurs(
                            a.document.bytes,
                            query,
                            match_case,
                            i,
                        )
                    &&& forall|i: int|
                        (if starts.len() == 0 {
                            0
                        } else {
                            starts.last() + len
                        }) <= i ==> !#[trigger] occurs(a.document.bytes, query, match_case, i)
                }
        }),
        everything_replaced(a, Seq::empty(), replacement, match_case).0 == a,
{
    let bytes = a.document.bytes;
    let starts = greedy_matches(bytes, needle_of(query, match_case), match_case, 0);
    law_replace_all_leaves_the_rest(a, query, replacement, match_case);
    law_replace_all_takes_every_occurrence_in_turn(bytes, query, match_case);
    crate::search_laws::law_match_is_the_searched_text(bytes, query, match_case, 0);
}

// ---------------------------------------------------------------------------
// Menus, title and status bar
// ---------------------------------------------------------------------------

/// Items of the menus are enabled exactly where there is something for them to
/// work on, and checked exactly where their setting is on.
pub proof fn law_items_tell_what_can_be_done(a: AppModel)
    ensures
        ({
            let flags = app_flags(a);
            let edit = edit_menu_model(flags);
            let selected = a.selection is Some && (a.selection->0).0 < (a.selection->0).1;
            &&& edit[0].label == "Undo"@ && edit[0].enabled == (a.document.undo.len() > 0)
            &&& edit[1].label == "Cut"@ && edit[1].enabled == selected
            &&& edit[2].label == "Copy"@ && edit[2].enabled == selected
            &&& edit[3].label == "Paste"@ && edit[3].enabled == a.clipboard_has_text
            &&& edit[4].label == "Delete"@ && edit[4].enabled == (selected || a.caret
                < a.document.bytes.len())
            &&& edit[5].label == "Search with Bing..."@ && edit[5].enabled == selected
            &&& edit[6].label == "Find..."@ && edit[6].enabled
            &&& edit[7].label == "Find Next"@ && edit[7].enabled
            &&& edit[8].label == "Find Previous"@ && edit[8].enabled
            &&& edit[9].label == "Replace..."@ && edit[9].enabled
            &&& edit[10].label == "Go To..."@ && edit[10].enabled == !a.settings.word_wrap
            &&& edit[11].label == "Select All"@ && edit[11].enabled
            &&& edit[12].label == "Time/Date"@ && edit[12].enabled
            &&& forall|i: int| 0 <= i < edit.len() ==> !(#[trigger] edit[i]).checked
            &&& format_menu_model(flags)[0].label == "Word Wrap"@
            &&& format_menu_model(flags)[0].checked == a.settings.word_wrap
            &&& view_menu_model(flags)[1].label == "Status Bar"@
            &&& view_menu_model(flags)[1].checked == a.settings.status_bar_visible
            &&& !view_menu_model(flags)[0].checked
        }),
{
}

/// The title is the name of the file, behind a star where there are unsaved
/// changes and before the name of the editor.
pub proof fn law_title_names_the_file(state: NotepadUiState)
    ensures
        state.dirty ==> title_text(state) == seq!['*'] + state.file_name@ + " - Notepad"@,
        !state.dirty ==> title_text(state) == state.file_name@ + " - Notepad"@,
{
    reveal_strlit("*");
    reveal_strlit("");
    reveal_strlit(" - ");
    reveal_strlit("Notepad");
    reveal_strlit(" - Notepad");
    let tail = " - "@ + "Notepad"@;
    assert(tail =~= " - Notepad"@);
    assert("*"@ =~= seq!['*']);
    if state.dirty {
        assert(title_text(state) =~= seq!['*'] + state.file_name@ + " - Notepad"@);
    } else {
        assert(title_text(state) =~= state.file_name@ + " - Notepad"@);
    }
}

/// The status bar tells line and column of the caret, the zoom, the line breaks
/// and the encoding, in this order; what is under way or was done last comes
/// before.
pub proof fn law_status_bar_tells_in_order(state: NotepadUiState, g: GuiModel)
    requires
        state.status_bar_visible,
    ensures
        ({
            let texts = status_texts(state);
            &&& texts.len() == 4
            &&& texts[0] == "Ln "@ + decimal(state.caret_line as int) + ", Col "@ + decimal(
                state.caret_column as int,
            )
            &&& texts[1] == decimal(state.zoom_percent as int) + "%"@
            &&& texts[2] == crate::line_index::ending_label(state.line_ending)
            &&& texts[3] == crate::encoding::encoding_label(state.encoding)
            &&& g.printing ==> status_note(g) == Some("Printing..."@)
            &&& !g.printing && g.saving ==> status_note(g) == Some("Saving..."@)
            &&& !g.printing && !g.saving ==> status_note(g) == g.status_message
            &&& status_note(g) is None ==> bar_texts(state, g) == texts
            &&& status_note(g) is Some && (status_note(g)->0).len() > 0 ==> bar_texts(state, g)
                == seq![status_note(g)->0] + texts
        }),
{
}

// ---------------------------------------------------------------------------
// Time and date
// ---------------------------------------------------------------------------

/// The number that two digits of a text spell from place `i` on.
pub open spec fn number_at(text: Seq<char>, i: int) -> int {
    10 * (text[i] as u32 - 48) + (text[i + 1] as u32 - 48)
}

/// A text tells the time, hour before minute, and the date, month before day
/// before year, each with all its digits.
pub open spec fn tells(text: Seq<char>, now: LocalDateTime) -> bool {
    &&& text.len() == 16
    &&& number_at(text, 0) == now.hour
    &&& text[2] == ':'
    &&& number_at(text, 3) == now.minute
    &&& text[5] == ' '
    &&& number_at(text, 6) == now.month
    &&& text[8] == '/'
    &&& number_at(text, 9) == now.day
    &&& text[11] == '/'
    &&& 100 * number_at(text, 12) + number_at(text, 14) == now.year
}

proof fn lemma_digits(n: int)
    requires
        0 <= n,
    ensures
        two_digits(n).len() == 2,
        number_at(two_digits(n), 0) == n % 100,
{
    assert(10 * (n / 10 % 10) + n % 10 == n % 100) by (nonlinear_arith)
        requires
            0 <= n,
    ;
}

proof fn lemma_time_text(now: LocalDateTime)
    requires
        is_moment(now),
        now.year >= 0,
    ensures
        tells(time_date_text(now), now),
{
    let text = time_date_text(now);
    let (h, m) = (two_digits(now.hour as int), two_digits(now.minute as int));
    let (o, d) = (two_digits(now.month as int), two_digits(now.day as int));
    let year = now.year as int;
    let (c, y) = (two_digits(year / 100), two_digits(year));
    lemma_digits(now.hour as int);
    lemma_digits(now.minute as int);
    lemma_digits(now.month as int);
    lemma_digits(now.day as int);
    lemma_digits(year / 100);
    lemma_digits(year);
    assert(text[0] == h[0] && text[1] == h[1] && text[3] == m[0] && text[4] == m[1]);
    assert(text[6] == o[0] && text[7] == o[1] && text[9] == d[0] && text[10] == d[1]);
    assert(text[12] == c[0] && text[13] == c[1] && text[14] == y[0] && text[15] == y[1]);
    assert(year / 100 % 100 == year / 100);
}

/// Time/Date puts in the time and the date.
pub proof fn law_time_and_date_are_put_in(g: GuiModel, a: AppModel, around: Surroundings)
    requires
        can_type(a),
        is_moment(around.now),
        around.now.year >= 0,
    ensures
        went_through(command_run(g, a, Command::TimeDate, around)),
        exists|text: Seq<char>|
            tells(text, around.now) && #[trigger] put_in_place(
                a,
                command_run(g, a, Command::TimeDate, around).app,
                encode_utf8(text),
            ),
{
    reveal(edit_command_run);
    let text = time_date_text(around.now);
    lemma_time_text(around.now);
    lemma_typing_puts_in_place(a, text);
    assert(put_in_place(
        a,
        command_run(g, a, Command::TimeDate, around).app,
        encode_utf8(text),
    ));
}

// ---------------------------------------------------------------------------
// Taking back
// ---------------------------------------------------------------------------

/// After an edit is taken back the caret stays where it is, if the text is that
/// long, and nothing is selected.
pub proof fn law_undo_leaves_the_caret(a: AppModel)
    ensures
        ({
            let (after, error) = edit_undone(a);
            error is None ==> {
                &&& after.selection is None
                &&& after.settings == a.settings
                &&& after.clipboard_has_text == a.clipboard_has_text
                &&& a.caret <= after.document.bytes.len() ==> after.caret == a.caret
                &&& a.caret > after.document.bytes.len() ==> after.caret
                    == after.document.bytes.len()
            }
        }),
        a.document.undo.len() == 0 ==> edit_undone(a).0.document == a.document,
{
}

// ---------------------------------------------------------------------------
// The find window
// ---------------------------------------------------------------------------

/// The find window opens with the options of the last search, forwards; without
/// one, no option is chosen. With nothing selected it opens with what was
/// searched for last.
pub proof fn law_find_window_opens_with_the_last_options(g: GuiModel, a: AppModel)
    requires
        g.find_window is None,
    ensures
        ({
            let opened = find_opened(g, a).find_window;
            &&& opened is Some
            &&& (opened->0).forward
            &&& !(opened->0).mouse_was_down
            &&& g.last_search matches Some(search) ==> (opened->0).match_case == search.match_case
                && (opened->0).wrap_around == search.wrap_around
            &&& g.last_search is None ==> !(opened->0).match_case && !(opened->0).wrap_around
            &&& a.selection is None && g.last_search is Some ==> (opened->0).query
                == (g.last_search->0).query
            &&& a.selection is None && g.last_search is None ==> (opened->0).query.len() == 0
            &&& GuiModel { find_window: None, ..find_opened(g, a) } == g
        }),
{
}

/// Searching again tells whether something was found, and what was found is
/// brought into view.
pub proof fn law_searching_again_tells_what_came_of_it(g: GuiModel, a: AppModel, forward: bool)
    ensures
        ({
            let outcome = found_again(g, a, forward);
            &&& g.last_search is None ==> outcome.app == a && outcome.gui.status_message == Some(
                "No active search"@,
            )
            &&& outcome.gui.last_search == g.last_search
            &&& outcome.error is None && outcome.gui.status_message == Some("Found"@)
                && g.status_message is None ==> outcome.gui.pending_reveal_selection
        }),
{
    reveal_strlit("Found");
    reveal_strlit("Cannot find text");
    reveal_strlit("No active search");
    assert("Found"@.len() != "Cannot find text"@.len());
    assert("Found"@.len() != "No active search"@.len());
}

// ---------------------------------------------------------------------------
// The mouse
// ---------------------------------------------------------------------------

/// A press on a heading opens its menu, and closes it if it is open; nothing
/// else happens.
pub proof fn law_headings_open_and_close(g: GuiModel, a: AppModel, input: MouseInput, i: int)
    requires
        input.down,
        !g.mouse_was_down,
        g.scroll_drag is None,
        !g.mouse_selecting,
        g.dialog is None,
        input.position is Some,
        (input.position->0).1 < 30,
        heading_at(g.ruler, (input.position->0).0 as int, 0) == Some(i),
        0 <= i <= usize::MAX,
    ensures
        ({
            let after = moused(g, a, input);
            &&& after.app == a
            &&& after.chosen is None
            &&& after.error is None
            &&& g.active_menu == Some(i as usize) ==> after.gui.active_menu is None
            &&& g.active_menu != Some(i as usize) ==> after.gui.active_menu == Some(i as usize)
            &&& after.gui == (GuiModel {
                active_menu: after.gui.active_menu,
                mouse_was_down: true,
                ..g
            })
        }),
{
}

/// A press on a row of the open menu chooses that row and closes the menu.
pub proof fn law_rows_are_chosen(g: GuiModel, a: AppModel, input: MouseInput, menu: usize, i: int)
    requires
        input.down,
        !g.mouse_was_down,
        g.scroll_drag is None,
        !g.mouse_selecting,
        g.dialog is None,
        input.position is Some,
        (input.position->0).1 >= 30,
        g.active_menu == Some(menu),
        row_hit(
            g.ruler,
            app_rows(a, menu as int),
            menu as int,
            (input.position->0).0 as int,
            (input.position->0).1 as int,
        ) == Some(i),
    ensures
        ({
            let after = moused(g, a, input);
            &&& after.app == a
            &&& after.error is None
            &&& after.chosen == Some((menu, app_rows(a, menu as int)[i]))
            &&& after.gui.active_menu is None
        }),
{
}

/// A button that is held down does nothing more, unless it drags something, and
/// neither does one that goes down while a dialog is open.
pub proof fn law_held_button_does_nothing(g: GuiModel, a: AppModel, input: MouseInput)
    requires
        input.down,
        g.mouse_was_down || g.dialog is Some,
        g.scroll_drag is None,
        !g.mouse_selecting,
    ensures
        ({
            let after = moused(g, a, input);
            &&& after.app == a
            &&& after.gui == (GuiModel { mouse_was_down: true, ..g })
            &&& after.chosen is None
            &&& after.error is None
        }),
{
}

/// The wheel moves the view sideways by the bytes that it was turned, as far as
/// the longest line in view goes, where lines are not wrapped.
pub proof fn law_wheel_moves_the_view_sideways(
    g: GuiModel,
    a: AppModel,
    input: WheelInput,
    width: int,
    height: int,
    i: int,
)
    requires
        0 <= g.horizontal_offset <= usize::MAX,
        input.lines == 0 || input.shift,
        0 <= g.horizontal_offset + input.bytes <= usize::MAX,
        input.bytes != 0,
        !a.settings.word_wrap,
        layout_of(a, width, height) is Some,
        (layout_of(a, width, height)->0).horizontal_scroll_y is Some,
        0 <= i < (layout_of(a, width, height)->0).visible_line_count,
        g.horizontal_offset + input.bytes <= line_len(a.document, g.first_visible_line + i),
    ensures
        ({
            let after = wheeled(g, a, input, width, height);
            &&& after.horizontal_offset == g.horizontal_offset + input.bytes
            &&& after.first_visible_line == g.first_visible_line
        }),
{
    lemma_longest_line(
        a.document,
        g.first_visible_line,
        (layout_of(a, width, height)->0).visible_line_count as int,
    );
}

// ---------------------------------------------------------------------------
// Following the caret
// ---------------------------------------------------------------------------

/// The view follows the caret no further than it must: it stays where the
/// caret's row is in view, and else the row becomes the first or the last one.
pub proof fn law_view_follows_no_further_than_it_must(
    g: GuiModel,
    a: AppModel,
    width: int,
    height: int,
)
    requires
        g.last_caret_offset != a.caret,
        !g.pending_reveal_selection,
        0 <= g.first_visible_line,
        0 <= width <= usize::MAX,
        0 <= height <= usize::MAX,
        between_characters(a.document.bytes, a.caret, a.caret),
        layout_of(a, width, height) is Some,
        ({
            let metrics = layout_of(a, width, height)->0;
            let row = row_of_offset(g, a, metrics, a.caret);
            &&& 0 <= row < content_rows(g, a, metrics)
            &&& row <= usize::MAX
            &&& g.first_visible_line <= last_row_on_top(g, a, metrics)
        }),
    ensures
        ({
            let metrics = layout_of(a, width, height)->0;
            let visible = metrics.visible_line_count as int;
            let row = row_of_offset(g, a, metrics, a.caret);
            let first = caret_followed(g, a, width, height).0.first_visible_line;
            &&& g.first_visible_line <= row < g.first_visible_line + visible ==> first
                == g.first_visible_line
            &&& row < g.first_visible_line ==> first == row
            &&& row >= g.first_visible_line + visible ==> first + visible == row + 1
        }),
{
    lemma_boundary(a.document.bytes, a.caret);
    lemma_layout(a.settings.status_bar_visible, a.settings.word_wrap, width, height);
}

/// Where lines are not wrapped, the view goes sideways only if what is shown of
/// the caret's line does not reach to the caret, and then as far as the caret.
pub proof fn law_view_follows_the_caret_sideways(
    g: GuiModel,
    a: AppModel,
    width: int,
    height: int,
    line: int,
)
    requires
        document_valid(a.document),
        g.last_caret_offset != a.caret,
        !g.pending_reveal_selection,
        !a.settings.word_wrap,
        0 <= g.first_visible_line,
        0 <= g.horizontal_offset,
        0 <= width <= usize::MAX,
        0 <= height <= usize::MAX,
        between_characters(a.document.bytes, a.caret, a.caret),
        on_line(a.document, line, a.caret),
        line_is_known(a.document, line),
        line < usize::MAX,
        layout_of(a, width, height) is Some,
    ensures
        ({
            let after = caret_followed(g, a, width, height).0;
            let start = visible_start(a.document, line, g.horizontal_offset);
            let end = visible_end(a.document, line, g.horizontal_offset);
            &&& a.caret < start || a.caret > end ==> after.horizontal_offset == a.caret
                - a.document.index.starts[line]
            &&& start <= a.caret <= end ==> after.horizontal_offset <= g.horizontal_offset
            &&& start <= a.caret <= end && g.horizontal_offset <= line_len(a.document, line)
                ==> after.horizontal_offset == g.horizontal_offset
        }),
{
    let metrics = layout_of(a, width, height)->0;
    let visible = metrics.visible_line_count as int;
    lemma_boundary(a.document.bytes, a.caret);
    lemma_on_line(a.document, line, a.caret);
    lemma_line_span(a.document, line);
    lemma_layout(a.settings.status_bar_visible, a.settings.word_wrap, width, height);
    let first = caret_followed(g, a, width, height).0.first_visible_line;
    assert(first <= line < first + visible);
    lemma_longest_line(a.document, first, visible);
    assert(line_len(a.document, first + (line - first)) >= a.caret - a.document.index.starts[line]);
}

// ---------------------------------------------------------------------------
// Rows of menus
// ---------------------------------------------------------------------------

proof fn lemma_menu_rows(items: Seq<ItemModel>, top_menu: Seq<char>, n: int)
    requires
        top_menu != "View"@,
        0 <= n <= items.len(),
    ensures
        menu_rows_of(items, top_menu, n).len() == n,
        forall|i: int|
            0 <= i < n ==> (#[trigger] menu_rows_of(items, top_menu, n)[i]).label == items[i].label
                && menu_rows_of(items, top_menu, n)[i].shortcut == items[i].shortcut
                && menu_rows_of(items, top_menu, n)[i].enabled == items[i].enabled
                && menu_rows_of(items, top_menu, n)[i].checked == items[i].checked
                && menu_rows_of(items, top_menu, n)[i].indent == 0 && !menu_rows_of(
                items,
                top_menu,
                n,
            )[i].has_children && menu_rows_of(items, top_menu, n)[i].separator_before == (i > 0
                && items[i - 1].separator_after),
    decreases n,
{
    if n > 0 {
        lemma_menu_rows(items, top_menu, n - 1);
        let before = menu_rows_of(items, top_menu, n - 1);
        let rows = menu_rows_of(items, top_menu, n);
        assert(rows =~= before.push(rows.last()));
    }
}

/// An open menu without a menu under it has a row for each of its items, in
/// order, with a line before each one behind which a group begins.
pub proof fn law_rows_are_those_of_the_items(items: Seq<ItemModel>, menu_index: int, i: int)
    requires
        0 <= menu_index < 5,
        menu_index != 3,
        0 <= i < items.len(),
    ensures
        ({
            let rows = menu_rows_of(items, heading(menu_index), items.len() as int);
            &&& rows.len() == items.len()
            &&& rows[i].label == items[i].label
            &&& rows[i].shortcut == items[i].shortcut
            &&& rows[i].enabled == items[i].enabled
            &&& rows[i].checked == items[i].checked
            &&& rows[i].indent == 0
            &&& !rows[i].has_children
            &&& rows[i].separator_before == (i > 0 && items[i - 1].separator_after)
        }),
{
    reveal_strlit("File");
    reveal_strlit("Edit");
    reveal_strlit("Format");
    reveal_strlit("View");
    reveal_strlit("Help");
    assert("View"@[0] == 'V');
    assert("File"@[0] == 'F');
    assert("Edit"@[0] == 'E');
    assert("Format"@[0] == 'F');
    assert("Help"@[0] == 'H');
    lemma_menu_rows(items, heading(menu_index), items.len() as int);
}

// ---------------------------------------------------------------------------
// Thumbs
// ---------------------------------------------------------------------------

/// The thumb of the vertical scrollbar is drawn where a press of the mouse takes
/// hold of it, within the width of the scrollbar.
pub proof fn law_thumb_is_drawn_where_it_is(
    s: Seq<Mark>,
    g: GuiModel,
    a: AppModel,
    width: int,
    height: int,
    x: int,
    y: int,
)
    requires
        layout_of(a, width, height) is Some,
        0 <= width <= usize::MAX,
        0 <= height <= usize::MAX,
        0 <= g.first_visible_line,
        ({
            let metrics = layout_of(a, width, height)->0;
            let thumb = vertical_bar_drawn(s, g, a, metrics).last();
            &&& metrics.text_width + 16 <= usize::MAX
            &&& thumb is Fill
            &&& thumb->Fill_x <= x < thumb->Fill_x + thumb->Fill_width
            &&& thumb->Fill_y <= y < thumb->Fill_y + thumb->Fill_height
        }),
    ensures
        ({
            let metrics = layout_of(a, width, height)->0;
            let (after, hit) = scrollbar_clicked(g, a, width, height, x, y);
            &&& metrics.text_width <= x < metrics.text_width + 16
            &&& hit
            &&& after.first_visible_line == g.first_visible_line
            &&& after.scroll_drag == Some(
                ScrollDrag::Vertical {
                    grab_offset: (y - vertical_bar_drawn(s, g, a, metrics).last()->Fill_y) as usize,
                },
            )
        }),
{
    let metrics = layout_of(a, width, height)->0;
    lemma_layout(a.settings.status_bar_visible, a.settings.word_wrap, width, height);
    law_thumb_stays_on_track(
        metrics.text_top as int,
        metrics.text_height as int,
        content_rows(g, a, metrics),
        metrics.visible_line_count as int,
        g.first_visible_line,
    );
}

// ---------------------------------------------------------------------------
// What can be taken back
// ---------------------------------------------------------------------------

/// Each time something is typed there is one edit more to take back, up to a
/// hundred; those before it stay.
pub proof fn law_typing_can_be_taken_back(a: AppModel, text: Seq<char>, i: int)
    requires
        can_type(a),
        text.len() > 0,
        a.document.undo.len() <= 100,
    ensures
        ({
            let before = a.document.undo;
            let after = typed(a, text).0.document.undo;
            &&& before.len() < 100 ==> after.len() == before.len() + 1
            &&& before.len() == 100 ==> after.len() == 100
            &&& before.len() < 100 && 0 <= i < before.len() ==> after[i] == before[i]
            &&& before.len() == 100 && 1 <= i < before.len() ==> after[i - 1] == before[i]
            &&& after.last().generation == a.document.generation
        }),
{
    lemma_typing_puts_in_place(a, text);
}

// ---------------------------------------------------------------------------
// Characters for windows
// ---------------------------------------------------------------------------

/// What windows take of typed characters is all of them but control characters,
/// in order.
pub proof fn law_control_characters_are_left_out(characters: Seq<char>)
    ensures
        printable(characters) == characters.filter(|c: char| !is_control_char(c)),
    decreases characters.len(),
{
    reveal(Seq::filter);
    if characters.len() > 0 {
        law_control_characters_are_left_out(characters.drop_last());
    }
}

// ---------------------------------------------------------------------------
// Keys of windows
// ---------------------------------------------------------------------------

/// What is typed into the find window comes behind what it holds, without control
/// characters; Backspace takes the last character away first, and pasting puts in
/// the clipboard's text instead.
pub proof fn law_typing_into_the_find_window(
    g: GuiModel,
    a: AppModel,
    f: FindModel,
    input: FindInput,
)
    requires
        !input.escape,
        !input.enter,
    ensures
        ({
            let (gui, app, after, open) = find_keyed(g, a, f, input);
            let kept = if input.backspace && f.query.len() > 0 {
                f.query.drop_last()
            } else {
                f.query
            };
            let system = opt_text(input.clipboard);
            &&& open
            &&& app == a
            &&& !(input.command && input.paste) && input.characters@.len() > 0 ==> after.query
                == kept + input.characters@.filter(|c: char| !is_control_char(c)) && gui == g
            &&& input.command && input.paste && system is Some && (system->0).len() > 0
                ==> after.query == kept + system->0 && gui.clipboard == system->0
            &&& input.command && input.paste && (system is None || (system->0).len() == 0)
                ==> after.query == kept + g.clipboard && gui.clipboard == g.clipboard
            &&& after.mouse_was_down == f.mouse_was_down
        }),
{
    law_control_characters_are_left_out(input.characters@);
}

/// In the dialog for replacing, Backspace takes the last character of the active
/// field away, Tab goes to the other field and Space turns the option over;
/// pasting puts the clipboard's text into the active field.
pub proof fn law_keys_of_the_replace_dialog(
    g: GuiModel,
    a: AppModel,
    query: Seq<char>,
    replacement: Seq<char>,
    match_case: bool,
    input: DialogInput,
)
    requires
        !input.escape,
        !input.enter,
    ensures
        ({
            let dialog = DialogModel::Replace {
                query,
                replacement,
                active_field: ReplaceField::Find,
                match_case,
            };
            let after = dialog_keyed(g, a, dialog, input);
            let system = opt_text(input.clipboard);
            let kept = if input.backspace && query.len() > 0 {
                query.drop_last()
            } else {
                query
            };
            &&& after.keep_open
            &&& after.app == a
            &&& after.error is None
            &&& after.dialog is Replace
            &&& after.dialog->replacement == replacement
            &&& !(input.command && input.paste) ==> {
                &&& after.gui == g
                &&& after.dialog->query == kept
                &&& after.dialog->match_case == (if input.space {
                    !match_case
                } else {
                    match_case
                })
                &&& after.dialog->active_field == (if input.tab {
                    ReplaceField::Replace
                } else {
                    ReplaceField::Find
                })
            }
            &&& input.command && input.paste && system is Some && (system->0).len() > 0
                ==> after.dialog->query == query + system->0 && after.gui.clipboard == system->0
        }),
{
}

/// The dialog for replacing opens with the text that a search would begin with,
/// and nothing to replace it by.
pub proof fn law_replace_dialog_opens_with_the_query(g: GuiModel, a: AppModel, around: Surroundings)
    ensures
        ({
            let outcome = command_run(g, a, Command::Replace, around);
            let dialog = outcome.gui.dialog;
            &&& went_through(outcome)
            &&& outcome.app == a
            &&& dialog is Some && dialog->0 is Replace
            &&& (dialog->0)->replacement.len() == 0
            &&& (dialog->0)->active_field == ReplaceField::Find
            &&& !(dialog->0)->match_case
            &&& a.selection is None && g.last_search is Some ==> (dialog->0)->query
                == (g.last_search->0).query
            &&& a.selection is None && g.last_search is None ==> (dialog->0)->query.len() == 0
        }),
{
    reveal(search_command_run);
}

// ---------------------------------------------------------------------------
// Other commands
// ---------------------------------------------------------------------------

/// After lines are wrapped, or are not any more, the text is shown from its
/// start.
pub proof fn law_wrapping_shows_the_text_from_its_start(
    g: GuiModel,
    a: AppModel,
    around: Surroundings,
)
    ensures
        ({
            let outcome = command_run(g, a, Command::WordWrap, around);
            &&& went_through(outcome)
            &&& outcome.gui.first_visible_line == 0
            &&& outcome.gui.horizontal_offset == 0
            &&& outcome.app.document == a.document
            &&& outcome.app.caret == a.caret
            &&& outcome.app.selection == a.selection
        }),
{
}

/// While a document is being saved it is not saved once more.
pub proof fn law_one_save_at_a_time(g: GuiModel, a: AppModel, around: Surroundings)
    requires
        g.saving,
    ensures
        command_run(g, a, Command::Save, around).effect == EffectModel::Nothing,
        command_run(g, a, Command::Save, around).app == a,
        command_run(g, a, Command::SaveAs, around).effect == EffectModel::Nothing,
        command_run(g, a, Command::SaveAs, around).app == a,
        command_run(g, a, Command::NewWindow, around).effect == EffectModel::OpenWindow,
{
    reveal(file_command_run);
}

/// What was tried outside of the editor is told: what was done, or what went
/// wrong with what was said about it.
pub proof fn law_attempts_are_told(
    g: GuiModel,
    error: Option<Seq<char>>,
    done: Seq<char>,
    failed: Seq<char>,
)
    ensures
        ({
            let after = attempt_noted(g, error, done, failed);
            &&& error is None ==> after.status_message == Some(done)
            &&& error is Some ==> after.status_message == Some(failed + error->0)
            &&& GuiModel { status_message: g.status_message, ..after } == g
        }),
{
}

/// What is typed while the dialog for replacing is open, with no other key and
/// the mouse at rest, ends up in its active field, and the text stays as it is.
pub proof fn law_typed_characters_reach_the_dialog(
    g: GuiModel,
    a: AppModel,
    query: Seq<char>,
    replacement: Seq<char>,
    match_case: bool,
    input: DialogInput,
)
    requires
        g.dialog == Some(
            DialogModel::Replace {
                query,
                replacement,
                active_field: ReplaceField::Find,
                match_case,
            },
        ),
        !input.escape,
        !input.enter,
        !input.backspace,
        !input.tab,
        !input.space,
        !input.command,
        !input.mouse_down,
    ensures
        ({
            let (gui, app, error) = dialog_window_run(g, a, true, input);
            &&& app == a
            &&& error is None
            &&& gui.dialog == Some(
                DialogModel::Replace {
                    query: query + input.characters@.filter(|c: char| !is_control_char(c)),
                    replacement,
                    active_field: ReplaceField::Find,
                    match_case,
                },
            )
        }),
{
    law_typed_text_fills_the_field(query, replacement, match_case, input.characters@);
}

/// A press on the thumb of the horizontal scrollbar takes hold of it and leaves
/// the view; beside it the view moves by what it shows of a line, to the side of
/// the press.
pub proof fn law_horizontal_scrollbar_follows_the_mouse(
    g: GuiModel,
    a: AppModel,
    width: int,
    height: int,
    x: int,
    y: int,
)
    requires
        0 <= g.horizontal_offset,
        0 <= width <= usize::MAX,
        0 <= height <= usize::MAX,
        0 <= x,
        !a.settings.word_wrap,
        layout_of(a, width, height) is Some,
        on_horizontal_bar(layout_of(a, width, height)->0, x, y),
    ensures
        ({
            let metrics = layout_of(a, width, height)->0;
            let (left, len) = horizontal_thumb(g, a, metrics);
            let page = horizontal_extent(g, a, metrics).0;
            let (after, hit) = scrollbar_clicked(g, a, width, height, x, y);
            &&& hit
            &&& after.first_visible_line == g.first_visible_line
            &&& left <= x < left + len ==> after.horizontal_offset == g.horizontal_offset
                && after.scroll_drag == Some(
                ScrollDrag::Horizontal { grab_offset: (x - left) as usize },
            )
            &&& x < left && 0 <= page ==> after.horizontal_offset <= g.horizontal_offset && (
            g.horizontal_offset - after.horizontal_offset >= page || after.horizontal_offset == 0
                || after.horizontal_offset == longest_line(
                a.document,
                g.first_visible_line,
                metrics.visible_line_count as int,
            ))
            &&& x >= left + len && 0 <= page && g.horizontal_offset + page <= usize::MAX
                && g.horizontal_offset + page <= longest_line(
                a.document,
                g.first_visible_line,
                metrics.visible_line_count as int,
            ) ==> after.horizontal_offset == g.horizontal_offset + page
        }),
{
    let metrics = layout_of(a, width, height)->0;
    lemma_layout(a.settings.status_bar_visible, a.settings.word_wrap, width, height);
    lemma_longest_line(
        a.document,
        g.first_visible_line,
        metrics.visible_line_count as int,
    );
}

/// A document without a file is called Untitled, and one with a file by the name
/// of that file.
pub proof fn law_documents_are_named_after_their_file(path: PathModel, name: Seq<char>)
    requires
        path.file_name == Some(name),
    ensures
        shown_name(Some(path)) == name,
        shown_name(None) == "Untitled"@,
{
}

} // verus!

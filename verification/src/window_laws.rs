//! What the windows for finding, replacing and going to a line do, and how the
//! view is moved by its scrollbars.

use crate::app::AppModel;
use crate::canvas::{circle_covers, line_covers, outline_covers, rgb, rgba, Rect};
use crate::commands::{
    dialog_opened, find_opened, go_to_opened, print_begun, stepped, web_searched, EffectModel, Step,
};
use crate::dialog::{
    all_entered, field_switched, find_cancel_button_rect, find_down_radio_rect,
    find_match_case_rect, find_next_button_rect, find_up_radio_rect, find_wrap_rect,
    go_to_accept_button_rect, go_to_cancel_button_rect, line_number, option_toggled, text_entered,
    DialogModel, FindModel, ReplaceField,
};
use crate::document::document_valid;
use crate::edit_laws::{
    behind, between_characters, lemma_on_line, law_selected_text_is_what_is_selected, on_line,
    reads,
};
use crate::gui::{content_rows, layout_of, row_of_offset, selection_placed, GuiModel, ScrollDrag};
use crate::input::{is_control_char, key_chars, Key};
use crate::keys::{frame_commands, keys_seen, plain_commands, shortcuts, KeyInput};
use crate::jobs::{print_ended, PrintEnd};
use crate::menu_laws::law_written_number_is_read_back;
use crate::pointer::{
    dragged_to, on_vertical_bar, scroll_dragged, scrollbar_clicked, vertical_thumb,
};
use crate::print::{plain_in_name, plain_name, print_name};
use crate::scroll::{
    editor_layout, law_dragged_thumb_stays_in_content, law_thumb_stays_on_track, lemma_layout,
    EditorMetrics,
};
use crate::text::lemma_boundary;
use crate::web::{escaped, hex_digit, percent_encoded, search_address, unreserved};
use crate::windows::{
    dialog_accepted, dialog_closed, dialog_moused, dialog_window_run, find_moused, find_run,
    find_window_run, DialogInput, FindInput,
};
use vstd::prelude::*;
use vstd::utf8::*;

verus! {

// ---------------------------------------------------------------------------
// The find window
// ---------------------------------------------------------------------------

/// A point lies in a rectangle, its left and upper edge included.
pub open spec fn inside(rect: Rect, x: int, y: int) -> bool {
    rect.x <= x < rect.x + rect.width && rect.y <= y < rect.y + rect.height
}

/// The button has just been pressed at a point.
pub open spec fn pressed_at(down: bool, was_down: bool, mouse: Option<(usize, usize)>, x: int, y: int) -> bool {
    &&& down
    &&& !was_down
    &&& mouse is Some
    &&& (mouse->0).0 == x
    &&& (mouse->0).1 == y
}

/// A press on a box of the find window turns its option over, one on a direction
/// chooses it, Find Next searches and Cancel closes the window. Nothing else is
/// changed.
pub proof fn law_find_window_follows_the_mouse(
    g: GuiModel,
    a: AppModel,
    f: FindModel,
    input: FindInput,
    x: int,
    y: int,
)
    requires
        pressed_at(input.mouse_down, f.mouse_was_down, input.mouse, x, y),
    ensures
        ({
            let now = FindModel { mouse_was_down: true, ..f };
            let after = find_moused(g, a, f, input);
            &&& inside(find_match_case_rect(), x, y) ==> after == (
                g,
                a,
                FindModel { match_case: !f.match_case, ..now },
                true,
            )
            &&& inside(find_wrap_rect(), x, y) ==> after == (
                g,
                a,
                FindModel { wrap_around: !f.wrap_around, ..now },
                true,
            )
            &&& inside(find_up_radio_rect(), x, y) ==> after == (
                g,
                a,
                FindModel { forward: false, ..now },
                true,
            )
            &&& inside(find_down_radio_rect(), x, y) ==> after == (
                g,
                a,
                FindModel { forward: true, ..now },
                true,
            )
            &&& inside(find_cancel_button_rect(), x, y) ==> after == (g, a, now, false)
            &&& inside(find_next_button_rect(), x, y) ==> after.3 && after.2 == now && (
                after.0,
                after.1,
            ) == find_run(g, a, now)
        }),
{
}

/// The mouse does nothing in the find window while its button is not down, or has
/// been down before, or away from all that the window shows.
pub proof fn law_find_window_heeds_presses_only(
    g: GuiModel,
    a: AppModel,
    f: FindModel,
    input: FindInput,
)
    requires
        !input.mouse_down || f.mouse_was_down || input.mouse is None,
    ensures
        find_moused(g, a, f, input) == (
            g,
            a,
            FindModel { mouse_was_down: input.mouse_down, ..f },
            true,
        ),
{
}

/// The find window opens with the selected text, or else with what was searched
/// for last; one that is open stays as it is.
pub proof fn law_find_window_opens_with_the_selection(
    g: GuiModel,
    a: AppModel,
    before: Seq<char>,
    chosen: Seq<char>,
    after: Seq<char>,
)
    requires
        reads(a, before, chosen, after),
        a.selection == Some((behind(before), behind(before + chosen))),
        chosen.len() > 0,
    ensures
        g.find_window is Some ==> find_opened(g, a) == g,
        g.find_window is None ==> find_opened(g, a).find_window is Some && (find_opened(
            g,
            a,
        ).find_window->0).query == chosen && (find_opened(g, a).find_window->0).forward,
{
    law_selected_text_is_what_is_selected(a, before, chosen, after);
}

// ---------------------------------------------------------------------------
// Dialogs
// ---------------------------------------------------------------------------

/// In the dialog for going to a line a press on Go To does what Enter does, and
/// one on Cancel closes it without a change; elsewhere it stays open.
pub proof fn law_go_to_dialog_follows_the_mouse(
    g: GuiModel,
    a: AppModel,
    dialog: DialogModel,
    input: DialogInput,
    x: int,
    y: int,
)
    requires
        pressed_at(input.mouse_down, g.dialog_mouse_was_down, input.mouse, x, y),
        dialog is GoTo,
    ensures
        ({
            let now = GuiModel { dialog_mouse_was_down: true, ..g };
            let after = dialog_moused(g, a, dialog, input);
            &&& inside(go_to_accept_button_rect(), x, y) ==> after == dialog_accepted(
                now,
                a,
                dialog,
                false,
            )
            &&& !inside(go_to_accept_button_rect(), x, y) ==> {
                &&& after.app == a
                &&& after.gui == now
                &&& after.dialog == dialog
                &&& after.error is None
                &&& after.keep_open == !inside(go_to_cancel_button_rect(), x, y)
            }
        }),
{
}

/// The dialog for going to a line opens with the number of the caret's line.
pub proof fn law_go_to_dialog_opens_with_the_line(g: GuiModel, a: AppModel, line: int)
    requires
        document_valid(a.document),
        0 <= a.caret,
        on_line(a.document, line, a.caret),
        line < usize::MAX,
    ensures
        ({
            let outcome = go_to_opened(g, a);
            outcome.error is None ==> {
                &&& outcome.app == a
                &&& outcome.gui.dialog is Some
                &&& outcome.gui.dialog->0 is GoTo
                &&& line_number((outcome.gui.dialog->0)->line) == line + 1
            }
        }),
{
    lemma_on_line(a.document, line, a.caret);
    law_written_number_is_read_back(line + 1);
}

/// Tab changes between the two fields for replacing, and twice leads back. What
/// is typed next goes into the field that it led to.
pub proof fn law_tab_changes_the_field(
    query: Seq<char>,
    replacement: Seq<char>,
    field: ReplaceField,
    match_case: bool,
    text: Seq<char>,
)
    ensures
        ({
            let dialog = DialogModel::Replace {
                query,
                replacement,
                active_field: field,
                match_case,
            };
            let typed = text_entered(field_switched(dialog), text);
            &&& field_switched(field_switched(dialog)) == dialog
            &&& field_switched(dialog) != dialog
            &&& typed is Replace
            &&& typed->match_case == match_case
            &&& field == ReplaceField::Find ==> typed->query == query && typed->replacement
                == replacement + text
            &&& field == ReplaceField::Replace ==> typed->query == query + text
                && typed->replacement == replacement
            &&& option_toggled(option_toggled(dialog)) == dialog
            &&& option_toggled(dialog) is Replace
            &&& option_toggled(dialog)->match_case == !match_case
        }),
{
}

/// What is typed into the dialog for replacing ends up behind what the active
/// field held, in order and without control characters.
pub proof fn law_typed_text_fills_the_field(
    query: Seq<char>,
    replacement: Seq<char>,
    match_case: bool,
    typed: Seq<char>,
)
    ensures
        ({
            let kept = typed.filter(|c: char| !is_control_char(c));
            let find = DialogModel::Replace {
                query,
                replacement,
                active_field: ReplaceField::Find,
                match_case,
            };
            let put = DialogModel::Replace {
                query,
                replacement,
                active_field: ReplaceField::Replace,
                match_case,
            };
            &&& all_entered(find, typed) == DialogModel::Replace {
                query: query + kept,
                replacement,
                active_field: ReplaceField::Find,
                match_case,
            }
            &&& all_entered(put, typed) == DialogModel::Replace {
                query,
                replacement: replacement + kept,
                active_field: ReplaceField::Replace,
                match_case,
            }
        }),
    decreases typed.len(),
{
    reveal(Seq::filter);
    let keep = |c: char| !is_control_char(c);
    let kept = typed.filter(keep);
    if typed.len() == 0 {
        assert(query + kept =~= query);
        assert(replacement + kept =~= replacement);
    } else {
        let front = typed.drop_last();
        law_typed_text_fills_the_field(query, replacement, match_case, front);
        let c = typed.last();
        if keep(c) {
            assert(query + front.filter(keep) + seq![c] =~= query + kept);
            assert(replacement + front.filter(keep) + seq![c] =~= replacement + kept);
        }
    }
}

/// News that comes while a dialog is open waits, and comes up when the dialog is
/// closed; it is not lost.
pub proof fn law_news_waits_for_an_open_dialog(
    g: GuiModel,
    open: DialogModel,
    title: Seq<char>,
    message: Seq<char>,
)
    requires
        g.dialog == Some(open),
    ensures
        ({
            let news = DialogModel::Info { title, message };
            let told = dialog_opened(g, news);
            let closed = dialog_closed(told);
            &&& told.dialog == Some(open)
            &&& closed.dialog == Some(news)
            &&& closed.pending_info_dialog is None
        }),
{
}

// ---------------------------------------------------------------------------
// Printing, and leaving the document
// ---------------------------------------------------------------------------

/// Printing is begun unless it is under way, and its end leaves the editor ready
/// to print again. What went wrong is told.
pub proof fn law_one_printing_at_a_time(g: GuiModel, a: AppModel, end: PrintEnd)
    requires
        g.dialog is None,
    ensures
        g.printing ==> print_begun(g, a).effect == EffectModel::Nothing,
        !g.printing ==> print_begun(g, a).effect == EffectModel::Print && print_begun(
            g,
            a,
        ).gui.printing,
        print_begun(g, a).app == a,
        !print_ended(g, end).printing,
        print_begun(print_ended(g, end), a).effect == EffectModel::Print,
        (end is Failed || end is Stopped) <==> print_ended(g, end).dialog is Some,
{
}

/// Once unsaved changes are settled a new document is empty, without a file and
/// without changes, and is shown from its start; the settings stay.
pub proof fn law_new_document_is_empty(g: GuiModel, a: AppModel)
    ensures
        ({
            let outcome = stepped(g, a, Step::New);
            &&& outcome.effect == EffectModel::Nothing
            &&& outcome.error is None
            &&& outcome.app.document.bytes.len() == 0
            &&& outcome.app.document.path is None
            &&& !outcome.app.document.dirty
            &&& outcome.app.document.undo.len() == 0
            &&& outcome.app.caret == 0
            &&& outcome.app.selection is None
            &&& outcome.app.settings == a.settings
            &&& outcome.gui.first_visible_line == 0
            &&& outcome.gui.horizontal_offset == 0
        }),
        stepped(g, a, Step::Open).effect == EffectModel::PickFile,
        stepped(g, a, Step::Open).app == a,
        stepped(g, a, Step::Exit).effect == EffectModel::Quit,
        stepped(g, a, Step::Exit).app == a,
{
}

// ---------------------------------------------------------------------------
// Searching the web
// ---------------------------------------------------------------------------

/// What a hexadecimal digit of an address stands for.
pub open spec fn hex_value(c: char) -> int {
    if 48 <= c as u32 <= 57 {
        c as u32 - 48
    } else {
        c as u32 - 55
    }
}

/// The bytes that a text in an address stands for.
pub open spec fn percent_decoded(text: Seq<char>) -> Seq<u8>
    decreases text.len(),
{
    if text.len() == 0 {
        Seq::empty()
    } else if text[0] == '%' && text.len() >= 3 {
        seq![(hex_value(text[1]) * 16 + hex_value(text[2])) as u8] + percent_decoded(text.skip(3))
    } else {
        seq![text[0] as u8] + percent_decoded(text.skip(1))
    }
}

proof fn lemma_escaped(b: u8, later: Seq<char>)
    ensures
        percent_decoded(escaped(b) + later) == seq![b] + percent_decoded(later),
{
    let text = escaped(b) + later;
    if unreserved(b) {
        assert(text[0] == b as char);
        assert(text.skip(1) =~= later);
    } else {
        let high = b as int / 16;
        let low = b as int % 16;
        assert(text[0] == '%');
        assert(text[1] == hex_digit(high));
        assert(text[2] == hex_digit(low));
        assert(text.skip(3) =~= later);
        assert(hex_value(hex_digit(high)) == high);
        assert(hex_value(hex_digit(low)) == low);
    }
}

proof fn lemma_percent_encoded(bytes: Seq<u8>, later: Seq<char>)
    ensures
        percent_decoded(percent_encoded(bytes) + later) == bytes + percent_decoded(later),
    decreases bytes.len(),
{
    if bytes.len() == 0 {
        assert(percent_encoded(bytes) + later =~= later);
        assert(bytes + percent_decoded(later) =~= percent_decoded(later));
    } else {
        let front = bytes.drop_last();
        let b = bytes.last();
        lemma_percent_encoded(front, escaped(b) + later);
        lemma_escaped(b, later);
        assert(percent_encoded(bytes) + later =~= percent_encoded(front) + (escaped(b) + later));
        assert(front + (seq![b] + percent_decoded(later)) =~= bytes + percent_decoded(later));
    }
}

/// Searching the web asks for the selected text: behind the question of the
/// address stands what the text is written as, and says the same bytes.
pub proof fn law_web_search_asks_for_the_selection(
    g: GuiModel,
    a: AppModel,
    before: Seq<char>,
    chosen: Seq<char>,
    after: Seq<char>,
)
    requires
        reads(a, before, chosen, after),
        a.selection == Some((behind(before), behind(before + chosen))),
        chosen.len() > 0,
    ensures
        ({
            let outcome = web_searched(g, a);
            let question = "https://www.bing.com/search?q="@;
            &&& outcome.app == a
            &&& outcome.gui == g
            &&& outcome.effect is Browse
            &&& outcome.effect->Browse_0.take(question.len() as int) == question
            &&& percent_decoded(outcome.effect->Browse_0.skip(question.len() as int))
                == encode_utf8(chosen)
        }),
{
    law_selected_text_is_what_is_selected(a, before, chosen, after);
    let question = "https://www.bing.com/search?q="@;
    let written = percent_encoded(encode_utf8(chosen));
    let address = search_address(chosen);
    assert(address.take(question.len() as int) =~= question);
    assert(address.skip(question.len() as int) =~= written);
    lemma_percent_encoded(encode_utf8(chosen), Seq::empty());
    assert(written + Seq::<char>::empty() =~= written);
    assert(encode_utf8(chosen) + percent_decoded(Seq::empty()) =~= encode_utf8(chosen));
}

// ---------------------------------------------------------------------------
// Keys
// ---------------------------------------------------------------------------

/// A key that stands for a letter stands for the small one, and with shift for
/// the capital one.
pub proof fn law_shift_gives_capital_letters(key: Key)
    ensures
        key_chars(key) matches Some((plain, shifted)) ==> {
            &&& !(65 <= plain as u32 <= 90)
            &&& 97 <= plain as u32 <= 122 ==> shifted as u32 == plain as u32 - 32
            &&& 32 <= plain as u32 <= 126
            &&& 32 <= shifted as u32 <= 126
        },
{
}

// ---------------------------------------------------------------------------
// Scrollbars
// ---------------------------------------------------------------------------

/// The last row that the view can begin with.
pub open spec fn last_row_on_top(g: GuiModel, a: AppModel, metrics: EditorMetrics) -> int {
    let rows = content_rows(g, a, metrics);
    if rows > metrics.visible_line_count {
        rows - metrics.visible_line_count
    } else {
        0
    }
}

/// A press on the thumb of the vertical scrollbar takes hold of it and leaves the
/// view; above and below the thumb the view moves by as many rows as it shows.
pub proof fn law_vertical_scrollbar_follows_the_mouse(
    g: GuiModel,
    a: AppModel,
    width: int,
    height: int,
    x: int,
    y: int,
)
    requires
        0 <= g.first_visible_line,
        g.first_visible_line + height <= usize::MAX,
        0 <= width <= usize::MAX,
        0 <= height,
        layout_of(a, width, height) is Some,
        on_vertical_bar(layout_of(a, width, height)->0, x, y),
    ensures
        ({
            let metrics = layout_of(a, width, height)->0;
            let visible = metrics.visible_line_count as int;
            let (top, len) = vertical_thumb(g, a, metrics);
            let (after, hit) = scrollbar_clicked(g, a, width, height, x, y);
            let last = last_row_on_top(g, a, metrics);
            &&& hit
            &&& top <= y < top + len ==> after.first_visible_line == g.first_visible_line
                && after.scroll_drag is Some && after.scroll_drag->0 is Vertical
            &&& y < top && g.first_visible_line <= last ==> after.first_visible_line == (if visible
                <= g.first_visible_line {
                g.first_visible_line - visible
            } else {
                0
            })
            &&& y >= top + len ==> after.first_visible_line == (if g.first_visible_line + visible
                <= last {
                g.first_visible_line + visible
            } else {
                last
            })
        }),
{
    lemma_layout(a.settings.status_bar_visible, a.settings.word_wrap, width, height);
}

/// With the thumb of the vertical scrollbar the view goes all the way: to the
/// first row at the upper end of the track and to the last one at its lower end.
/// In between it stays within the text.
pub proof fn law_dragged_thumb_moves_the_view(
    g: GuiModel,
    a: AppModel,
    width: int,
    height: int,
    x: int,
    y: int,
    grab: usize,
)
    requires
        g.scroll_drag == Some(ScrollDrag::Vertical { grab_offset: grab }),
        0 <= g.first_visible_line,
        0 <= width <= usize::MAX,
        0 <= height <= usize::MAX,
        0 <= y,
        layout_of(a, width, height) is Some,
        ({
            let metrics = layout_of(a, width, height)->0;
            &&& content_rows(g, a, metrics) > metrics.visible_line_count
            &&& vertical_thumb(g, a, metrics).1 < metrics.text_height
        }),
    ensures
        ({
            let metrics = layout_of(a, width, height)->0;
            let len = vertical_thumb(g, a, metrics).1;
            let after = scroll_dragged(g, a, width, height, x, y);
            let last = last_row_on_top(g, a, metrics);
            &&& 0 <= after.first_visible_line <= last
            &&& y - grab <= metrics.text_top ==> after.first_visible_line == 0
            &&& y - grab + len >= metrics.editor_bottom ==> after.first_visible_line == last
        }),
{
    let metrics = layout_of(a, width, height)->0;
    let len = vertical_thumb(g, a, metrics).1;
    lemma_layout(a.settings.status_bar_visible, a.settings.word_wrap, width, height);
    law_thumb_stays_on_track(
        metrics.text_top as int,
        metrics.text_height as int,
        content_rows(g, a, metrics),
        metrics.visible_line_count as int,
        g.first_visible_line,
    );
    law_dragged_thumb_stays_in_content(
        metrics.text_top as int,
        metrics.text_height as int,
        len,
        content_rows(g, a, metrics),
        metrics.visible_line_count as int,
        dragged_to(y, grab as int, metrics.text_top as int, metrics.editor_bottom - len),
    );
}

/// A selection that is brought into view has the row in which it ends in view,
/// and in the middle of it unless the text begins or ends too near.
pub proof fn law_selection_comes_into_view(
    g: GuiModel,
    a: AppModel,
    width: int,
    height: int,
    start: int,
    end: int,
)
    requires
        0 <= width <= usize::MAX,
        0 <= height <= usize::MAX,
        layout_of(a, width, height) is Some,
        between_characters(a.document.bytes, start, end),
        ({
            let metrics = layout_of(a, width, height)->0;
            0 <= row_of_offset(g, a, metrics, end) < content_rows(g, a, metrics)
        }),
    ensures
        ({
            let metrics = layout_of(a, width, height)->0;
            let row = row_of_offset(g, a, metrics, end);
            let (after, error) = selection_placed(g, a, metrics, start, end);
            &&& error is None
            &&& after.first_visible_line <= row < after.first_visible_line
                + metrics.visible_line_count
            &&& 0 <= after.first_visible_line <= last_row_on_top(g, a, metrics)
            &&& 0 < after.first_visible_line < last_row_on_top(g, a, metrics) ==> 2 * (row
                - after.first_visible_line) <= metrics.visible_line_count < 2 * (row
                - after.first_visible_line) + 2
        }),
{
    lemma_layout(a.settings.status_bar_visible, a.settings.word_wrap, width, height);
    lemma_boundary(a.document.bytes, start);
    lemma_boundary(a.document.bytes, end);
}

// ---------------------------------------------------------------------------
// The parts of the window
// ---------------------------------------------------------------------------

/// The text lies between the menu bar and the status bar, which is at the bottom
/// where it is to be seen, with a scrollbar to its right and, where lines are not
/// wrapped, one below it. As many rows are shown as there is room for, one at
/// least.
pub proof fn law_window_is_divided(
    status_bar_visible: bool,
    word_wrap: bool,
    width: int,
    height: int,
)
    requires
        16 <= width <= usize::MAX,
        120 <= height <= usize::MAX,
    ensures
        ({
            let layout = editor_layout(status_bar_visible, word_wrap, width, height);
            let bottom = if status_bar_visible {
                height - 31
            } else {
                height - 1
            };
            let end = if word_wrap {
                bottom
            } else {
                bottom - 16
            };
            &&& layout is Some
            &&& (layout->0).text_top == 31
            &&& (layout->0).text_bottom == bottom
            &&& (layout->0).editor_bottom == end
            &&& (layout->0).text_width == width - 16
            &&& (layout->0).horizontal_scroll_y == (if word_wrap {
                None
            } else {
                Some(end as usize)
            })
            &&& (layout->0).visible_line_count >= 1
            &&& 24 * (layout->0).visible_line_count <= end - 31 - 16 || (layout->0).visible_line_count
                == 1
            &&& 24 * ((layout->0).visible_line_count + 1) > end - 31 - 16
        }),
{
}

// ---------------------------------------------------------------------------
// Shapes and colours
// ---------------------------------------------------------------------------

/// A line across covers the pixels from its left end up to its right end, which
/// is left out, and a line down those from its upper end to its lower one; the
/// order of the ends does not matter.
pub proof fn law_lines_cover_their_pixels(x1: int, y1: int, x2: int, y2: int, px: int, py: int)
    ensures
        line_covers(x1, y1, x2, y2, px, py) == line_covers(x2, y2, x1, y1, px, py),
        y1 == y2 && x1 < x2 ==> (line_covers(x1, y1, x2, y2, px, py) <==> py == y1 && x1 <= px < x2),
        x1 == x2 && y1 < y2 ==> (line_covers(x1, y1, x2, y2, px, py) <==> px == x1 && y1 <= py < y2),
        x1 != x2 && y1 != y2 ==> !line_covers(x1, y1, x2, y2, px, py),
{
}

/// The outline of a rectangle covers its four edges and nothing within or around
/// it.
pub proof fn law_outline_is_hollow(x: int, y: int, width: int, height: int, px: int, py: int)
    requires
        width > 0,
        height > 0,
    ensures
        outline_covers(x, y, width, height, px, py) ==> (px == x || px == x + width || py == y || py
            == y + height) && x <= px <= x + width && y <= py <= y + height,
        (px == x || px == x + width) && y <= py < y + height ==> outline_covers(
            x,
            y,
            width,
            height,
            px,
            py,
        ),
        (py == y || py == y + height) && x <= px < x + width ==> outline_covers(
            x,
            y,
            width,
            height,
            px,
            py,
        ),
{
}

/// A circle is the same to the left and right, above and below, and turned by a
/// quarter; it covers the ends of its radius and, if it is not a point, not its
/// centre.
pub proof fn law_circles_are_round(cx: int, cy: int, radius: int, dx: int, dy: int)
    requires
        radius >= 0,
    ensures
        circle_covers(cx, cy, radius, cx + dx, cy + dy) == circle_covers(
            cx,
            cy,
            radius,
            cx - dx,
            cy + dy,
        ),
        circle_covers(cx, cy, radius, cx + dx, cy + dy) == circle_covers(
            cx,
            cy,
            radius,
            cx + dy,
            cy + dx,
        ),
        circle_covers(cx, cy, radius, cx + radius, cy),
        radius > 1 ==> !circle_covers(cx, cy, radius, cx, cy),
        circle_covers(cx, cy, radius, cx + dx, cy + dy) ==> dx * dx + dy * dy <= radius * radius
            + radius,
        circle_covers(cx, cy, radius, cx + dx, cy + dy) ==> dx * dx + dy * dy >= radius * radius
            - radius,
{
    assert((-dx) * (-dx) == dx * dx) by (nonlinear_arith);
    assert(0int * 0int == 0) by (nonlinear_arith);
    if radius > 1 {
        assert(radius * radius - radius > 0) by (nonlinear_arith)
            requires
                radius > 1,
        ;
    }
}

/// A pixel is written as its red, green and blue byte, the greatest first, and
/// in the place that it has among the pixels.
pub proof fn law_pixels_are_written_in_order(pixels: Seq<u32>, i: int)
    requires
        0 <= i < pixels.len(),
    ensures
        rgb(pixels).len() == 3 * pixels.len(),
        rgba(pixels).len() == 4 * pixels.len(),
        rgb(pixels)[3 * i] == pixels[i] / 0x1_0000 % 0x100,
        rgb(pixels)[3 * i + 1] == pixels[i] / 0x100 % 0x100,
        rgb(pixels)[3 * i + 2] == pixels[i] % 0x100,
        rgba(pixels)[4 * i] == rgb(pixels)[3 * i],
        rgba(pixels)[4 * i + 1] == rgb(pixels)[3 * i + 1],
        rgba(pixels)[4 * i + 2] == rgb(pixels)[3 * i + 2],
        rgba(pixels)[4 * i + 3] == 0xff,
    decreases pixels.len(),
{
    let front = pixels.drop_last();
    let p = pixels.last();
    if front.len() > 0 {
        law_pixels_are_written_in_order(front, 0);
    }
    assert(rgb(front).len() == 3 * front.len());
    assert(rgba(front).len() == 4 * front.len());
    if i < front.len() {
        law_pixels_are_written_in_order(front, i);
        assert(front[i] == pixels[i]);
    } else {
        assert(((p >> 16) & 0xff) as u8 == p / 0x1_0000 % 0x100) by (bit_vector);
        assert(((p >> 8) & 0xff) as u8 == p / 0x100 % 0x100) by (bit_vector);
        assert((p & 0xff) as u8 == p % 0x100) by (bit_vector);
    }
}

// ---------------------------------------------------------------------------
// The name of what is printed
// ---------------------------------------------------------------------------

/// The name of a file to print has one character at least and 64 at most, all of
/// them letters, digits, points, hyphens and underscores; a name of such
/// characters that is short enough and is not all underscores is kept.
pub proof fn law_printed_file_has_a_plain_name(name: Seq<char>, i: int)
    requires
        0 <= i < print_name(name).len(),
    ensures
        1 <= print_name(name).len() <= 64,
        ({
            let v = print_name(name)[i] as u32;
            97 <= v <= 122 || 65 <= v <= 90 || 48 <= v <= 57 || v == 46 || v == 45 || v == 95
        }),
        name.len() <= 64 && (forall|k: int| 0 <= k < name.len() ==> plain_in_name(#[trigger] name[k]))
            && (exists|k: int| 0 <= k < name.len() && #[trigger] name[k] != '_') ==> print_name(name)
            == name,
{
    reveal_strlit("Untitled");
    if exists|k: int| 0 <= k < name.len() && #[trigger] name[k] != '_' {
        if name.len() <= 64 && (forall|k: int|
            0 <= k < name.len() ==> plain_in_name(#[trigger] name[k])) {
            assert(plain_name(name) =~= name);
        }
    }
}

// ---------------------------------------------------------------------------
// A frame
// ---------------------------------------------------------------------------

/// A dialog takes all keys; without one, shortcuts count only with the command
/// key, and not while text is on its way or is being composed.
pub proof fn law_keys_reach_what_is_open(
    g: GuiModel,
    a: AppModel,
    keys: KeyInput,
    queue: Seq<char>,
    i: int,
)
    ensures
        g.dialog is Some ==> frame_commands(g, a, keys, queue).len() == 0 && keys_seen(g, keys) == g,
        g.dialog is None && !keys.command ==> frame_commands(g, a, keys, queue) == plain_commands(
            keys.pressed@,
            keys.repeated@,
            keys.shift,
        ),
        g.dialog is None && 0 <= i < queue.len() && !is_control_char(queue[i])
            ==> frame_commands(g, a, keys, queue) == plain_commands(
            keys.pressed@,
            keys.repeated@,
            keys.shift,
        ),
        g.dialog is None && keys.command && queue.len() == 0 && !keys.composing
            && g.editor_ime_composition.len() == 0 ==> frame_commands(g, a, keys, queue)
            == shortcuts(keys.pressed@, keys.repeated@, keys.shift, a.settings.word_wrap),
        g.dialog is None && keys.pressed@.contains(Key::Escape) ==> keys_seen(g, keys).active_menu is None,
        !keys.pressed@.contains(Key::Escape) ==> keys_seen(g, keys) == g,
{
}

/// A find window that was closed is gone and has changed nothing, and one that is
/// left with Escape as well.
pub proof fn law_closed_find_window_is_gone(
    g: GuiModel,
    a: AppModel,
    is_open: bool,
    input: FindInput,
)
    ensures
        g.find_window is None ==> find_window_run(g, a, is_open, input) == (g, a),
        g.find_window is Some && (!is_open || input.escape) ==> find_window_run(
            g,
            a,
            is_open,
            input,
        ) == (GuiModel { find_window: None, ..g }, a),
        g.find_window is Some && is_open && !input.escape && !input.mouse_down
            ==> find_window_run(g, a, is_open, input).0.find_window is Some,
        g.find_window is Some && is_open && !input.escape && !input.enter && !input.mouse_down
            ==> find_window_run(g, a, is_open, input).1 == a,
{
}

/// A dialog that was closed is gone and has changed nothing, and one that is left
/// with Escape as well.
pub proof fn law_closed_dialog_is_gone(
    g: GuiModel,
    a: AppModel,
    is_open: bool,
    input: DialogInput,
)
    requires
        g.pending_info_dialog is None,
    ensures
        g.dialog is None ==> dialog_window_run(g, a, is_open, input) == (
            g,
            a,
            None::<crate::error::ErrorModel>,
        ),
        g.dialog is Some && (!is_open || input.escape) ==> dialog_window_run(g, a, is_open, input)
            == (GuiModel { dialog: None, ..g }, a, None::<crate::error::ErrorModel>),
        g.dialog is Some && is_open && !input.escape && !input.enter && !input.mouse_down
            ==> dialog_window_run(g, a, is_open, input).1 == a && dialog_window_run(
            g,
            a,
            is_open,
            input,
        ).0.dialog is Some,
{
}

} // verus!

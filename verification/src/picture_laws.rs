//! What menus, dialogs and the status bar show, and that it stands where the
//! mouse finds it.

use crate::canvas::Rect;
use crate::dialog::{
    find_cancel_button_rect, find_direction_group_rect, find_down_radio_rect, find_field_rect,
    find_match_case_rect, find_next_button_rect, find_up_radio_rect, find_wrap_rect,
    go_to_accept_button_rect, go_to_cancel_button_rect, go_to_field_rect, DialogModel, FindModel,
    ReplaceField,
};
use crate::draw::{
    button_drawn, button_label, checkbox_drawn, dialog_drawn, field_drawn, find_field_drawn,
    find_window_picture, go_to_button_drawn, go_to_field_drawn, group_drawn, info_drawn,
    lines_drawn, radio_drawn, replace_drawn, shown_query, text_line_end, text_lines,
};
use crate::frame::{cells_drawn, headings_drawn, row_drawn, rows_drawn};
use crate::glyphs::{draws, first_drawing, first_supporting, font_for, supports, white, FontGlyph};
use crate::menu::{
    heading, row_top, rows_bottom, title_width, title_x, RowModel, MENU_COUNT, MENU_ITEM_HEIGHT,
};
use crate::pointer_laws::lemma_measured_not_negative;
use crate::ruler::{fitting, measured, RulerModel, TextRole};
use crate::sketch::{filled, framed, written, Mark, COLOR_DISABLED_TEXT, COLOR_TEXT};
use crate::window_laws::inside;
use vstd::prelude::*;

verus! {

// ---------------------------------------------------------------------------
// Marks that stay
// ---------------------------------------------------------------------------

/// A picture begins with another one: all that was drawn is still there.
spec fn goes_on(before: Seq<Mark>, after: Seq<Mark>) -> bool {
    before.len() <= after.len() && forall|j: int|
        0 <= j < before.len() ==> #[trigger] after[j] == before[j]
}

/// `mark` is a text that begins in a rectangle.
pub open spec fn text_in(mark: Mark, rect: Rect, text: Seq<char>) -> bool {
    mark is Text && mark->text == text && inside(rect, mark->Text_x, mark->Text_y)
}

/// A picture shows a text in a rectangle.
pub open spec fn shows(picture: Seq<Mark>, rect: Rect, text: Seq<char>) -> bool {
    exists|j: int| 0 <= j < picture.len() && text_in(#[trigger] picture[j], rect, text)
}

proof fn lemma_shows(before: Seq<Mark>, after: Seq<Mark>, j: int, rect: Rect, text: Seq<char>)
    requires
        goes_on(before, after),
        0 <= j < before.len(),
        text_in(before[j], rect, text),
    ensures
        shows(after, rect, text),
{
    assert(after[j] == before[j]);
}

proof fn lemma_button(s: Seq<Mark>, ruler: RulerModel, rect: Rect, label: Seq<char>, color: u32)
    requires
        rect.width >= 16,
        rect.height >= 16,
    ensures
        goes_on(s, button_drawn(s, ruler, rect, label, color)),
        text_in(
            button_drawn(s, ruler, rect, label, color).last(),
            rect,
            button_label(ruler, rect, label),
        ),
        button_drawn(s, ruler, rect, label, color).len() > 0,
{
    lemma_measured_not_negative(ruler, TextRole::Find, button_label(ruler, rect, label));
}

proof fn lemma_checkbox(s: Seq<Mark>, rect: Rect, label: Seq<char>, checked: bool)
    requires
        rect.width > 22,
        rect.height >= 16,
    ensures
        goes_on(s, checkbox_drawn(s, rect, label, checked)),
        text_in(checkbox_drawn(s, rect, label, checked).last(), rect, label),
        checkbox_drawn(s, rect, label, checked).len() > 0,
        checkbox_drawn(s, rect, label, checked).len() == s.len() + (if checked {
            8int
        } else {
            6int
        }),
{
}

proof fn lemma_radio(s: Seq<Mark>, rect: Rect, label: Seq<char>, checked: bool)
    requires
        rect.width > 20,
        rect.height >= 16,
    ensures
        goes_on(s, radio_drawn(s, rect, label, checked)),
        text_in(radio_drawn(s, rect, label, checked).last(), rect, label),
        radio_drawn(s, rect, label, checked).len() > 0,
        radio_drawn(s, rect, label, checked).len() == s.len() + (if checked {
            3int
        } else {
            2int
        }),
{
}

// ---------------------------------------------------------------------------
// The find window
// ---------------------------------------------------------------------------

/// The find window shows what is searched for, as far as it fits, and the label
/// of each button, box and choice where a press of the mouse finds it.
pub proof fn law_find_window_shows_its_parts(ruler: RulerModel, view: FindModel)
    ensures
        ({
            let picture = find_window_picture(ruler, view);
            &&& shows(
                picture,
                find_field_rect(),
                fitting(ruler, TextRole::Find, view.query, find_field_rect().width - 12),
            )
            &&& shows(
                picture,
                find_next_button_rect(),
                button_label(ruler, find_next_button_rect(), "Find Next"@),
            )
            &&& shows(
                picture,
                find_cancel_button_rect(),
                button_label(ruler, find_cancel_button_rect(), "Cancel"@),
            )
            &&& shows(picture, find_match_case_rect(), "Match case"@)
            &&& shows(picture, find_wrap_rect(), "Wrap around"@)
            &&& shows(picture, find_up_radio_rect(), "Up"@)
            &&& shows(picture, find_down_radio_rect(), "Down"@)
        }),
{
    let start = written(
        Seq::empty(),
        16,
        crate::draw::middle(find_field_rect(), TextRole::Find),
        "Find what:"@,
        COLOR_TEXT,
        TextRole::Find,
    );
    let field = find_field_drawn(start, ruler, view.query);
    assert(text_in(field[field.len() - 2], find_field_rect(), shown_query(ruler, view.query)));
    let color = if view.query.len() > 0 {
        COLOR_TEXT
    } else {
        COLOR_DISABLED_TEXT
    };
    let next = button_drawn(field, ruler, find_next_button_rect(), "Find Next"@, color);
    lemma_button(field, ruler, find_next_button_rect(), "Find Next"@, color);
    let buttons = button_drawn(next, ruler, find_cancel_button_rect(), "Cancel"@, COLOR_TEXT);
    lemma_button(next, ruler, find_cancel_button_rect(), "Cancel"@, COLOR_TEXT);
    let case = checkbox_drawn(buttons, find_match_case_rect(), "Match case"@, view.match_case);
    lemma_checkbox(buttons, find_match_case_rect(), "Match case"@, view.match_case);
    let options = checkbox_drawn(case, find_wrap_rect(), "Wrap around"@, view.wrap_around);
    lemma_checkbox(case, find_wrap_rect(), "Wrap around"@, view.wrap_around);
    let group = group_drawn(options, ruler, find_direction_group_rect(), "Direction"@);
    assert(goes_on(options, group));
    let up = radio_drawn(group, find_up_radio_rect(), "Up"@, !view.forward);
    lemma_radio(group, find_up_radio_rect(), "Up"@, !view.forward);
    let picture = radio_drawn(up, find_down_radio_rect(), "Down"@, view.forward);
    lemma_radio(up, find_down_radio_rect(), "Down"@, view.forward);
    assert(picture == find_window_picture(ruler, view));
    assert(goes_on(group, picture));
    assert(goes_on(options, picture));
    assert(goes_on(case, picture));
    assert(goes_on(buttons, picture));
    assert(goes_on(next, picture));
    assert(goes_on(field, picture));
    lemma_shows(
        field,
        picture,
        field.len() - 2,
        find_field_rect(),
        shown_query(ruler, view.query),
    );
    lemma_shows(
        next,
        picture,
        next.len() - 1,
        find_next_button_rect(),
        button_label(ruler, find_next_button_rect(), "Find Next"@),
    );
    lemma_shows(
        buttons,
        picture,
        buttons.len() - 1,
        find_cancel_button_rect(),
        button_label(ruler, find_cancel_button_rect(), "Cancel"@),
    );
    lemma_shows(case, picture, case.len() - 1, find_match_case_rect(), "Match case"@);
    lemma_shows(options, picture, options.len() - 1, find_wrap_rect(), "Wrap around"@);
    lemma_shows(up, picture, up.len() - 1, find_up_radio_rect(), "Up"@);
    lemma_shows(picture, picture, picture.len() - 1, find_down_radio_rect(), "Down"@);
}

/// A box of the find window has two strokes more where it is checked.
pub proof fn law_checked_boxes_have_strokes(ruler: RulerModel, view: FindModel)
    ensures
        ({
            let case = FindModel { match_case: true, ..view };
            let no_case = FindModel { match_case: false, ..view };
            let wrap = FindModel { wrap_around: true, ..view };
            let no_wrap = FindModel { wrap_around: false, ..view };
            &&& find_window_picture(ruler, case).len() == find_window_picture(ruler, no_case).len()
                + 2
            &&& find_window_picture(ruler, wrap).len() == find_window_picture(ruler, no_wrap).len()
                + 2
        }),
{
}

// ---------------------------------------------------------------------------
// Dialogs
// ---------------------------------------------------------------------------

/// The dialog for going to a line shows the number, as far as it fits, and its
/// buttons where a press of the mouse finds them.
pub proof fn law_go_to_dialog_shows_its_parts(
    ruler: RulerModel,
    line: Seq<char>,
    selected: bool,
    width: int,
    height: int,
)
    ensures
        ({
            let dialog = DialogModel::GoTo { line, replace_on_input: selected };
            let picture = dialog_drawn(Seq::empty(), ruler, dialog, width, height);
            &&& shows(
                picture,
                go_to_field_rect(),
                fitting(ruler, TextRole::Find, line, go_to_field_rect().width - 12),
            )
            &&& shows(
                picture,
                go_to_accept_button_rect(),
                button_label(ruler, go_to_accept_button_rect(), "Go To"@),
            )
            &&& shows(
                picture,
                go_to_cancel_button_rect(),
                button_label(ruler, go_to_cancel_button_rect(), "Cancel"@),
            )
        }),
{
    let labelled = written(
        Seq::empty(),
        10,
        10,
        "Line number:"@,
        COLOR_TEXT,
        TextRole::Find,
    );
    let shown = fitting(ruler, TextRole::Find, line, go_to_field_rect().width - 12);
    let field = go_to_field_drawn(labelled, ruler, line, selected);
    let at = if selected {
        field.len() - 1
    } else {
        field.len() - 2
    };
    assert(text_in(field[at], go_to_field_rect(), shown));
    let accept = go_to_button_drawn(field, ruler, go_to_accept_button_rect(), "Go To"@, true);
    let rect = go_to_accept_button_rect();
    let bordered = framed(
        field,
        rect.x - 1,
        rect.y - 1,
        rect.width + 2,
        rect.height + 2,
        crate::sketch::COLOR_FOCUS_BORDER,
    );
    assert(goes_on(field, bordered));
    lemma_button(bordered, ruler, rect, "Go To"@, COLOR_TEXT);
    let picture = go_to_button_drawn(accept, ruler, go_to_cancel_button_rect(), "Cancel"@, false);
    lemma_button(accept, ruler, go_to_cancel_button_rect(), "Cancel"@, COLOR_TEXT);
    assert(goes_on(field, picture));
    lemma_shows(field, picture, at, go_to_field_rect(), shown);
    lemma_shows(
        accept,
        picture,
        accept.len() - 1,
        rect,
        button_label(ruler, rect, "Go To"@),
    );
    lemma_shows(
        picture,
        picture,
        picture.len() - 1,
        go_to_cancel_button_rect(),
        button_label(ruler, go_to_cancel_button_rect(), "Cancel"@),
    );
}

/// A text at a place is in the picture.
pub open spec fn writes(picture: Seq<Mark>, x: int, y: int, text: Seq<char>) -> bool {
    exists|j: int|
        0 <= j < picture.len() && (#[trigger] picture[j]) is Text && picture[j]->text == text
            && picture[j]->Text_x == x && picture[j]->Text_y == y
}

proof fn lemma_writes(before: Seq<Mark>, after: Seq<Mark>, x: int, y: int, text: Seq<char>)
    requires
        goes_on(before, after),
        writes(before, x, y, text),
    ensures
        writes(after, x, y, text),
{
    let j = choose|j: int|
        0 <= j < before.len() && (#[trigger] before[j]) is Text && before[j]->text == text
            && before[j]->Text_x == x && before[j]->Text_y == y;
    assert(after[j] == before[j]);
}

proof fn lemma_field(s: Seq<Mark>, x: int, y: int, width: int, text: Seq<char>, active: bool)
    ensures
        goes_on(s, field_drawn(s, x, y, width, text, active)),
        writes(field_drawn(s, x, y, width, text, active), x + 6, y + 6, text),
{
    let drawn = field_drawn(s, x, y, width, text, active);
    assert(drawn[drawn.len() - 1] is Text);
}

/// The dialog for replacing shows the searched text in its upper field and what
/// it is replaced by in the lower one, beside the labels that say so.
pub proof fn law_replace_dialog_shows_its_fields(
    ruler: RulerModel,
    query: Seq<char>,
    replacement: Seq<char>,
    field: ReplaceField,
    match_case: bool,
    width: int,
    height: int,
)
    requires
        470 <= width,
        180 <= height,
    ensures
        ({
            let dialog = DialogModel::Replace {
                query,
                replacement,
                active_field: field,
                match_case,
            };
            let picture = dialog_drawn(Seq::empty(), ruler, dialog, width, height);
            let x = (width - 430) / 2;
            let y = (height - 180) / 2;
            &&& writes(picture, x + 16, y + 42, "Find what:"@)
            &&& writes(picture, x + 118, y + 42, query)
            &&& writes(picture, x + 16, y + 78, "Replace with:"@)
            &&& writes(picture, x + 118, y + 78, replacement)
        }),
{
    let x = (width - 430) / 2;
    let y = (height - 180) / 2;
    let s = framed(
        filled(
            filled(Seq::empty(), x + 4, y + 4, 430, 180, 0x00909090),
            x,
            y,
            430,
            180,
            crate::sketch::COLOR_DROPDOWN,
        ),
        x,
        y,
        430,
        180,
        crate::sketch::COLOR_BORDER,
    );
    let ui = TextRole::Ui;
    let title = written(s, x + 16, y + 12, "Replace"@, COLOR_TEXT, ui);
    let find_label = written(title, x + 16, y + 42, "Find what:"@, COLOR_TEXT, ui);
    assert(find_label[find_label.len() - 1] is Text);
    assert(writes(find_label, x + 16, y + 42, "Find what:"@));
    let find = field_drawn(
        find_label,
        x + 112,
        y + 36,
        302,
        query,
        field == ReplaceField::Find,
    );
    lemma_field(find_label, x + 112, y + 36, 302, query, field == ReplaceField::Find);
    let with_label = written(find, x + 16, y + 78, "Replace with:"@, COLOR_TEXT, ui);
    assert(with_label[with_label.len() - 1] is Text);
    assert(writes(with_label, x + 16, y + 78, "Replace with:"@));
    let with = field_drawn(
        with_label,
        x + 112,
        y + 72,
        302,
        replacement,
        field == ReplaceField::Replace,
    );
    lemma_field(with_label, x + 112, y + 72, 302, replacement, field == ReplaceField::Replace);
    let picture = replace_drawn(s, x, y, 430, query, replacement, field, match_case);
    assert(goes_on(with, picture));
    assert(goes_on(with_label, picture));
    assert(goes_on(find, picture));
    assert(goes_on(find_label, picture));
    lemma_writes(with, picture, x + 118, y + 78, replacement);
    lemma_writes(with_label, picture, x + 16, y + 78, "Replace with:"@);
    lemma_writes(find, picture, x + 118, y + 42, query);
    lemma_writes(find_label, picture, x + 16, y + 42, "Find what:"@);
}

// ---------------------------------------------------------------------------
// Menus
// ---------------------------------------------------------------------------

proof fn lemma_row(s: Seq<Mark>, row: RowModel, x: int, y: int, width: int, shortcut_x: int)
    ensures
        goes_on(s, row_drawn(s, row, x, y, width, shortcut_x)),
        ({
            let top = if row.separator_before {
                crate::ruler::saturated(y + 7)
            } else {
                y
            };
            writes(
                row_drawn(s, row, x, y, width, shortcut_x),
                crate::ruler::saturated(crate::ruler::saturated(x + 28) + row.indent),
                crate::ruler::saturated(top + 7),
                row.label,
            )
        }),
        row.shortcut matches Some(shortcut) ==> ({
            let top = if row.separator_before {
                crate::ruler::saturated(y + 7)
            } else {
                y
            };
            writes(
                row_drawn(s, row, x, y, width, shortcut_x),
                crate::ruler::saturated(x + shortcut_x),
                crate::ruler::saturated(top + 7),
                shortcut,
            )
        }),
{
    let drawn = row_drawn(s, row, x, y, width, shortcut_x);
    let at = s.len() + (if row.separator_before {
        1int
    } else {
        0int
    }) + (if row.checked {
        1int
    } else {
        0int
    });
    assert(drawn[at] is Text);
    if row.shortcut is Some {
        assert(drawn[at + 1] is Text);
    }
}

proof fn lemma_rows_go_on(
    s: Seq<Mark>,
    rows: Seq<RowModel>,
    x: int,
    top: int,
    width: int,
    shortcut_x: int,
    i: int,
    n: int,
)
    requires
        0 <= i <= n,
    ensures
        goes_on(
            rows_drawn(s, rows, x, top, width, shortcut_x, i),
            rows_drawn(s, rows, x, top, width, shortcut_x, n),
        ),
    decreases n - i,
{
    if i < n {
        lemma_rows_go_on(s, rows, x, top, width, shortcut_x, i, n - 1);
        lemma_row(
            rows_drawn(s, rows, x, top, width, shortcut_x, n - 1),
            rows[n - 1],
            x,
            rows_bottom(rows, top, n - 1),
            width,
            shortcut_x,
        );
    }
}

/// Each row of an open menu has its label and its shortcut written side by side
/// within the height at which the mouse finds the row.
pub proof fn law_menu_rows_are_written_where_they_are(
    s: Seq<Mark>,
    rows: Seq<RowModel>,
    x: int,
    top: int,
    width: int,
    shortcut_x: int,
    i: int,
)
    requires
        0 <= i < rows.len(),
        0 <= x,
        0 <= shortcut_x,
        0 <= rows[i].indent,
        x + 28 + rows[i].indent <= usize::MAX,
        x + shortcut_x <= usize::MAX,
        row_top(rows, top, i) + 7 <= usize::MAX,
    ensures
        ({
            let picture = rows_drawn(s, rows, x, top, width, shortcut_x, rows.len() as int);
            let y = row_top(rows, top, i) + 7;
            &&& writes(picture, x + 28 + rows[i].indent, y, rows[i].label)
            &&& rows[i].shortcut matches Some(shortcut) ==> writes(
                picture,
                x + shortcut_x,
                y,
                shortcut,
            )
            &&& row_top(rows, top, i) <= y < row_top(rows, top, i) + MENU_ITEM_HEIGHT
        }),
{
    let n = rows.len() as int;
    let before = rows_drawn(s, rows, x, top, width, shortcut_x, i);
    let with = rows_drawn(s, rows, x, top, width, shortcut_x, i + 1);
    let picture = rows_drawn(s, rows, x, top, width, shortcut_x, n);
    lemma_row(before, rows[i], x, rows_bottom(rows, top, i), width, shortcut_x);
    lemma_rows_go_on(s, rows, x, top, width, shortcut_x, i + 1, n);
    let y = row_top(rows, top, i) + 7;
    lemma_writes(with, picture, x + 28 + rows[i].indent, y, rows[i].label);
    if let Some(shortcut) = rows[i].shortcut {
        lemma_writes(with, picture, x + shortcut_x, y, shortcut);
    }
}

proof fn lemma_headings_go_on(
    s: Seq<Mark>,
    ruler: RulerModel,
    active: Option<usize>,
    i: int,
    n: int,
)
    requires
        0 <= i <= n,
    ensures
        goes_on(headings_drawn(s, ruler, active, i), headings_drawn(s, ruler, active, n)),
    decreases n - i,
{
    if i < n {
        lemma_headings_go_on(s, ruler, active, i, n - 1);
    }
}

/// Each heading of the menu bar is written within the width at which the mouse
/// finds it, in order from left to right.
pub proof fn law_headings_are_written_where_they_are(
    s: Seq<Mark>,
    ruler: RulerModel,
    active: Option<usize>,
    i: int,
)
    requires
        0 <= i < MENU_COUNT,
        title_x(ruler, i) + 20 <= usize::MAX,
    ensures
        ({
            let picture = headings_drawn(s, ruler, active, MENU_COUNT as int);
            let x = title_x(ruler, i) + 8;
            &&& writes(picture, x, 7, heading(i))
            &&& title_x(ruler, i) <= x < title_x(ruler, i) + title_width(ruler, i)
            &&& i > 0 ==> title_x(ruler, i - 1) < title_x(ruler, i)
        }),
{
    let with = headings_drawn(s, ruler, active, i + 1);
    let picture = headings_drawn(s, ruler, active, MENU_COUNT as int);
    lemma_headings_go_on(s, ruler, active, i + 1, MENU_COUNT as int);
    lemma_measured_not_negative(ruler, TextRole::Ui, heading(i));
    if i > 0 {
        lemma_measured_not_negative(ruler, TextRole::Ui, heading(i - 1));
    }
    assert(with[with.len() - 1] is Text);
    assert(writes(with, title_x(ruler, i) + 8, 7, heading(i)));
    lemma_writes(with, picture, title_x(ruler, i) + 8, 7, heading(i));
}

// ---------------------------------------------------------------------------
// The status bar
// ---------------------------------------------------------------------------

proof fn lemma_cells_go_on(
    s: Seq<Mark>,
    ruler: RulerModel,
    cells: Seq<Seq<char>>,
    i: int,
    x: int,
    width: int,
    height: int,
)
    ensures
        goes_on(s, cells_drawn(s, ruler, cells, i, x, width, height)),
    decreases cells.len() - i,
{
    if 0 <= i < cells.len() {
        let y = height - 30;
        let divided = if x > 10 {
            crate::sketch::lined(
                s,
                crate::scroll::rest(x, 12),
                y,
                crate::scroll::rest(x, 12),
                height,
                crate::sketch::COLOR_BORDER,
            )
        } else {
            s
        };
        let drawn = written(divided, x, y + 7, cells[i], COLOR_TEXT, TextRole::Ui);
        let next = crate::ruler::saturated(
            x + crate::ruler::saturated(measured(ruler, TextRole::Ui, cells[i]) + 40),
        );
        assert(goes_on(s, drawn));
        if next < width {
            lemma_cells_go_on(drawn, ruler, cells, i + 1, next, width, height);
        }
    }
}

/// A cell of the status bar is written at its place, and the next one so far to
/// the right that there are forty dots between them, as long as it begins within
/// the window.
pub proof fn law_status_cells_stand_side_by_side(
    s: Seq<Mark>,
    ruler: RulerModel,
    cells: Seq<Seq<char>>,
    i: int,
    x: int,
    width: int,
    height: int,
)
    requires
        0 <= i < cells.len(),
        0 <= width <= usize::MAX,
        0 <= x,
    ensures
        ({
            let picture = cells_drawn(s, ruler, cells, i, x, width, height);
            let next = x + measured(ruler, TextRole::Ui, cells[i]) + 40;
            &&& writes(picture, x, height - 23, cells[i])
            &&& i + 1 < cells.len() && next < width ==> writes(
                picture,
                next,
                height - 23,
                cells[i + 1],
            )
        }),
{
    let y = height - 30;
    let divided = if x > 10 {
        crate::sketch::lined(
            s,
            crate::scroll::rest(x, 12),
            y,
            crate::scroll::rest(x, 12),
            height,
            crate::sketch::COLOR_BORDER,
        )
    } else {
        s
    };
    let drawn = written(divided, x, y + 7, cells[i], COLOR_TEXT, TextRole::Ui);
    assert(drawn[drawn.len() - 1] is Text);
    assert(writes(drawn, x, height - 23, cells[i]));
    lemma_measured_not_negative(ruler, TextRole::Ui, cells[i]);
    let next = x + measured(ruler, TextRole::Ui, cells[i]) + 40;
    let picture = cells_drawn(s, ruler, cells, i, x, width, height);
    if next < width {
        lemma_cells_go_on(drawn, ruler, cells, i + 1, next, width, height);
        lemma_writes(drawn, picture, x, height - 23, cells[i]);
        if i + 1 < cells.len() {
            let divided2 = if next > 10 {
                crate::sketch::lined(
                    drawn,
                    crate::scroll::rest(next, 12),
                    y,
                    crate::scroll::rest(next, 12),
                    height,
                    crate::sketch::COLOR_BORDER,
                )
            } else {
                drawn
            };
            let drawn2 = written(divided2, next, y + 7, cells[i + 1], COLOR_TEXT, TextRole::Ui);
            assert(drawn2[drawn2.len() - 1] is Text);
            assert(writes(drawn2, next, height - 23, cells[i + 1]));
            let next2 = crate::ruler::saturated(
                next + crate::ruler::saturated(measured(ruler, TextRole::Ui, cells[i + 1]) + 40),
            );
            if next2 < width {
                lemma_cells_go_on(drawn2, ruler, cells, i + 2, next2, width, height);
            }
            lemma_writes(drawn2, picture, next, height - 23, cells[i + 1]);
        }
    }
}

// ---------------------------------------------------------------------------
// Fonts
// ---------------------------------------------------------------------------

proof fn lemma_first_fonts(fonts: Seq<FontGlyph>, c: char, i: int)
    requires
        0 <= i <= fonts.len(),
    ensures
        match first_drawing(fonts, c, i) {
            Some(k) => i <= k < fonts.len() && draws(fonts[k], c) && forall|j: int|
                i <= j < k ==> !draws(#[trigger] fonts[j], c),
            None => forall|j: int| i <= j < fonts.len() ==> !draws(#[trigger] fonts[j], c),
        },
        match first_supporting(fonts, i) {
            Some(k) => i <= k < fonts.len() && supports(fonts[k]) && forall|j: int|
                i <= j < k ==> !supports(#[trigger] fonts[j]),
            None => forall|j: int| i <= j < fonts.len() ==> !supports(#[trigger] fonts[j]),
        },
    decreases fonts.len() - i,
{
    if i < fonts.len() {
        lemma_first_fonts(fonts, c, i + 1);
    }
}

/// A character that is to be seen is drawn with the first font that can draw it;
/// one that none can draw, with the first font that knows it, or the first of all.
pub proof fn law_first_fitting_font_is_taken(fonts: Seq<FontGlyph>, c: char)
    requires
        fonts.len() > 0,
        !white(c),
    ensures
        ({
            let k = font_for(fonts, c);
            &&& 0 <= k < fonts.len()
            &&& (exists|j: int| 0 <= j < fonts.len() && draws(#[trigger] fonts[j], c)) ==> draws(
                fonts[k],
                c,
            ) && forall|j: int| 0 <= j < k ==> !draws(#[trigger] fonts[j], c)
            &&& (forall|j: int| 0 <= j < fonts.len() ==> !draws(#[trigger] fonts[j], c)) ==> (
            supports(fonts[k]) && forall|j: int| 0 <= j < k ==> !supports(#[trigger] fonts[j])) || (
            k == 0 && forall|j: int| 0 <= j < fonts.len() ==> !supports(#[trigger] fonts[j]))
        }),
{
    lemma_first_fonts(fonts, c, 0);
}

// ---------------------------------------------------------------------------
// News
// ---------------------------------------------------------------------------

proof fn lemma_line_end(text: Seq<char>, i: int, end: int)
    requires
        0 <= i <= end <= text.len(),
        end == text.len() || text[end] == '\n',
        forall|k: int| i <= k < end ==> #[trigger] text[k] != '\n',
    ensures
        text_line_end(text, i) == end,
    decreases end - i,
{
    if i < end {
        assert(text[i] != '\n');
        lemma_line_end(text, i + 1, end);
    }
}

proof fn lemma_lines_behind(front: Seq<char>, text: Seq<char>, i: int, n: int)
    requires
        0 <= i,
    ensures
        text_lines(front + text, front.len() + i, n) == text_lines(text, i, n),
    decreases n,
{
    let all = front + text;
    if n > 0 && i < text.len() {
        lemma_line_end_behind(front, text, i);
        let end = text_line_end(text, i);
        lemma_lines_behind(front, text, end + 1, n - 1);
        if i < end {
            assert(all[front.len() + end - 1] == text[end - 1]);
        }
        assert(all.subrange(front.len() + i, front.len() + end) =~= text.subrange(i, end));
        if i < end {
            assert(all.subrange(front.len() + i, front.len() + end - 1) =~= text.subrange(
                i,
                end - 1,
            ));
        }
    }
}

proof fn lemma_line_end_behind(front: Seq<char>, text: Seq<char>, i: int)
    requires
        0 <= i <= text.len(),
    ensures
        text_line_end(front + text, front.len() + i) == front.len() + text_line_end(text, i),
        i <= text_line_end(text, i) <= text.len(),
    decreases text.len() - i,
{
    if i < text.len() {
        assert((front + text)[front.len() + i] == text[i]);
        if text[i] != '\n' {
            lemma_line_end_behind(front, text, i + 1);
        }
    }
}

/// The first line of a message is what stands before its first line feed, and
/// the carriage return before that is left out; the lines behind it follow.
pub proof fn law_messages_are_shown_line_by_line(first: Seq<char>, later: Seq<char>, n: int)
    requires
        n > 0,
        forall|k: int| 0 <= k < first.len() ==> #[trigger] first[k] != '\n',
    ensures
        first.len() > 0 ==> text_lines(first, 0, n) == seq![first],
        first.len() == 0 || first.last() != '\r' ==> text_lines(first + seq!['\n'] + later, 0, n)
            == seq![first] + text_lines(later, 0, n - 1),
        text_lines(first + seq!['\r', '\n'] + later, 0, n) == seq![first] + text_lines(later, 0, n - 1),
{
    if first.len() > 0 {
        lemma_line_end(first, 0, first.len() as int);
        assert(first.subrange(0, first.len() as int) =~= first);
        assert(text_lines(first, first.len() as int + 1, n - 1) =~= Seq::empty());
        assert(text_lines(first, 0, n) =~= seq![first]);
    }
    let len = first.len() as int;
    let fed = first + seq!['\n'] + later;
    assert(fed[len] == '\n');
    assert forall|k: int| 0 <= k < len implies #[trigger] fed[k] != '\n' by {
        assert(fed[k] == first[k]);
    }
    lemma_line_end(fed, 0, len);
    assert(fed.subrange(0, len) =~= first);
    if first.len() > 0 {
        assert(fed[len - 1] == first.last());
    }
    lemma_lines_behind(first + seq!['\n'], later, 0, n - 1);
    let both = first + seq!['\r', '\n'] + later;
    assert(both[len] == '\r');
    assert(both[len + 1] == '\n');
    assert forall|k: int| 0 <= k < len + 1 implies #[trigger] both[k] != '\n' by {
        if k < len {
            assert(both[k] == first[k]);
        }
    }
    lemma_line_end(both, 0, len + 1);
    assert(both.subrange(0, len) =~= first);
    lemma_lines_behind(first + seq!['\r', '\n'], later, 0, n - 1);
}

proof fn lemma_lines_drawn(s: Seq<Mark>, x: int, y: int, lines: Seq<Seq<char>>, i: int, n: int)
    requires
        0 <= i < n,
    ensures
        goes_on(s, lines_drawn(s, x, y, lines, n)),
        writes(lines_drawn(s, x, y, lines, n), x, y + 24 * i, lines[i]),
    decreases n,
{
    let drawn = lines_drawn(s, x, y, lines, n);
    let before = lines_drawn(s, x, y, lines, n - 1);
    if n > 1 {
        lemma_lines_drawn(s, x, y, lines, 0, n - 1);
    }
    assert(goes_on(before, drawn));
    if i < n - 1 {
        lemma_lines_drawn(s, x, y, lines, i, n - 1);
        lemma_writes(before, drawn, x, y + 24 * i, lines[i]);
    } else {
        assert(drawn[drawn.len() - 1] is Text);
    }
}

/// News shows its title and below it the first lines of its message, one below
/// the other.
pub proof fn law_news_shows_its_message(
    ruler: RulerModel,
    title: Seq<char>,
    message: Seq<char>,
    width: int,
    height: int,
    i: int,
)
    requires
        470 <= width,
        160 <= height,
        0 <= i < text_lines(message, 0, 4).len(),
    ensures
        ({
            let picture = dialog_drawn(
                Seq::empty(),
                ruler,
                DialogModel::Info { title, message },
                width,
                height,
            );
            let x = (width - 430) / 2 + 16;
            let y = (height - 160) / 2;
            &&& writes(picture, x, y + 12, title)
            &&& writes(picture, x, y + 48 + 24 * i, text_lines(message, 0, 4)[i])
        }),
{
    let x = (width - 430) / 2;
    let y = (height - 160) / 2;
    let s = framed(
        filled(
            filled(Seq::empty(), x + 4, y + 4, 430, 160, 0x00909090),
            x,
            y,
            430,
            160,
            crate::sketch::COLOR_DROPDOWN,
        ),
        x,
        y,
        430,
        160,
        crate::sketch::COLOR_BORDER,
    );
    let lines = text_lines(message, 0, 4);
    let titled = written(s, x + 16, y + 12, title, COLOR_TEXT, TextRole::Ui);
    assert(titled[titled.len() - 1] is Text);
    assert(writes(titled, x + 16, y + 12, title));
    let told = lines_drawn(titled, x + 16, y + 48, lines, lines.len() as int);
    lemma_lines_drawn(titled, x + 16, y + 48, lines, i, lines.len() as int);
    let picture = info_drawn(s, x, y, 160, title, message);
    assert(goes_on(told, picture));
    assert(goes_on(titled, picture));
    lemma_writes(titled, picture, x + 16, y + 12, title);
    lemma_writes(told, picture, x + 16, y + 48 + 24 * i, lines[i]);
}

} // verus!

//! How the dialogs and the find window are drawn.

use crate::canvas::Rect;
use crate::dialog::{
    dialog_window_size, find_cancel_button_rect, find_direction_group_rect, find_down_radio_rect,
    find_field_rect, find_match_case_rect, find_next_button_rect, find_up_radio_rect,
    find_wrap_rect, go_to_accept_button_rect, go_to_cancel_button_rect, go_to_field_rect,
    DialogModel, DialogState, FindModel, FindWindow, ReplaceField,
};
use crate::ruler::{fitting, measured, saturated, string_of, Ruler, RulerModel, TextRole};
use crate::scroll::{greater, greater_of, less, rest, smaller_of, EDITOR_LINE_HEIGHT};
use crate::sketch::{
    filled, framed, lined, written, Mark, Sketch, COLOR_BORDER, COLOR_BUTTON, COLOR_CARET,
    COLOR_DISABLED_TEXT, COLOR_DROPDOWN, COLOR_FOCUS_BORDER, COLOR_GROUP_BOX, COLOR_SELECTED_TEXT,
    COLOR_TEXT, COLOR_TEXT_AREA, COLOR_WINDOW,
};
use crate::text::{owned, texts};
use crate::text_units::characters;
use vstd::prelude::*;

verus! {

// ---------------------------------------------------------------------------
// Places
// ---------------------------------------------------------------------------

/// The height that text of a role takes.
pub open spec fn text_height(role: TextRole) -> int {
    match role {
        TextRole::Find => 16,
        TextRole::Ui => 18,
        TextRole::Editor => EDITOR_LINE_HEIGHT as int,
    }
}

/// The top of text in the middle of a rectangle.
pub open spec fn middle(rect: Rect, role: TextRole) -> int {
    rect.y + rest(rect.height as int, text_height(role)) / 2
}

/// A rectangle and a margin round it have places on the screen.
pub open spec fn rect_fits(rect: Rect) -> bool {
    &&& 2 <= rect.x <= 0x7fff
    &&& 2 <= rect.y <= 0x7fff
    &&& rect.width <= 0x7fff
    &&& 8 <= rect.height <= 0x7fff
}

pub fn centered_text_y(rect: Rect, role: TextRole) -> (y: usize)
    requires
        rect.y + rect.height <= usize::MAX,
    ensures
        y == middle(rect, role),
{
    let text_height: usize = match role {
        TextRole::Find => 16,
        TextRole::Ui => 18,
        TextRole::Editor => EDITOR_LINE_HEIGHT,
    };
    rect.y + rect.height.saturating_sub(text_height) / 2
}

/// The part of the searched text that the find window shows.
pub open spec fn shown_query(ruler: RulerModel, query: Seq<char>) -> Seq<char> {
    fitting(ruler, TextRole::Find, query, find_field_rect().width - 12)
}

/// Where the caret of the find window is.
pub open spec fn find_caret_x(ruler: RulerModel, query: Seq<char>) -> int {
    let field = find_field_rect();
    less(
        saturated(field.x + 6 + measured(ruler, TextRole::Find, shown_query(ruler, query))),
        field.x + field.width - 4,
    )
}

/// Where an input method writes in the find window.
pub fn find_ime_caret_x(ruler: &Ruler, query: &str) -> (x: usize)
    ensures
        x == find_caret_x(ruler@, query@),
{
    let field = find_field_rect();
    let visible = ruler.text_prefix_for_width(query, TextRole::Find, field.width - 12);
    smaller_of(
        (field.x + 6).saturating_add(ruler.measure(visible.as_str(), TextRole::Find)),
        field.x + field.width - 4,
    )
}

pub fn find_ime_caret_y() -> (y: usize)
    ensures
        y == middle(find_field_rect(), TextRole::Find),
{
    centered_text_y(find_field_rect(), TextRole::Find)
}

// ---------------------------------------------------------------------------
// Fields and buttons
// ---------------------------------------------------------------------------

pub open spec fn find_field_drawn(s: Seq<Mark>, ruler: RulerModel, query: Seq<char>) -> Seq<Mark> {
    let field = find_field_rect();
    let (x, y) = (field.x as int, field.y as int);
    let (width, height) = (field.width as int, field.height as int);
    let boxed = framed(
        filled(s, x, y, width, height, COLOR_TEXT_AREA),
        x,
        y,
        width,
        height,
        COLOR_FOCUS_BORDER,
    );
    filled(
        written(
            boxed,
            x + 6,
            middle(field, TextRole::Find),
            shown_query(ruler, query),
            COLOR_TEXT,
            TextRole::Find,
        ),
        find_caret_x(ruler, query),
        y + 4,
        2,
        height - 8,
        COLOR_CARET,
    )
}

fn draw_find_text_field(sketch: &mut Sketch, ruler: &Ruler, query: &str)
    ensures
        final(sketch)@ == find_field_drawn(old(sketch)@, ruler@, query@),
{
    let field = find_field_rect();
    sketch.fill_rect(field.x, field.y, field.width, field.height, COLOR_TEXT_AREA);
    sketch.rect(field.x, field.y, field.width, field.height, COLOR_FOCUS_BORDER);
    let visible = ruler.text_prefix_for_width(query, TextRole::Find, field.width - 12);
    sketch.text(
        field.x + 6,
        centered_text_y(field, TextRole::Find),
        visible.as_str(),
        COLOR_TEXT,
        TextRole::Find,
    );
    let caret_x: usize = find_ime_caret_x(ruler, query);
    sketch.fill_rect(caret_x, field.y + 4, 2, field.height - 8, COLOR_CARET);
}

/// The part of a label that fits onto a button.
pub open spec fn button_label(ruler: RulerModel, rect: Rect, label: Seq<char>) -> Seq<char> {
    fitting(ruler, TextRole::Find, label, rest(rect.width as int, 8))
}

/// A button with its label in the middle.
pub open spec fn button_drawn(
    s: Seq<Mark>,
    ruler: RulerModel,
    rect: Rect,
    label: Seq<char>,
    color: u32,
) -> Seq<Mark> {
    let (x, y) = (rect.x as int, rect.y as int);
    let (width, height) = (rect.width as int, rect.height as int);
    let shown = button_label(ruler, rect, label);
    written(
        framed(
            filled(s, x, y, width, height, COLOR_BUTTON),
            x,
            y,
            width,
            height,
            COLOR_BORDER,
        ),
        x + rest(width, measured(ruler, TextRole::Find, shown)) / 2,
        middle(rect, TextRole::Find),
        shown,
        color,
        TextRole::Find,
    )
}

fn draw_button(sketch: &mut Sketch, ruler: &Ruler, rect: Rect, label: &str, color: u32)
    requires
        rect_fits(rect),
    ensures
        final(sketch)@ == button_drawn(old(sketch)@, ruler@, rect, label@, color),
{
    sketch.fill_rect(rect.x, rect.y, rect.width, rect.height, COLOR_BUTTON);
    sketch.rect(rect.x, rect.y, rect.width, rect.height, COLOR_BORDER);
    let shown = ruler.text_prefix_for_width(label, TextRole::Find, rect.width.saturating_sub(8));
    let text_x: usize = rect.x + rect.width.saturating_sub(
        ruler.measure(shown.as_str(), TextRole::Find),
    ) / 2;
    sketch.text(
        text_x,
        centered_text_y(rect, TextRole::Find),
        shown.as_str(),
        color,
        TextRole::Find,
    );
}

/// A button of the find window; one that is of no use is gray.
pub open spec fn find_button_drawn(
    s: Seq<Mark>,
    ruler: RulerModel,
    rect: Rect,
    label: Seq<char>,
    enabled: bool,
) -> Seq<Mark> {
    button_drawn(
        s,
        ruler,
        rect,
        label,
        if enabled {
            COLOR_TEXT
        } else {
            COLOR_DISABLED_TEXT
        },
    )
}

fn draw_find_button(sketch: &mut Sketch, ruler: &Ruler, rect: Rect, label: &str, enabled: bool)
    requires
        rect_fits(rect),
    ensures
        final(sketch)@ == find_button_drawn(old(sketch)@, ruler@, rect, label@, enabled),
{
    let color: u32 = if enabled {
        COLOR_TEXT
    } else {
        COLOR_DISABLED_TEXT
    };
    draw_button(sketch, ruler, rect, label, color);
}

/// A button of the dialog for a line number; the one that the enter key presses
/// has a border.
pub open spec fn go_to_button_drawn(
    s: Seq<Mark>,
    ruler: RulerModel,
    rect: Rect,
    label: Seq<char>,
    default_button: bool,
) -> Seq<Mark> {
    let bordered = if default_button {
        framed(
            s,
            rect.x - 1,
            rect.y - 1,
            rect.width + 2,
            rect.height + 2,
            COLOR_FOCUS_BORDER,
        )
    } else {
        s
    };
    button_drawn(bordered, ruler, rect, label, COLOR_TEXT)
}

fn draw_go_to_button(
    sketch: &mut Sketch,
    ruler: &Ruler,
    rect: Rect,
    label: &str,
    default_button: bool,
)
    requires
        rect_fits(rect),
    ensures
        final(sketch)@ == go_to_button_drawn(old(sketch)@, ruler@, rect, label@, default_button),
{
    if default_button {
        sketch.rect(rect.x - 1, rect.y - 1, rect.width + 2, rect.height + 2, COLOR_FOCUS_BORDER);
    }
    draw_button(sketch, ruler, rect, label, COLOR_TEXT);
}

/// A box to check, with two strokes where it is checked.
pub open spec fn checkbox_drawn(s: Seq<Mark>, rect: Rect, label: Seq<char>, checked: bool) -> Seq<
    Mark,
> {
    let x = rect.x as int;
    let top = rect.y + rest(rect.height as int, 14) / 2;
    let empty = framed(
        filled(s, x, top, 14, 14, COLOR_TEXT_AREA),
        x,
        top,
        14,
        14,
        COLOR_TEXT,
    );
    let filled_in = if checked {
        lined(
            lined(empty, x + 3, top + 7, x + 6, top + 11, COLOR_TEXT),
            x + 6,
            top + 11,
            x + 12,
            top + 2,
            COLOR_TEXT,
        )
    } else {
        empty
    };
    written(filled_in, x + 22, middle(rect, TextRole::Find), label, COLOR_TEXT, TextRole::Find)
}

fn draw_checkbox(sketch: &mut Sketch, rect: Rect, label: &str, checked: bool)
    requires
        rect_fits(rect),
    ensures
        final(sketch)@ == checkbox_drawn(old(sketch)@, rect, label@, checked),
{
    let box_y: usize = rect.y + rect.height.saturating_sub(14) / 2;
    sketch.fill_rect(rect.x, box_y, 14, 14, COLOR_TEXT_AREA);
    sketch.rect(rect.x, box_y, 14, 14, COLOR_TEXT);
    if checked {
        sketch.line(rect.x + 3, box_y + 7, rect.x + 6, box_y + 11, COLOR_TEXT);
        sketch.line(rect.x + 6, box_y + 11, rect.x + 12, box_y + 2, COLOR_TEXT);
    }
    sketch.text(
        rect.x + 22,
        centered_text_y(rect, TextRole::Find),
        label,
        COLOR_TEXT,
        TextRole::Find,
    );
}

/// A group of choices with its label in the border.
pub open spec fn group_drawn(s: Seq<Mark>, ruler: RulerModel, rect: Rect, label: Seq<char>) -> Seq<
    Mark,
> {
    let (x, y) = (rect.x as int, rect.y as int);
    written(
        filled(
            framed(s, x, y, rect.width as int, rect.height as int, COLOR_GROUP_BOX),
            x + 12,
            y,
            saturated(measured(ruler, TextRole::Find, label) + 8),
            14,
            COLOR_WINDOW,
        ),
        x + 16,
        y - 2,
        label,
        COLOR_TEXT,
        TextRole::Find,
    )
}

fn draw_group_box(sketch: &mut Sketch, ruler: &Ruler, rect: Rect, label: &str)
    requires
        rect_fits(rect),
    ensures
        final(sketch)@ == group_drawn(old(sketch)@, ruler@, rect, label@),
{
    sketch.rect(rect.x, rect.y, rect.width, rect.height, COLOR_GROUP_BOX);
    sketch.fill_rect(
        rect.x + 12,
        rect.y,
        ruler.measure(label, TextRole::Find).saturating_add(8),
        14,
        COLOR_WINDOW,
    );
    sketch.text(rect.x + 16, rect.y - 2, label, COLOR_TEXT, TextRole::Find);
}

/// A round button of a group, with a dot where it is the one chosen.
pub open spec fn radio_drawn(s: Seq<Mark>, rect: Rect, label: Seq<char>, checked: bool) -> Seq<
    Mark,
> {
    let x = rect.x + 8;
    let y = rect.y + rect.height as int / 2;
    let ring = s.push(Mark::Circle { x, y, radius: 7, color: COLOR_TEXT });
    let dotted = if checked {
        filled(ring, x - 3, y - 3, 6, 6, COLOR_TEXT)
    } else {
        ring
    };
    written(dotted, rect.x + 20, middle(rect, TextRole::Find), label, COLOR_TEXT, TextRole::Find)
}

fn draw_radio_button(sketch: &mut Sketch, rect: Rect, label: &str, checked: bool)
    requires
        rect_fits(rect),
    ensures
        final(sketch)@ == radio_drawn(old(sketch)@, rect, label@, checked),
{
    let cx: usize = rect.x + 8;
    let cy: usize = rect.y + rect.height / 2;
    sketch.circle(cx as u16, cy as u16, 7, COLOR_TEXT);
    if checked {
        sketch.fill_rect(cx - 3, cy - 3, 6, 6, COLOR_TEXT);
    }
    sketch.text(
        rect.x + 20,
        centered_text_y(rect, TextRole::Find),
        label,
        COLOR_TEXT,
        TextRole::Find,
    );
}

// ---------------------------------------------------------------------------
// The find window
// ---------------------------------------------------------------------------

/// The picture of the find window.
pub open spec fn find_window_picture(ruler: RulerModel, view: FindModel) -> Seq<Mark> {
    let start = written(
        Seq::empty(),
        16,
        middle(find_field_rect(), TextRole::Find),
        "Find what:"@,
        COLOR_TEXT,
        TextRole::Find,
    );
    let field = find_field_drawn(start, ruler, view.query);
    let next = find_button_drawn(
        field,
        ruler,
        find_next_button_rect(),
        "Find Next"@,
        view.query.len() > 0,
    );
    let buttons = find_button_drawn(next, ruler, find_cancel_button_rect(), "Cancel"@, true);
    let case = checkbox_drawn(buttons, find_match_case_rect(), "Match case"@, view.match_case);
    let options = checkbox_drawn(case, find_wrap_rect(), "Wrap around"@, view.wrap_around);
    let group = group_drawn(options, ruler, find_direction_group_rect(), "Direction"@);
    let up = radio_drawn(group, find_up_radio_rect(), "Up"@, !view.forward);
    radio_drawn(up, find_down_radio_rect(), "Down"@, view.forward)
}

/// Draws the find window.
pub fn render_find_window_view(view: &FindWindow, ruler: &Ruler) -> (sketch: Sketch)
    ensures
        sketch@ == find_window_picture(ruler@, view@),
{
    let mut sketch = Sketch::new();
    sketch.text(
        16,
        centered_text_y(find_field_rect(), TextRole::Find),
        "Find what:",
        COLOR_TEXT,
        TextRole::Find,
    );
    draw_find_text_field(&mut sketch, ruler, view.query.as_str());
    draw_find_button(
        &mut sketch,
        ruler,
        find_next_button_rect(),
        "Find Next",
        !view.query.as_str().is_empty(),
    );
    draw_find_button(&mut sketch, ruler, find_cancel_button_rect(), "Cancel", true);
    draw_checkbox(&mut sketch, find_match_case_rect(), "Match case", view.match_case);
    draw_checkbox(&mut sketch, find_wrap_rect(), "Wrap around", view.wrap_around);
    draw_group_box(&mut sketch, ruler, find_direction_group_rect(), "Direction");
    draw_radio_button(&mut sketch, find_up_radio_rect(), "Up", !view.forward);
    draw_radio_button(&mut sketch, find_down_radio_rect(), "Down", view.forward);
    sketch
}

// ---------------------------------------------------------------------------
// The dialog for a line number
// ---------------------------------------------------------------------------

/// The field for a line number: selected as a whole, or with a caret behind it.
pub open spec fn go_to_field_drawn(
    s: Seq<Mark>,
    ruler: RulerModel,
    line: Seq<char>,
    selected: bool,
) -> Seq<Mark> {
    let field = go_to_field_rect();
    let (x, y) = (field.x as int, field.y as int);
    let (width, height) = (field.width as int, field.height as int);
    let visible = fitting(ruler, TextRole::Find, line, width - 12);
    let text_width = measured(ruler, TextRole::Find, visible);
    let boxed = framed(
        filled(s, x, y, width, height, COLOR_TEXT_AREA),
        x,
        y,
        width,
        height,
        COLOR_FOCUS_BORDER,
    );
    let marked = selected && visible.len() > 0;
    let under = if marked {
        filled(
            boxed,
            x + 5,
            y + 3,
            greater(less(text_width, width - 10), 1),
            height - 6,
            COLOR_FOCUS_BORDER,
        )
    } else {
        boxed
    };
    let with_text = written(
        under,
        x + 5,
        middle(field, TextRole::Find),
        visible,
        if marked {
            COLOR_SELECTED_TEXT
        } else {
            COLOR_TEXT
        },
        TextRole::Find,
    );
    if selected {
        with_text
    } else {
        filled(
            with_text,
            less(saturated(x + 5 + text_width), x + width - 4),
            y + 4,
            1,
            height - 8,
            COLOR_CARET,
        )
    }
}

fn draw_go_to_text_field(sketch: &mut Sketch, ruler: &Ruler, line: &str, selected: bool)
    ensures
        final(sketch)@ == go_to_field_drawn(old(sketch)@, ruler@, line@, selected),
{
    let field = go_to_field_rect();
    sketch.fill_rect(field.x, field.y, field.width, field.height, COLOR_TEXT_AREA);
    sketch.rect(field.x, field.y, field.width, field.height, COLOR_FOCUS_BORDER);
    let visible = ruler.text_prefix_for_width(line, TextRole::Find, field.width - 12);
    let text_width: usize = ruler.measure(visible.as_str(), TextRole::Find);
    let text_x: usize = field.x + 5;
    let text_y: usize = centered_text_y(field, TextRole::Find);
    let text_color: u32 = if selected && !visible.as_str().is_empty() {
        let selection_width: usize = smaller_of(text_width, field.width - 10);
        sketch.fill_rect(
            text_x,
            field.y + 3,
            greater_of(selection_width, 1),
            field.height - 6,
            COLOR_FOCUS_BORDER,
        );
        COLOR_SELECTED_TEXT
    } else {
        COLOR_TEXT
    };
    sketch.text(text_x, text_y, visible.as_str(), text_color, TextRole::Find);
    if !selected {
        let caret_x: usize = smaller_of(
            text_x.saturating_add(text_width),
            field.x + field.width - 4,
        );
        sketch.fill_rect(caret_x, field.y + 4, 1, field.height - 8, COLOR_CARET);
    }
}

pub open spec fn go_to_drawn(s: Seq<Mark>, ruler: RulerModel, line: Seq<char>, selected: bool) -> Seq<
    Mark,
> {
    let labelled = written(s, 10, 10, "Line number:"@, COLOR_TEXT, TextRole::Find);
    let field = go_to_field_drawn(labelled, ruler, line, selected);
    let accept = go_to_button_drawn(field, ruler, go_to_accept_button_rect(), "Go To"@, true);
    go_to_button_drawn(accept, ruler, go_to_cancel_button_rect(), "Cancel"@, false)
}

fn draw_go_to_dialog(sketch: &mut Sketch, ruler: &Ruler, line: &str, selected: bool)
    ensures
        final(sketch)@ == go_to_drawn(old(sketch)@, ruler@, line@, selected),
{
    sketch.text(10, 10, "Line number:", COLOR_TEXT, TextRole::Find);
    draw_go_to_text_field(sketch, ruler, line, selected);
    draw_go_to_button(sketch, ruler, go_to_accept_button_rect(), "Go To", true);
    draw_go_to_button(sketch, ruler, go_to_cancel_button_rect(), "Cancel", false);
}

// ---------------------------------------------------------------------------
// The other dialogs
// ---------------------------------------------------------------------------

pub open spec fn field_drawn(
    s: Seq<Mark>,
    x: int,
    y: int,
    width: int,
    text: Seq<char>,
    active: bool,
) -> Seq<Mark> {
    written(
        framed(
            filled(s, x, y, width, 28, COLOR_TEXT_AREA),
            x,
            y,
            width,
            28,
            if active {
                COLOR_TEXT
            } else {
                COLOR_BORDER
            },
        ),
        x + 6,
        y + 6,
        text,
        COLOR_TEXT,
        TextRole::Ui,
    )
}

fn draw_text_field(sketch: &mut Sketch, x: usize, y: usize, width: usize, text: &str, active: bool)
    requires
        x + 6 <= usize::MAX,
        y + 6 <= usize::MAX,
    ensures
        final(sketch)@ == field_drawn(
            old(sketch)@,
            x as int,
            y as int,
            width as int,
            text@,
            active,
        ),
{
    sketch.fill_rect(x, y, width, 28, COLOR_TEXT_AREA);
    let color: u32 = if active {
        COLOR_TEXT
    } else {
        COLOR_BORDER
    };
    sketch.rect(x, y, width, 28, color);
    sketch.text(x + 6, y + 6, text, COLOR_TEXT, TextRole::Ui);
}

pub open spec fn on_off_text(value: bool) -> Seq<char> {
    if value {
        "On"@
    } else {
        "Off"@
    }
}

pub fn on_off(value: bool) -> (text: &'static str)
    ensures
        text@ == on_off_text(value),
{
    if value {
        "On"
    } else {
        "Off"
    }
}

/// The dialog to replace text, with its corner at `x` and `y`.
pub open spec fn replace_drawn(
    s: Seq<Mark>,
    x: int,
    y: int,
    width: int,
    query: Seq<char>,
    replacement: Seq<char>,
    active_field: ReplaceField,
    match_case: bool,
) -> Seq<Mark> {
    let ui = TextRole::Ui;
    let title = written(s, x + 16, y + 12, "Replace"@, COLOR_TEXT, ui);
    let find_label = written(title, x + 16, y + 42, "Find what:"@, COLOR_TEXT, ui);
    let find = field_drawn(
        find_label,
        x + 112,
        y + 36,
        width - 128,
        query,
        active_field == ReplaceField::Find,
    );
    let with_label = written(find, x + 16, y + 78, "Replace with:"@, COLOR_TEXT, ui);
    let with = field_drawn(
        with_label,
        x + 112,
        y + 72,
        width - 128,
        replacement,
        active_field == ReplaceField::Replace,
    );
    let options = written(
        with,
        x + 16,
        y + 114,
        "[Tab] Field   [Space] Match case: "@ + on_off_text(match_case),
        COLOR_TEXT,
        ui,
    );
    written(
        options,
        x + 16,
        y + 144,
        "Enter: Replace Next   Ctrl/Cmd+Enter: Replace All"@,
        COLOR_TEXT,
        ui,
    )
}

fn draw_replace(
    sketch: &mut Sketch,
    x: usize,
    y: usize,
    width: usize,
    query: &str,
    replacement: &str,
    active_field: ReplaceField,
    match_case: bool,
)
    requires
        x + 200 <= usize::MAX,
        y + 200 <= usize::MAX,
        128 <= width,
    ensures
        final(sketch)@ == replace_drawn(
            old(sketch)@,
            x as int,
            y as int,
            width as int,
            query@,
            replacement@,
            active_field,
            match_case,
        ),
{
    sketch.text(x + 16, y + 12, "Replace", COLOR_TEXT, TextRole::Ui);
    sketch.text(x + 16, y + 42, "Find what:", COLOR_TEXT, TextRole::Ui);
    draw_text_field(
        sketch,
        x + 112,
        y + 36,
        width - 128,
        query,
        active_field == ReplaceField::Find,
    );
    sketch.text(x + 16, y + 78, "Replace with:", COLOR_TEXT, TextRole::Ui);
    draw_text_field(
        sketch,
        x + 112,
        y + 72,
        width - 128,
        replacement,
        active_field == ReplaceField::Replace,
    );
    let mut options = owned("[Tab] Field   [Space] Match case: ");
    options.append(on_off(match_case));
    sketch.text(x + 16, y + 114, options.as_str(), COLOR_TEXT, TextRole::Ui);
    sketch.text(
        x + 16,
        y + 144,
        "Enter: Replace Next   Ctrl/Cmd+Enter: Replace All",
        COLOR_TEXT,
        TextRole::Ui,
    );
}

/// Where the line that character `i` is on ends: before its line feed.
pub open spec fn text_line_end(text: Seq<char>, i: int) -> int
    decreases text.len() - i,
{
    if 0 <= i < text.len() && text[i] != '\n' {
        text_line_end(text, i + 1)
    } else {
        i
    }
}

/// The lines of a text from character `i` on, `n` at most. A line ends before a
/// line feed and a carriage return before that.
pub open spec fn text_lines(text: Seq<char>, i: int, n: int) -> Seq<Seq<char>>
    decreases n,
{
    if n <= 0 || i >= text.len() {
        Seq::empty()
    } else {
        let end = text_line_end(text, i);
        let shown = if i < end < text.len() && text[end - 1] == '\r' {
            end - 1
        } else {
            end
        };
        seq![text.subrange(i, shown)] + text_lines(text, end + 1, n - 1)
    }
}

fn first_lines(text: &str, n: usize) -> (lines: Vec<String>)
    ensures
        texts(lines@) == text_lines(text@, 0, n as int),
{
    let chars = characters(text);
    let mut lines: Vec<String> = Vec::new();
    let mut i: usize = 0;
    let mut left: usize = n;
    assert(texts(lines@) + text_lines(text@, 0, n as int) =~= text_lines(text@, 0, n as int));
    while left > 0 && i < chars.len()
        invariant
            chars@ == text@,
            i <= chars@.len() + 1,
            texts(lines@) + text_lines(text@, i as int, left as int) == text_lines(
                text@,
                0,
                n as int,
            ),
        decreases left,
    {
        let mut end: usize = i;
        while end < chars.len() && chars[end] != '\n'
            invariant
                chars@ == text@,
                i <= end <= chars@.len(),
                text_line_end(text@, i as int) == text_line_end(text@, end as int),
            decreases chars@.len() - end,
        {
            end += 1;
        }
        let shown: usize = if i < end && end < chars.len() && chars[end - 1] == '\r' {
            end - 1
        } else {
            end
        };
        let ghost before = texts(lines@);
        lines.push(string_of(&chars, i, shown));
        proof {
            let line = text@.subrange(i as int, shown as int);
            let later = text_lines(text@, end + 1, left - 1);
            assert(texts(lines@) =~= before.push(line));
            assert(before + (seq![line] + later) =~= before.push(line) + later);
        }
        let count: usize = chars.len();
        if end == count {
            assert(text_lines(text@, end + 1, left - 1) =~= Seq::empty());
            assert(texts(lines@) + Seq::<Seq<char>>::empty() =~= texts(lines@));
            return lines;
        }
        i = end + 1;
        left -= 1;
    }
    assert(texts(lines@) + Seq::<Seq<char>>::empty() =~= texts(lines@));
    lines
}

/// The first `n` of some lines, one below the other.
pub open spec fn lines_drawn(s: Seq<Mark>, x: int, y: int, lines: Seq<Seq<char>>, n: int) -> Seq<
    Mark,
>
    decreases n,
{
    if n <= 0 {
        s
    } else {
        written(
            lines_drawn(s, x, y, lines, n - 1),
            x,
            y + (n - 1) * 24,
            lines[n - 1],
            COLOR_TEXT,
            TextRole::Ui,
        )
    }
}

/// The dialog that says something, with its corner at `x` and `y`: four lines
/// at most.
pub open spec fn info_drawn(
    s: Seq<Mark>,
    x: int,
    y: int,
    height: int,
    title: Seq<char>,
    message: Seq<char>,
) -> Seq<Mark> {
    let lines = text_lines(message, 0, 4);
    written(
        lines_drawn(
            written(s, x + 16, y + 12, title, COLOR_TEXT, TextRole::Ui),
            x + 16,
            y + 48,
            lines,
            lines.len() as int,
        ),
        x + 16,
        y + height - 34,
        "Enter/Esc: Close"@,
        COLOR_TEXT,
        TextRole::Ui,
    )
}

proof fn lemma_text_lines(text: Seq<char>, i: int, n: int)
    requires
        0 <= n,
    ensures
        text_lines(text, i, n).len() <= n,
    decreases n,
{
    if n > 0 && i < text.len() {
        lemma_text_lines(text, text_line_end(text, i) + 1, n - 1);
    }
}

fn draw_info(sketch: &mut Sketch, x: usize, y: usize, height: usize, title: &str, message: &str)
    requires
        x + 200 <= usize::MAX,
        y + 200 <= usize::MAX,
        34 <= height <= 200,
    ensures
        final(sketch)@ == info_drawn(
            old(sketch)@,
            x as int,
            y as int,
            height as int,
            title@,
            message@,
        ),
{
    sketch.text(x + 16, y + 12, title, COLOR_TEXT, TextRole::Ui);
    let ghost titled = sketch@;
    let lines = first_lines(message, 4);
    proof {
        lemma_text_lines(message@, 0, 4);
    }
    let ghost all = texts(lines@);
    let mut i: usize = 0;
    while i < lines.len()
        invariant
            x + 200 <= usize::MAX,
            y + 200 <= usize::MAX,
            i <= lines@.len() <= 4,
            all == texts(lines@),
            sketch@ == lines_drawn(titled, x + 16, y + 48, all, i as int),
        decreases lines@.len() - i,
    {
        assert(all[i as int] == lines@[i as int]@);
        sketch.text(x + 16, y + 48 + i * 24, lines[i].as_str(), COLOR_TEXT, TextRole::Ui);
        i += 1;
    }
    assert(all.len() == lines@.len());
    sketch.text(x + 16, y + height - 34, "Enter/Esc: Close", COLOR_TEXT, TextRole::Ui);
}

/// A dialog on a canvas of a given size.
pub open spec fn dialog_drawn(
    s: Seq<Mark>,
    ruler: RulerModel,
    m: DialogModel,
    canvas_width: int,
    canvas_height: int,
) -> Seq<Mark> {
    let width = less(430, rest(canvas_width, 40));
    let height = if m is Replace {
        180int
    } else {
        160int
    };
    let x = rest(canvas_width, width) / 2;
    let y = rest(canvas_height, height) / 2;
    let boxed = framed(
        filled(
            filled(s, x + 4, y + 4, width, height, 0x00909090),
            x,
            y,
            width,
            height,
            COLOR_DROPDOWN,
        ),
        x,
        y,
        width,
        height,
        COLOR_BORDER,
    );
    match m {
        DialogModel::Replace { query, replacement, active_field, match_case } => replace_drawn(
            boxed,
            x,
            y,
            width,
            query,
            replacement,
            active_field,
            match_case,
        ),
        DialogModel::GoTo { line, replace_on_input } => go_to_drawn(
            s,
            ruler,
            line,
            replace_on_input,
        ),
        DialogModel::Info { title, message } => info_drawn(boxed, x, y, height, title, message),
    }
}

/// Draws a dialog on a canvas of a given size.
pub fn draw_dialog(
    sketch: &mut Sketch,
    dialog: &DialogState,
    ruler: &Ruler,
    canvas_width: usize,
    canvas_height: usize,
)
    requires
        dialog@ is Replace ==> canvas_width >= 168,
    ensures
        final(sketch)@ == dialog_drawn(
            old(sketch)@,
            ruler@,
            dialog@,
            canvas_width as int,
            canvas_height as int,
        ),
{
    if let DialogState::GoTo { line, replace_on_input } = dialog {
        draw_go_to_dialog(sketch, ruler, line.as_str(), *replace_on_input);
        return;
    }
    let width: usize = smaller_of(430, canvas_width.saturating_sub(40));
    let height: usize = match dialog {
        DialogState::Replace { .. } => 180,
        _ => 160,
    };
    let x: usize = canvas_width.saturating_sub(width) / 2;
    let y: usize = canvas_height.saturating_sub(height) / 2;
    sketch.fill_rect(x + 4, y + 4, width, height, 0x00909090);
    sketch.fill_rect(x, y, width, height, COLOR_DROPDOWN);
    sketch.rect(x, y, width, height, COLOR_BORDER);
    match dialog {
        DialogState::Replace { query, replacement, active_field, match_case } => {
            draw_replace(
                sketch,
                x,
                y,
                width,
                query.as_str(),
                replacement.as_str(),
                *active_field,
                *match_case,
            );
        },
        DialogState::GoTo { .. } => {},
        DialogState::Info { title, message } => {
            draw_info(sketch, x, y, height, title.as_str(), message.as_str());
        },
    }
}

/// Draws a dialog in its own window.
pub fn render_dialog_window(dialog: &DialogState, ruler: &Ruler) -> (sketch: Sketch)
    ensures
        sketch@ == ({
            let (width, height) = match dialog@ {
                DialogModel::Replace { .. } => (470int, 220int),
                DialogModel::GoTo { .. } => (250int, 100int),
                DialogModel::Info { .. } => (470int, 210int),
            };
            dialog_drawn(Seq::empty(), ruler@, dialog@, width, height)
        }),
{
    let (width, height) = dialog_window_size(dialog);
    let mut sketch = Sketch::new();
    draw_dialog(&mut sketch, dialog, ruler, width, height);
    sketch
}

} // verus!

//! The menus as they are laid out: headings, rows and what a point hits.

use crate::app::{selection_bytes, AppModel, BlitzApp};
use crate::document::caret_error;
use crate::ruler::{measured, saturated, Ruler, RulerModel, TextRole};
use crate::scroll::{dropdown_top, greater, greater_of, menu_top, MENU_HEIGHT};
use crate::ui::{
    item_model, items_model, menu_flags, menu_model, submenu_model, two_levels, ItemModel, MenuFlags,
    MenuItem, NotepadUiState,
};
use vstd::prelude::*;

verus! {

pub const MENU_ITEM_HEIGHT: usize = 26;

pub const MENU_SEPARATOR_HEIGHT: usize = 7;

/// How far a menu under a menu is indented.
pub const MENU_INDENT: usize = 18;

#[derive(Clone, Copy, Debug, PartialEq, Eq)]
pub struct MenuTitle {
    pub index: usize,
    pub label: &'static str,
    pub x: usize,
    pub width: usize,
}

#[derive(Clone, Copy, Debug, PartialEq, Eq)]
pub struct MenuRow {
    pub label: &'static str,
    pub shortcut: Option<&'static str>,
    pub enabled: bool,
    pub checked: bool,
    pub separator_before: bool,
    pub indent: usize,
    pub has_children: bool,
}

#[derive(Clone, Copy, Debug, PartialEq, Eq, Structural)]
pub struct MenuMetrics {
    pub width: usize,
    pub height: usize,
    pub shortcut_x: usize,
}

// ---------------------------------------------------------------------------
// Headings
// ---------------------------------------------------------------------------

/// The headings of the menu bar.
pub open spec fn heading(i: int) -> Seq<char> {
    if i == 0 {
        "File"@
    } else if i == 1 {
        "Edit"@
    } else if i == 2 {
        "Format"@
    } else if i == 3 {
        "View"@
    } else {
        "Help"@
    }
}

/// How many menus there are.
pub const MENU_COUNT: usize = 5;

pub fn menu_label(index: usize) -> (label: &'static str)
    requires
        index < MENU_COUNT,
    ensures
        label@ == heading(index as int),
{
    if index == 0 {
        "File"
    } else if index == 1 {
        "Edit"
    } else if index == 2 {
        "Format"
    } else if index == 3 {
        "View"
    } else {
        "Help"
    }
}

pub open spec fn title_width(ruler: RulerModel, i: int) -> int {
    saturated(measured(ruler, TextRole::Ui, heading(i)) + 20)
}

pub open spec fn title_x(ruler: RulerModel, i: int) -> int
    decreases i,
{
    if i <= 0 {
        4
    } else {
        saturated(title_x(ruler, i - 1) + title_width(ruler, i - 1))
    }
}

pub open spec fn is_title(title: MenuTitle, ruler: RulerModel, i: int) -> bool {
    &&& title.index == i
    &&& title.label@ == heading(i)
    &&& title.x == title_x(ruler, i)
    &&& title.width == title_width(ruler, i)
}

pub open spec fn are_titles(titles: Seq<MenuTitle>, ruler: RulerModel) -> bool {
    &&& titles.len() == MENU_COUNT
    &&& forall|i: int| 0 <= i < titles.len() ==> is_title(#[trigger] titles[i], ruler, i)
}

/// The headings, side by side.
pub fn menu_titles(ruler: &Ruler) -> (titles: Vec<MenuTitle>)
    ensures
        are_titles(titles@, ruler@),
{
    let mut titles: Vec<MenuTitle> = Vec::new();
    let mut x: usize = 4;
    let mut index: usize = 0;
    while index < MENU_COUNT
        invariant
            index <= MENU_COUNT,
            titles@.len() == index,
            x == title_x(ruler@, index as int),
            forall|i: int| 0 <= i < titles@.len() ==> is_title(#[trigger] titles@[i], ruler@, i),
        decreases MENU_COUNT - index,
    {
        let label = menu_label(index);
        let width: usize = ruler.measure(label, TextRole::Ui).saturating_add(20);
        titles.push(MenuTitle { index, label, x, width });
        x = x.saturating_add(width);
        index += 1;
    }
    titles
}

/// The first heading from `i` on that a point `x` lies on.
pub open spec fn heading_at(ruler: RulerModel, x: int, i: int) -> Option<int>
    decreases MENU_COUNT - i,
{
    if i >= MENU_COUNT {
        None
    } else if title_x(ruler, i) <= x < title_x(ruler, i) + title_width(ruler, i) {
        Some(i)
    } else {
        heading_at(ruler, x, i + 1)
    }
}

pub fn menu_title_hit(ruler: &Ruler, x: usize, y: usize) -> (hit: Option<usize>)
    ensures
        hit == (match heading_at(ruler@, x as int, 0) {
            Some(i) => if y < MENU_HEIGHT {
                Some(i as usize)
            } else {
                None
            },
            None => None,
        }),
        hit matches Some(i) ==> i < MENU_COUNT,
{
    if y < menu_top() || y >= menu_top() + MENU_HEIGHT {
        return None;
    }
    let titles = menu_titles(ruler);
    let mut i: usize = 0;
    while i < titles.len()
        invariant
            are_titles(titles@, ruler@),
            i <= titles@.len(),
            heading_at(ruler@, x as int, 0) == heading_at(ruler@, x as int, i as int),
            y < MENU_HEIGHT,
        decreases titles@.len() - i,
    {
        let title = titles[i];
        if x >= title.x && x - title.x < title.width {
            return Some(i);
        }
        i += 1;
    }
    None
}

// ---------------------------------------------------------------------------
// Rows
// ---------------------------------------------------------------------------

/// A row of a menu as a mathematical value.
pub struct RowModel {
    pub label: Seq<char>,
    pub shortcut: Option<Seq<char>>,
    pub enabled: bool,
    pub checked: bool,
    pub separator_before: bool,
    pub indent: int,
    pub has_children: bool,
}

pub open spec fn row_model(row: MenuRow) -> RowModel {
    RowModel {
        label: row.label@,
        shortcut: match row.shortcut {
            Some(shortcut) => Some(shortcut@),
            None => None,
        },
        enabled: row.enabled,
        checked: row.checked,
        separator_before: row.separator_before,
        indent: row.indent as int,
        has_children: row.has_children,
    }
}

pub open spec fn rows_model(rows: Seq<MenuRow>) -> Seq<RowModel> {
    Seq::new(rows.len(), |i: int| row_model(rows[i]))
}

/// The row of an item.
pub open spec fn row_of(
    item: ItemModel,
    indent: int,
    separator_before: bool,
    has_children: bool,
) -> RowModel {
    RowModel {
        label: item.label,
        shortcut: item.shortcut,
        enabled: item.enabled,
        checked: item.checked,
        separator_before,
        indent,
        has_children,
    }
}

/// A line separates what follows `items` from them.
pub open spec fn separated_after(items: Seq<MenuItem>, before: bool) -> bool {
    if items.len() == 0 {
        before
    } else {
        items.last().separator_after
    }
}

/// The rows of items and of the menus under them.
pub open spec fn item_rows(items: Seq<MenuItem>, indent: int, separator_before: bool) -> Seq<RowModel>
    decreases items,
{
    if items.len() == 0 {
        Seq::empty()
    } else {
        let front = items.drop_last();
        let item = items.last();
        item_rows(front, indent, separator_before).push(
            row_of(
                item_model(item),
                indent,
                separated_after(front, separator_before),
                item.children@.len() > 0,
            ),
        ) + item_rows(item.children@, saturated(indent + MENU_INDENT), false)
    }
}

/// Appends the rows of items. The answer says whether a line follows.
fn append_menu_items(
    rows: &mut Vec<MenuRow>,
    items: &Vec<MenuItem>,
    indent: usize,
    separator_before: bool,
) -> (separator: bool)
    ensures
        rows_model(final(rows)@) == rows_model(old(rows)@) + item_rows(
            items@,
            indent as int,
            separator_before,
        ),
        separator == separated_after(items@, separator_before),
    decreases items,
{
    let mut separator = separator_before;
    let mut i: usize = 0;
    assert(items@.take(0) =~= Seq::empty());
    assert(rows_model(rows@) =~= rows_model(rows@) + Seq::<RowModel>::empty());
    while i < items.len()
        invariant
            i <= items@.len(),
            separator == separated_after(items@.take(i as int), separator_before),
            rows_model(rows@) == rows_model(old(rows)@) + item_rows(
                items@.take(i as int),
                indent as int,
                separator_before,
            ),
        decreases items@.len() - i,
    {
        let item = &items[i];
        let ghost before = rows@;
        let ghost taken = items@.take(i + 1);
        rows.push(
            MenuRow {
                label: item.label,
                shortcut: item.shortcut,
                enabled: item.enabled,
                checked: item.checked,
                separator_before: separator,
                indent,
                has_children: item.children.len() > 0,
            },
        );
        proof {
            assert(taken.drop_last() =~= items@.take(i as int));
            assert(taken.last() == items@[i as int]);
            assert(rows_model(rows@) =~= rows_model(before).push(row_model(rows@.last())));
        }
        let ghost with_row = rows@;
        if item.children.len() > 0 {
            append_menu_items(rows, &item.children, indent.saturating_add(MENU_INDENT), false);
        } else {
            assert(item.children@ =~= Seq::empty());
            assert(rows_model(rows@) =~= rows_model(with_row) + item_rows(
                item.children@,
                saturated(indent + MENU_INDENT),
                false,
            ));
        }
        separator = item.separator_after;
        i += 1;
        proof {
            assert(rows_model(rows@) =~= rows_model(old(rows)@) + item_rows(
                items@.take(i as int),
                indent as int,
                separator_before,
            ));
        }
    }
    assert(items@.take(i as int) =~= items@);
    separator
}

/// The rows of a menu without menus under it.
pub open spec fn plain_rows(items: Seq<ItemModel>, indent: int) -> Seq<RowModel> {
    Seq::new(
        items.len(),
        |i: int| row_of(items[i], indent, i > 0 && items[i - 1].separator_after, false),
    )
}

/// The rows of the first `n` items under a heading, each followed by those of
/// the menu under it.
pub open spec fn menu_rows_of(items: Seq<ItemModel>, top_menu: Seq<char>, n: int) -> Seq<RowModel>
    decreases n,
{
    if n <= 0 {
        Seq::empty()
    } else {
        menu_rows_of(items, top_menu, n - 1).push(
            row_of(
                items[n - 1],
                0,
                n > 1 && items[n - 2].separator_after,
                submenu_model(top_menu, n - 1).len() > 0,
            ),
        ) + plain_rows(submenu_model(top_menu, n - 1), MENU_INDENT as int)
    }
}

proof fn lemma_plain_rows(items: Seq<MenuItem>, indent: int)
    requires
        forall|i: int| 0 <= i < items.len() ==> (#[trigger] items[i]).children@.len() == 0,
    ensures
        item_rows(items, indent, false) == plain_rows(items_model(items), indent),
    decreases items.len(),
{
    if items.len() > 0 {
        let front = items.drop_last();
        let n = items.len() - 1;
        assert forall|i: int| 0 <= i < front.len() implies (
        #[trigger] front[i]).children@.len() == 0 by {
            assert(front[i] == items[i]);
        }
        lemma_plain_rows(front, indent);
        assert(items[n].children@.len() == 0);
        assert(item_rows(items.last().children@, saturated(indent + MENU_INDENT), false)
            =~= Seq::<RowModel>::empty());
        let models = items_model(items);
        assert(items_model(front) =~= models.take(n));
        if n > 0 {
            assert(front.last() == items[n - 1]);
            assert(models[n - 1] == item_model(items[n - 1]));
        }
        assert(models[n] == item_model(items[n]));
        assert(separated_after(front, false) == (n > 0 && models[n - 1].separator_after));
        assert forall|i: int| 0 <= i < n implies #[trigger] plain_rows(models.take(n), indent)[i]
            == plain_rows(models, indent)[i] by {
            assert(models.take(n)[i] == models[i]);
            if i > 0 {
                assert(models.take(n)[i - 1] == models[i - 1]);
            }
        }
        assert(item_rows(items, indent, false) =~= plain_rows(models, indent));
    } else {
        assert(item_rows(items, indent, false) =~= plain_rows(items_model(items), indent));
    }
}

proof fn lemma_menu_rows(items: Seq<MenuItem>, top_menu: Seq<char>, n: int)
    requires
        0 <= n <= items.len(),
        two_levels(items),
        forall|i: int|
            0 <= i < items.len() ==> items_model((#[trigger] items[i]).children@)
                == submenu_model(top_menu, i),
    ensures
        item_rows(items.take(n), 0, false) == menu_rows_of(items_model(items), top_menu, n),
    decreases n,
{
    if n > 0 {
        let taken = items.take(n);
        let front = taken.drop_last();
        let item = items[n - 1];
        lemma_menu_rows(items, top_menu, n - 1);
        assert(front =~= items.take(n - 1));
        assert(taken.last() == item);
        assert forall|j: int| 0 <= j < item.children@.len() implies (
        #[trigger] item.children@[j]).children@.len() == 0 by {
            assert(items[n - 1].children@[j].children@.len() == 0);
        }
        lemma_plain_rows(item.children@, MENU_INDENT as int);
        assert(items_model(item.children@) == submenu_model(top_menu, n - 1));
        assert(items_model(item.children@).len() == item.children@.len());
        assert(items_model(items)[n - 1] == item_model(item));
        if n > 1 {
            assert(front.last() == items[n - 2]);
            assert(items_model(items)[n - 2] == item_model(items[n - 2]));
        }
    } else {
        assert(items.take(0) =~= Seq::empty());
        assert(item_rows(items.take(0), 0, false) =~= menu_rows_of(items_model(items), top_menu, 0));
    }
}

/// The rows of the menu under a heading.
pub open spec fn shown_rows(flags: MenuFlags, menu_index: int) -> Seq<RowModel> {
    match menu_model(flags, heading(menu_index)) {
        Some(items) => menu_rows_of(items, heading(menu_index), items.len() as int),
        None => Seq::empty(),
    }
}

/// What the menus of the editor depend on.
pub open spec fn app_flags(m: AppModel) -> MenuFlags {
    MenuFlags {
        undo_available: m.document.undo.len() > 0,
        has_selection: selection_bytes(m) > 0,
        can_delete_forward: m.caret < m.document.bytes.len(),
        clipboard_has_text: m.clipboard_has_text,
        word_wrap: m.settings.word_wrap,
        status_bar_visible: m.settings.status_bar_visible,
    }
}

/// The rows of a menu of the editor; none where the caret is at no position.
pub open spec fn app_rows(m: AppModel, menu_index: int) -> Seq<RowModel> {
    if caret_error(m.document, m.caret) is Some {
        Seq::empty()
    } else {
        shown_rows(app_flags(m), menu_index)
    }
}

/// The rows of the menu under a heading.
pub fn menu_rows(app: &BlitzApp, menu_index: usize) -> (rows: Vec<MenuRow>)
    requires
        app.wf(),
        menu_index < MENU_COUNT,
    ensures
        rows_model(rows@) == app_rows(app@, menu_index as int),
{
    let state = match app.ui_state() {
        Ok(state) => state,
        Err(_) => {
            let none: Vec<MenuRow> = Vec::new();
            assert(rows_model(none@) =~= Seq::empty());
            return none;
        },
    };
    assert(menu_flags(state) == app_flags(app@));
    rows_for_state(&state, menu_index)
}

/// The rows of the menu under a heading.
pub fn rows_for_state(state: &NotepadUiState, menu_index: usize) -> (rows: Vec<MenuRow>)
    requires
        menu_index < MENU_COUNT,
    ensures
        rows_model(rows@) == shown_rows(menu_flags(*state), menu_index as int),
{
    let mut rows: Vec<MenuRow> = Vec::new();
    let label = menu_label(menu_index);
    assert(rows_model(rows@) =~= Seq::empty());
    match state.menu(label) {
        Some(items) => {
            append_menu_items(&mut rows, &items, 0, false);
            proof {
                lemma_menu_rows(items@, label@, items@.len() as int);
                assert(items@.take(items@.len() as int) =~= items@);
                assert(items_model(items@).len() == items@.len());
                assert(rows_model(rows@) =~= item_rows(items@, 0, false));
            }
        },
        None => {},
    }
    rows
}

// ---------------------------------------------------------------------------
// Layout
// ---------------------------------------------------------------------------

pub open spec fn label_width(ruler: RulerModel, row: RowModel) -> int {
    saturated(measured(ruler, TextRole::Ui, row.label) + row.indent)
}

/// The width of the widest label of the first `n` rows.
pub open spec fn widest_label(ruler: RulerModel, rows: Seq<RowModel>, n: int) -> int
    decreases n,
{
    if n <= 0 {
        0
    } else {
        greater(widest_label(ruler, rows, n - 1), label_width(ruler, rows[n - 1]))
    }
}

/// The width of the widest shortcut of the first `n` rows.
pub open spec fn widest_shortcut(ruler: RulerModel, rows: Seq<RowModel>, n: int) -> int
    decreases n,
{
    if n <= 0 {
        0
    } else {
        match rows[n - 1].shortcut {
            Some(shortcut) => greater(
                widest_shortcut(ruler, rows, n - 1),
                measured(ruler, TextRole::Ui, shortcut),
            ),
            None => widest_shortcut(ruler, rows, n - 1),
        }
    }
}

/// The height of a row with the line before it.
pub open spec fn row_height(row: RowModel) -> int {
    if row.separator_before {
        MENU_ITEM_HEIGHT + MENU_SEPARATOR_HEIGHT
    } else {
        MENU_ITEM_HEIGHT as int
    }
}

/// The end of the first `n` rows below `top`.
pub open spec fn rows_bottom(rows: Seq<RowModel>, top: int, n: int) -> int
    decreases n,
{
    if n <= 0 {
        top
    } else {
        saturated(rows_bottom(rows, top, n - 1) + row_height(rows[n - 1]))
    }
}

/// The top of a row, below the line before it.
pub open spec fn row_top(rows: Seq<RowModel>, top: int, i: int) -> int {
    let above = rows_bottom(rows, top, i);
    if rows[i].separator_before {
        saturated(above + MENU_SEPARATOR_HEIGHT)
    } else {
        above
    }
}

pub open spec fn shortcut_column(ruler: RulerModel, rows: Seq<RowModel>) -> int {
    let label = if rows.len() == 0 {
        100
    } else {
        widest_label(ruler, rows, rows.len() as int)
    };
    saturated(label + 74)
}

/// The width of an open menu.
pub open spec fn menu_width(ruler: RulerModel, rows: Seq<RowModel>) -> int {
    greater(
        saturated(
            saturated(
                shortcut_column(ruler, rows) + widest_shortcut(ruler, rows, rows.len() as int),
            ) + 18,
        ),
        180,
    )
}

/// The size of an open menu.
pub open spec fn is_menu_metrics(metrics: MenuMetrics, ruler: RulerModel, rows: Seq<RowModel>) -> bool {
    let n = rows.len() as int;
    &&& metrics.shortcut_x == shortcut_column(ruler, rows)
    &&& metrics.width == menu_width(ruler, rows)
    &&& metrics.height == saturated(rows_bottom(rows, 0, n) + 8)
}

pub fn menu_metrics(ruler: &Ruler, rows: &Vec<MenuRow>) -> (metrics: MenuMetrics)
    ensures
        is_menu_metrics(metrics, ruler@, rows_model(rows@)),
{
    let ghost models = rows_model(rows@);
    let mut max_label: usize = 0;
    let mut max_shortcut: usize = 0;
    let mut height: usize = 0;
    let mut i: usize = 0;
    while i < rows.len()
        invariant
            models == rows_model(rows@),
            i <= rows@.len(),
            max_label == widest_label(ruler@, models, i as int),
            max_shortcut == widest_shortcut(ruler@, models, i as int),
            height == rows_bottom(models, 0, i as int),
        decreases rows@.len() - i,
    {
        let row = rows[i];
        assert(models[i as int] == row_model(row));
        max_label = greater_of(
            max_label,
            ruler.measure(row.label, TextRole::Ui).saturating_add(row.indent),
        );
        if let Some(shortcut) = row.shortcut {
            max_shortcut = greater_of(max_shortcut, ruler.measure(shortcut, TextRole::Ui));
        }
        height = height.saturating_add(
            if row.separator_before {
                MENU_ITEM_HEIGHT + MENU_SEPARATOR_HEIGHT
            } else {
                MENU_ITEM_HEIGHT
            },
        );
        i += 1;
    }
    if rows.len() == 0 {
        max_label = 100;
    }
    let shortcut_x: usize = max_label.saturating_add(74);
    MenuMetrics {
        width: greater_of(shortcut_x.saturating_add(max_shortcut).saturating_add(18), 180),
        height: height.saturating_add(8),
        shortcut_x,
    }
}

/// The first row from `i` on that a point `y` lies on.
pub open spec fn row_at(rows: Seq<RowModel>, top: int, y: int, i: int) -> Option<int>
    decreases rows.len() - i,
{
    if i >= rows.len() {
        None
    } else if row_top(rows, top, i) <= y < row_top(rows, top, i) + MENU_ITEM_HEIGHT {
        Some(i)
    } else {
        row_at(rows, top, y, i + 1)
    }
}

/// The row of an open menu that a point lies on.
pub open spec fn row_hit(
    ruler: RulerModel,
    rows: Seq<RowModel>,
    menu_index: int,
    x: int,
    y: int,
) -> Option<int> {
    let left = title_x(ruler, menu_index);
    if left <= x < left + menu_width(ruler, rows) && y >= MENU_HEIGHT {
        row_at(rows, MENU_HEIGHT + 4, y, 0)
    } else {
        None
    }
}

/// The row of an open menu that a point lies on.
pub fn hit_row(
    ruler: &Ruler,
    rows: &Vec<MenuRow>,
    menu_index: usize,
    x: usize,
    y: usize,
) -> (hit: Option<usize>)
    requires
        menu_index < MENU_COUNT,
    ensures
        crate::search::opt_int(hit) == row_hit(
            ruler@,
            rows_model(rows@),
            menu_index as int,
            x as int,
            y as int,
        ),
        hit matches Some(i) ==> i < rows@.len(),
{
    let titles = menu_titles(ruler);
    let left: usize = titles[menu_index].x;
    let metrics = menu_metrics(ruler, rows);
    assert(is_title(titles@[menu_index as int], ruler@, menu_index as int));
    assert(is_menu_metrics(metrics, ruler@, rows_model(rows@)));
    if x < left || x - left >= metrics.width || y < dropdown_top() {
        return None;
    }
    let ghost models = rows_model(rows@);
    let mut row_y: usize = dropdown_top() + 4;
    let mut i: usize = 0;
    while i < rows.len()
        invariant
            models == rows_model(rows@),
            is_menu_metrics(metrics, ruler@, models),
            left == title_x(ruler@, menu_index as int),
            left <= x < left + metrics.width,
            y >= MENU_HEIGHT,
            i <= rows@.len(),
            row_y == rows_bottom(models, MENU_HEIGHT + 4, i as int),
            row_at(models, MENU_HEIGHT + 4, y as int, 0) == row_at(
                models,
                MENU_HEIGHT + 4,
                y as int,
                i as int,
            ),
        decreases rows@.len() - i,
    {
        let row = rows[i];
        assert(models[i as int] == row_model(row));
        let top: usize = if row.separator_before {
            row_y.saturating_add(MENU_SEPARATOR_HEIGHT)
        } else {
            row_y
        };
        if y >= top && y - top < MENU_ITEM_HEIGHT {
            return Some(i);
        }
        row_y = top.saturating_add(MENU_ITEM_HEIGHT);
        i += 1;
    }
    None
}

/// The row of the editor's open menu that a point lies on.
pub fn menu_row_hit(app: &BlitzApp, ruler: &Ruler, menu_index: usize, x: usize, y: usize) -> (row:
    Option<MenuRow>)
    requires
        app.wf(),
        menu_index < MENU_COUNT,
    ensures
        ({
            let rows = app_rows(app@, menu_index as int);
            match row_hit(ruler@, rows, menu_index as int, x as int, y as int) {
                Some(i) => row is Some && row_model(row->0) == rows[i],
                None => row is None,
            }
        }),
{
    let rows = menu_rows(app, menu_index);
    match hit_row(ruler, &rows, menu_index, x, y) {
        Some(i) => Some(rows[i]),
        None => None,
    }
}

} // verus!

//! What the window says: title, status bar and menus.

use crate::encoding::{encoding_label, TextEncoding};
use crate::line_index::{ending_label, LineEnding};
use crate::settings::{style_label, EditorSettings, FontStyle};
use crate::text::{decimal, join, joined_text, owned, push_decimal, same_text, texts};
use vstd::prelude::*;

verus! {

pub const APP_TITLE_SUFFIX: &'static str = "Notepad";

pub const MENU_BAR: [&'static str; 5] = ["File", "Edit", "Format", "View", "Help"];

#[derive(Debug, Eq, PartialEq)]
pub struct NotepadUiState {
    pub file_name: String,
    pub dirty: bool,
    pub caret_line: usize,
    pub caret_column: usize,
    pub zoom_percent: u16,
    pub line_ending: LineEnding,
    pub encoding: TextEncoding,
    pub selection_bytes: usize,
    pub can_delete_forward: bool,
    pub undo_available: bool,
    pub clipboard_has_text: bool,
    pub word_wrap: bool,
    pub status_bar_visible: bool,
}

#[derive(Debug, Eq, PartialEq)]
pub struct MenuItem {
    pub label: &'static str,
    pub shortcut: Option<&'static str>,
    pub enabled: bool,
    pub checked: bool,
    pub separator_after: bool,
    pub children: Vec<MenuItem>,
}

/// A menu item as a mathematical value, without its children.
pub struct ItemModel {
    pub label: Seq<char>,
    pub shortcut: Option<Seq<char>>,
    pub enabled: bool,
    pub checked: bool,
    pub separator_after: bool,
}

pub open spec fn item_model(item: MenuItem) -> ItemModel {
    ItemModel {
        label: item.label@,
        shortcut: match item.shortcut {
            Some(shortcut) => Some(shortcut@),
            None => None,
        },
        enabled: item.enabled,
        checked: item.checked,
        separator_after: item.separator_after,
    }
}

pub open spec fn items_model(items: Seq<MenuItem>) -> Seq<ItemModel> {
    Seq::new(items.len(), |i: int| item_model(items[i]))
}

pub open spec fn command_model(label: Seq<char>, shortcut: Option<Seq<char>>) -> ItemModel {
    ItemModel { label, shortcut, enabled: true, checked: false, separator_after: false }
}

/// The File menu.
pub open spec fn file_menu_model() -> Seq<ItemModel> {
    seq![
        command_model("New"@, Some("Ctrl+N"@)),
        command_model("New Window"@, Some("Ctrl+Shift+N"@)),
        command_model("Open..."@, Some("Ctrl+O"@)),
        command_model("Save"@, Some("Ctrl+S"@)),
        ItemModel { separator_after: true, ..command_model("Save As..."@, Some("Ctrl+Shift+S"@)) },
        command_model("Page Setup..."@, None),
        ItemModel { separator_after: true, ..command_model("Print..."@, Some("Ctrl+P"@)) },
        command_model("Exit"@, None),
    ]
}

/// What the menus depend on.
pub struct MenuFlags {
    pub undo_available: bool,
    pub has_selection: bool,
    pub can_delete_forward: bool,
    pub clipboard_has_text: bool,
    pub word_wrap: bool,
    pub status_bar_visible: bool,
}

pub open spec fn menu_flags(s: NotepadUiState) -> MenuFlags {
    MenuFlags {
        undo_available: s.undo_available,
        has_selection: s.selection_bytes > 0,
        can_delete_forward: s.can_delete_forward,
        clipboard_has_text: s.clipboard_has_text,
        word_wrap: s.word_wrap,
        status_bar_visible: s.status_bar_visible,
    }
}

/// The Edit menu: items that have nothing to work on are disabled.
pub open spec fn edit_menu_model(s: MenuFlags) -> Seq<ItemModel> {
    seq![
        ItemModel { enabled: s.undo_available, separator_after: true, ..command_model("Undo"@, Some("Ctrl+Z"@)) },
        ItemModel { enabled: s.has_selection, ..command_model("Cut"@, Some("Ctrl+X"@)) },
        ItemModel { enabled: s.has_selection, ..command_model("Copy"@, Some("Ctrl+C"@)) },
        ItemModel { enabled: s.clipboard_has_text, ..command_model("Paste"@, Some("Ctrl+V"@)) },
        ItemModel { enabled: s.has_selection || s.can_delete_forward, separator_after: true, ..command_model("Delete"@, Some("Del"@)) },
        ItemModel { enabled: s.has_selection, separator_after: true, ..command_model("Search with Bing..."@, Some("Ctrl+E"@)) },
        command_model("Find..."@, Some("Ctrl+F"@)),
        command_model("Find Next"@, Some("F3"@)),
        command_model("Find Previous"@, Some("Shift+F3"@)),
        command_model("Replace..."@, Some("Ctrl+H"@)),
        ItemModel { enabled: !s.word_wrap, separator_after: true, ..command_model("Go To..."@, Some("Ctrl+G"@)) },
        command_model("Select All"@, Some("Ctrl+A"@)),
        command_model("Time/Date"@, Some("F5"@)),
    ]
}

/// The Format menu.
pub open spec fn format_menu_model(s: MenuFlags) -> Seq<ItemModel> {
    seq![
        ItemModel { checked: s.word_wrap, ..command_model("Word Wrap"@, None) },
        command_model("Font..."@, None),
    ]
}

/// The View menu.
pub open spec fn view_menu_model(s: MenuFlags) -> Seq<ItemModel> {
    seq![
        command_model("Zoom"@, None),
        ItemModel { checked: s.status_bar_visible, ..command_model("Status Bar"@, None) },
    ]
}

/// The menu under Zoom.
pub open spec fn zoom_menu_model() -> Seq<ItemModel> {
    seq![
        command_model("Zoom In"@, Some("Ctrl+Plus"@)),
        command_model("Zoom Out"@, Some("Ctrl+Minus"@)),
        command_model("Restore Default Zoom"@, Some("Ctrl+0"@)),
    ]
}

/// The Help menu.
pub open spec fn help_menu_model() -> Seq<ItemModel> {
    seq![
        command_model("View Help"@, None),
        ItemModel { separator_after: true, ..command_model("Send Feedback"@, None) },
        command_model("About Notepad"@, None),
    ]
}

/// The menu under the heading `top_menu`.
pub open spec fn menu_model(s: MenuFlags, top_menu: Seq<char>) -> Option<Seq<ItemModel>> {
    if top_menu == "File"@ {
        Some(file_menu_model())
    } else if top_menu == "Edit"@ {
        Some(edit_menu_model(s))
    } else if top_menu == "Format"@ {
        Some(format_menu_model(s))
    } else if top_menu == "View"@ {
        Some(view_menu_model(s))
    } else if top_menu == "Help"@ {
        Some(help_menu_model())
    } else {
        None
    }
}

/// The menu under item number `i`: only Zoom, the first of the View menu, has
/// one.
pub open spec fn submenu_model(top_menu: Seq<char>, i: int) -> Seq<ItemModel> {
    if top_menu == "View"@ && i == 0 {
        zoom_menu_model()
    } else {
        Seq::empty()
    }
}

/// No menu under a menu has another menu under it.
pub open spec fn two_levels(items: Seq<MenuItem>) -> bool {
    forall|i: int, j: int|
        0 <= i < items.len() && 0 <= j < items[i].children@.len() ==> (
        #[trigger] items[i].children@[j]).children@.len() == 0
}

pub open spec fn title_text(s: NotepadUiState) -> Seq<char> {
    (if s.dirty {
        "*"@
    } else {
        ""@
    }) + s.file_name@ + " - "@ + "Notepad"@
}

pub open spec fn status_texts(s: NotepadUiState) -> Seq<Seq<char>> {
    if s.status_bar_visible {
        seq![
            "Ln "@ + decimal(s.caret_line as int) + ", Col "@ + decimal(s.caret_column as int),
            decimal(s.zoom_percent as int) + "%"@,
            ending_label(s.line_ending),
            encoding_label(s.encoding),
        ]
    } else {
        Seq::empty()
    }
}

impl NotepadUiState {
    /// The window's title: a star before the name marks unsaved changes.
    pub fn title(&self) -> (title: String)
        ensures
            title@ == title_text(*self),
    {
        let mut title = if self.dirty {
            owned("*")
        } else {
            owned("")
        };
        title.append(self.file_name.as_str());
        title.append(" - ");
        title.append(APP_TITLE_SUFFIX);
        title
    }

    /// The cells of the status bar.
    pub fn status_cells(&self) -> (cells: Vec<String>)
        ensures
            texts(cells@) == status_texts(*self),
    {
        let mut cells: Vec<String> = Vec::new();
        if !self.status_bar_visible {
            assert(texts(cells@) =~= status_texts(*self));
            return cells;
        }
        let mut position = owned("Ln ");
        push_decimal(&mut position, self.caret_line);
        position.append(", Col ");
        push_decimal(&mut position, self.caret_column);
        let mut zoom = String::new();
        push_decimal(&mut zoom, self.zoom_percent as usize);
        zoom.append("%");
        assert(zoom@ =~= decimal(self.zoom_percent as int) + "%"@);
        cells.push(position);
        cells.push(zoom);
        cells.push(owned(self.line_ending.label()));
        cells.push(owned(self.encoding.label()));
        assert(texts(cells@) =~= status_texts(*self));
        cells
    }

    /// The items of the menu under `top_menu`.
    pub fn menu(&self, top_menu: &str) -> (menu: Option<Vec<MenuItem>>)
        ensures
            menu is Some <==> menu_model(menu_flags(*self), top_menu@) is Some,
            menu matches Some(items) ==> {
                &&& Some(items_model(items@)) == menu_model(menu_flags(*self), top_menu@)
                &&& forall|i: int|
                    0 <= i < items@.len() ==> items_model((#[trigger] items@[i]).children@)
                        == submenu_model(top_menu@, i)
                &&& two_levels(items@)
            },
    {
        proof {
            reveal_strlit("File");
            reveal_strlit("Edit");
            reveal_strlit("Format");
            reveal_strlit("View");
            reveal_strlit("Help");
            assert("File"@[0] != "View"@[0]);
            assert("Edit"@[0] != "View"@[0]);
            assert("Format"@[0] != "View"@[0]);
            assert("Help"@[0] != "View"@[0]);
        }
        if same_text(top_menu, "File") {
            Some(file_menu())
        } else if same_text(top_menu, "Edit") {
            Some(edit_menu(self))
        } else if same_text(top_menu, "Format") {
            Some(format_menu(self))
        } else if same_text(top_menu, "View") {
            Some(view_menu(self))
        } else if same_text(top_menu, "Help") {
            Some(help_menu())
        } else {
            None
        }
    }

    /// The window in three lines of text: title, menu bar and status bar.
    pub fn shell_snapshot(&self) -> (lines: Vec<String>)
        ensures
            texts(lines@) == seq![
                title_text(*self),
                "File Edit Format View Help"@,
                joined_text(status_texts(*self), " | "@),
            ],
    {
        let mut lines: Vec<String> = Vec::new();
        lines.push(self.title());
        lines.push(owned("File Edit Format View Help"));
        let cells = self.status_cells();
        lines.push(join(&cells, " | "));
        assert(texts(lines@) =~= seq![
            title_text(*self),
            "File Edit Format View Help"@,
            joined_text(status_texts(*self), " | "@),
        ]);
        lines
    }
}

impl MenuItem {
    fn command(label: &'static str, shortcut: Option<&'static str>) -> (item: Self)
        ensures
            item_model(item) == command_model(
                label@,
                match shortcut {
                    Some(shortcut) => Some(shortcut@),
                    None => None,
                },
            ),
            item.label@ == label@,
            item.children@.len() == 0,
    {
        MenuItem {
            label,
            shortcut,
            enabled: true,
            checked: false,
            separator_after: false,
            children: Vec::new(),
        }
    }

    fn disabled(self) -> (item: Self)
        ensures
            item == (MenuItem { enabled: false, ..self }),
    {
        MenuItem { enabled: false, ..self }
    }

    fn checked(self, checked: bool) -> (item: Self)
        ensures
            item == (MenuItem { checked, ..self }),
    {
        MenuItem { checked, ..self }
    }

    fn separator_after(self) -> (item: Self)
        ensures
            item == (MenuItem { separator_after: true, ..self }),
    {
        MenuItem { separator_after: true, ..self }
    }

    fn submenu(label: &'static str, children: Vec<MenuItem>) -> (item: Self)
        ensures
            item_model(item) == command_model(label@, None),
            item.label@ == label@,
            item.children == children,
    {
        MenuItem {
            label,
            shortcut: None,
            enabled: true,
            checked: false,
            separator_after: false,
            children,
        }
    }
}

fn maybe_disabled(item: MenuItem, enabled: bool) -> (result: MenuItem)
    requires
        item.enabled,
    ensures
        result == (MenuItem { enabled, ..item }),
{
    if enabled {
        item
    } else {
        item.disabled()
    }
}

/// No item has a menu of its own.
spec fn all_plain(items: Seq<MenuItem>) -> bool {
    forall|i: int|
        0 <= i < items.len() ==> items_model((#[trigger] items[i]).children@) == Seq::<
            ItemModel,
        >::empty()
}

proof fn lemma_all_plain(items: Seq<MenuItem>)
    requires
        forall|i: int| 0 <= i < items.len() ==> (#[trigger] items[i]).children@.len() == 0,
    ensures
        all_plain(items),
        two_levels(items),
{
    assert forall|i: int| 0 <= i < items.len() implies items_model(
        (#[trigger] items[i]).children@,
    ) == Seq::<ItemModel>::empty() by {
        assert(items[i].children@.len() == 0);
        assert(items_model(items[i].children@) =~= Seq::<ItemModel>::empty());
    }
}

fn file_menu() -> (items: Vec<MenuItem>)
    ensures
        items_model(items@) == file_menu_model(),
        all_plain(items@),
        two_levels(items@),
{
    let mut items: Vec<MenuItem> = Vec::new();
    items.push(MenuItem::command("New", Some("Ctrl+N")));
    items.push(MenuItem::command("New Window", Some("Ctrl+Shift+N")));
    items.push(MenuItem::command("Open...", Some("Ctrl+O")));
    items.push(MenuItem::command("Save", Some("Ctrl+S")));
    items.push(MenuItem::command("Save As...", Some("Ctrl+Shift+S")).separator_after());
    items.push(MenuItem::command("Page Setup...", None));
    items.push(MenuItem::command("Print...", Some("Ctrl+P")).separator_after());
    items.push(MenuItem::command("Exit", None));
    assert(items_model(items@) =~= file_menu_model());
    proof {
        lemma_all_plain(items@);
    }
    items
}

fn edit_menu(state: &NotepadUiState) -> (items: Vec<MenuItem>)
    ensures
        items_model(items@) == edit_menu_model(menu_flags(*state)),
        all_plain(items@),
        two_levels(items@),
{
    let mut items: Vec<MenuItem> = Vec::new();
    items.push(maybe_disabled(MenuItem::command("Undo", Some("Ctrl+Z")), state.undo_available).separator_after());
    items.push(maybe_disabled(MenuItem::command("Cut", Some("Ctrl+X")), state.selection_bytes > 0));
    items.push(maybe_disabled(MenuItem::command("Copy", Some("Ctrl+C")), state.selection_bytes > 0));
    items.push(maybe_disabled(MenuItem::command("Paste", Some("Ctrl+V")), state.clipboard_has_text));
    items.push(maybe_disabled(MenuItem::command("Delete", Some("Del")), state.selection_bytes > 0 || state.can_delete_forward).separator_after());
    items.push(maybe_disabled(MenuItem::command("Search with Bing...", Some("Ctrl+E")), state.selection_bytes > 0).separator_after());
    items.push(MenuItem::command("Find...", Some("Ctrl+F")));
    items.push(MenuItem::command("Find Next", Some("F3")));
    items.push(MenuItem::command("Find Previous", Some("Shift+F3")));
    items.push(MenuItem::command("Replace...", Some("Ctrl+H")));
    items.push(maybe_disabled(MenuItem::command("Go To...", Some("Ctrl+G")), !state.word_wrap).separator_after());
    items.push(MenuItem::command("Select All", Some("Ctrl+A")));
    items.push(MenuItem::command("Time/Date", Some("F5")));
    assert(items_model(items@) =~= edit_menu_model(menu_flags(*state)));
    proof {
        lemma_all_plain(items@);
    }
    items
}

fn format_menu(state: &NotepadUiState) -> (items: Vec<MenuItem>)
    ensures
        items_model(items@) == format_menu_model(menu_flags(*state)),
        all_plain(items@),
        two_levels(items@),
{
    let mut items: Vec<MenuItem> = Vec::new();
    items.push(MenuItem::command("Word Wrap", None).checked(state.word_wrap));
    items.push(MenuItem::command("Font...", None));
    assert(items_model(items@) =~= format_menu_model(menu_flags(*state)));
    proof {
        lemma_all_plain(items@);
    }
    items
}

fn view_menu(state: &NotepadUiState) -> (items: Vec<MenuItem>)
    ensures
        items_model(items@) == view_menu_model(menu_flags(*state)),
        forall|i: int|
            0 <= i < items@.len() ==> items_model((#[trigger] items@[i]).children@)
                == submenu_model("View"@, i),
        two_levels(items@),
{
    let mut items: Vec<MenuItem> = Vec::new();
    items.push(MenuItem::submenu("Zoom", zoom_menu()));
    items.push(MenuItem::command("Status Bar", None).checked(state.status_bar_visible));
    assert(items_model(items@) =~= view_menu_model(menu_flags(*state)));
    assert(items_model(items@[1].children@) =~= Seq::<ItemModel>::empty());
    items
}

fn zoom_menu() -> (items: Vec<MenuItem>)
    ensures
        items_model(items@) == zoom_menu_model(),
        forall|i: int| 0 <= i < items@.len() ==> (#[trigger] items@[i]).children@.len() == 0,
{
    let mut items: Vec<MenuItem> = Vec::new();
    items.push(MenuItem::command("Zoom In", Some("Ctrl+Plus")));
    items.push(MenuItem::command("Zoom Out", Some("Ctrl+Minus")));
    items.push(MenuItem::command("Restore Default Zoom", Some("Ctrl+0")));
    assert(items_model(items@) =~= zoom_menu_model());
    items
}

fn help_menu() -> (items: Vec<MenuItem>)
    ensures
        items_model(items@) == help_menu_model(),
        all_plain(items@),
        two_levels(items@),
{
    let mut items: Vec<MenuItem> = Vec::new();
    items.push(MenuItem::command("View Help", None));
    items.push(MenuItem::command("Send Feedback", None).separator_after());
    items.push(MenuItem::command("About Notepad", None));
    assert(items_model(items@) =~= help_menu_model());
    proof {
        lemma_all_plain(items@);
    }
    items
}

#[derive(Debug, Eq, PartialEq)]
pub struct FontDialogModel {
    pub font: String,
    pub style: FontStyle,
    pub size: u16,
    pub script: String,
    pub sample: &'static str,
    pub styles: Vec<&'static str>,
    pub sizes: Vec<u16>,
}

impl FontDialogModel {
    /// What the font dialog offers and shows as chosen.
    pub fn from_settings(settings: &EditorSettings) -> (model: Self)
        ensures
            model.font@ == settings.font_family@,
            model.style == settings.font_style,
            model.size == settings.font_size,
            model.script@ == settings.script@,
            model.sample@ == "AaBbYyZz"@,
            model.styles@.len() == 4,
            model.styles@[0]@ == style_label(FontStyle::Regular),
            model.styles@[1]@ == style_label(FontStyle::Italic),
            model.styles@[2]@ == style_label(FontStyle::Bold),
            model.styles@[3]@ == style_label(FontStyle::BoldItalic),
            model.sizes@ == seq![
                8u16,
                9,
                10,
                11,
                12,
                14,
                16,
                18,
                20,
                22,
                24,
                26,
                28,
                36,
                48,
                72,
            ],
    {
        let mut styles: Vec<&'static str> = Vec::new();
        styles.push(FontStyle::Regular.label());
        styles.push(FontStyle::Italic.label());
        styles.push(FontStyle::Bold.label());
        styles.push(FontStyle::BoldItalic.label());
        let sizes: Vec<u16> = vec![8, 9, 10, 11, 12, 14, 16, 18, 20, 22, 24, 26, 28, 36, 48, 72];
        assert(sizes@ =~= seq![8u16, 9, 10, 11, 12, 14, 16, 18, 20, 22, 24, 26, 28, 36, 48, 72]);
        FontDialogModel {
            font: settings.font_family.clone(),
            style: settings.font_style,
            size: settings.font_size,
            script: settings.script.clone(),
            sample: "AaBbYyZz",
            styles,
            sizes,
        }
    }
}

/// The state of a window before anything has been saved.
pub fn default_ui_state(settings: &EditorSettings) -> (state: NotepadUiState)
    ensures
        state.file_name@ == "Untitled"@,
        state.dirty,
        state.caret_line == 1,
        state.caret_column == 1,
        state.zoom_percent == settings.zoom_percent,
        state.line_ending == LineEnding::CrLf,
        state.encoding == TextEncoding::Utf8,
        state.selection_bytes == 0,
        !state.can_delete_forward,
        !state.undo_available,
        !state.clipboard_has_text,
        state.word_wrap == settings.word_wrap,
        state.status_bar_visible == settings.status_bar_visible,
{
    NotepadUiState {
        file_name: owned("Untitled"),
        dirty: true,
        caret_line: 1,
        caret_column: 1,
        zoom_percent: settings.zoom_percent,
        line_ending: LineEnding::CrLf,
        encoding: TextEncoding::Utf8,
        selection_bytes: 0,
        can_delete_forward: false,
        undo_available: false,
        clipboard_has_text: false,
        word_wrap: settings.word_wrap,
        status_bar_visible: settings.status_bar_visible,
    }
}

} // verus!

//! The dialogs and the find window: what they hold and how input changes it.

use crate::canvas::Rect;
use crate::input::{is_control, is_control_char, key_char, ascii_find_char_for_key, Key};
use crate::text::{owned, same_text};
use vstd::prelude::*;

verus! {

pub const FIND_WINDOW_WIDTH: usize = 430;

pub const FIND_WINDOW_HEIGHT: usize = 140;

pub const GO_TO_WINDOW_WIDTH: usize = 250;

pub const GO_TO_WINDOW_HEIGHT: usize = 100;

#[verifier::allow_in_spec]
pub fn find_field_rect() -> (rect: Rect)
    returns
        (Rect { x: 118, y: 20, width: 205, height: 24 }),
{
    Rect { x: 118, y: 20, width: 205, height: 24 }
}

#[verifier::allow_in_spec]
pub fn find_next_button_rect() -> (rect: Rect)
    returns
        (Rect { x: 333, y: 20, width: 82, height: 24 }),
{
    Rect { x: 333, y: 20, width: 82, height: 24 }
}

#[verifier::allow_in_spec]
pub fn find_cancel_button_rect() -> (rect: Rect)
    returns
        (Rect { x: 333, y: 52, width: 82, height: 24 }),
{
    Rect { x: 333, y: 52, width: 82, height: 24 }
}

#[verifier::allow_in_spec]
pub fn find_match_case_rect() -> (rect: Rect)
    returns
        (Rect { x: 16, y: 82, width: 130, height: 22 }),
{
    Rect { x: 16, y: 82, width: 130, height: 22 }
}

#[verifier::allow_in_spec]
pub fn find_wrap_rect() -> (rect: Rect)
    returns
        (Rect { x: 16, y: 110, width: 140, height: 22 }),
{
    Rect { x: 16, y: 110, width: 140, height: 22 }
}

#[verifier::allow_in_spec]
pub fn find_up_radio_rect() -> (rect: Rect)
    returns
        (Rect { x: 192, y: 100, width: 48, height: 20 }),
{
    Rect { x: 192, y: 100, width: 48, height: 20 }
}

#[verifier::allow_in_spec]
pub fn find_down_radio_rect() -> (rect: Rect)
    returns
        (Rect { x: 244, y: 100, width: 62, height: 20 }),
{
    Rect { x: 244, y: 100, width: 62, height: 20 }
}

#[verifier::allow_in_spec]
pub fn find_direction_group_rect() -> (rect: Rect)
    returns
        (Rect { x: 172, y: 80, width: 140, height: 50 }),
{
    Rect { x: 172, y: 80, width: 140, height: 50 }
}

#[verifier::allow_in_spec]
pub fn go_to_field_rect() -> (rect: Rect)
    returns
        (Rect { x: 10, y: 29, width: 228, height: 23 }),
{
    Rect { x: 10, y: 29, width: 228, height: 23 }
}

#[verifier::allow_in_spec]
pub fn go_to_accept_button_rect() -> (rect: Rect)
    returns
        (Rect { x: 84, y: 65, width: 73, height: 23 }),
{
    Rect { x: 84, y: 65, width: 73, height: 23 }
}

#[verifier::allow_in_spec]
pub fn go_to_cancel_button_rect() -> (rect: Rect)
    returns
        (Rect { x: 165, y: 65, width: 73, height: 23 }),
{
    Rect { x: 165, y: 65, width: 73, height: 23 }
}

// ---------------------------------------------------------------------------
// Searches
// ---------------------------------------------------------------------------

/// What was searched for last.
#[derive(Clone, Debug, PartialEq, Eq)]
pub struct SearchSpec {
    pub query: String,
    pub match_case: bool,
    pub wrap_around: bool,
}

pub struct SearchModel {
    pub query: Seq<char>,
    pub match_case: bool,
    pub wrap_around: bool,
}

impl View for SearchSpec {
    type V = SearchModel;

    open spec fn view(&self) -> SearchModel {
        SearchModel {
            query: self.query@,
            match_case: self.match_case,
            wrap_around: self.wrap_around,
        }
    }
}

pub open spec fn search_model(search: Option<SearchSpec>) -> Option<SearchModel> {
    match search {
        Some(search) => Some(search@),
        None => None,
    }
}

// ---------------------------------------------------------------------------
// Dialogs
// ---------------------------------------------------------------------------

#[derive(Clone, Copy, Debug, PartialEq, Eq, Structural)]
pub enum ReplaceField {
    Find,
    Replace,
}

#[derive(Clone, Debug, PartialEq, Eq)]
pub enum DialogState {
    Replace {
        query: String,
        replacement: String,
        active_field: ReplaceField,
        match_case: bool,
    },
    GoTo { line: String, replace_on_input: bool },
    Info { title: String, message: String },
}

/// A dialog as a mathematical value.
pub enum DialogModel {
    Replace {
        query: Seq<char>,
        replacement: Seq<char>,
        active_field: ReplaceField,
        match_case: bool,
    },
    GoTo { line: Seq<char>, replace_on_input: bool },
    Info { title: Seq<char>, message: Seq<char> },
}

impl View for DialogState {
    type V = DialogModel;

    open spec fn view(&self) -> DialogModel {
        match *self {
            DialogState::Replace { query, replacement, active_field, match_case } =>
                DialogModel::Replace {
                query: query@,
                replacement: replacement@,
                active_field,
                match_case,
            },
            DialogState::GoTo { line, replace_on_input } => DialogModel::GoTo {
                line: line@,
                replace_on_input,
            },
            DialogState::Info { title, message } => DialogModel::Info {
                title: title@,
                message: message@,
            },
        }
    }
}

pub open spec fn dialog_model(dialog: Option<DialogState>) -> Option<DialogModel> {
    match dialog {
        Some(dialog) => Some(dialog@),
        None => None,
    }
}

pub open spec fn is_digit(c: char) -> bool {
    48 <= c as u32 <= 57
}

fn is_ascii_digit(c: char) -> (is: bool)
    ensures
        is == is_digit(c),
{
    let v: u32 = c as u32;
    48 <= v && v <= 57
}

/// The digits of a text.
pub open spec fn digits_of(text: Seq<char>) -> Seq<char>
    decreases text.len(),
{
    if text.len() == 0 {
        Seq::empty()
    } else if is_digit(text.last()) {
        digits_of(text.drop_last()).push(text.last())
    } else {
        digits_of(text.drop_last())
    }
}

fn only_digits(text: &str) -> (digits: String)
    ensures
        digits@ == digits_of(text@),
{
    let mut digits = String::new();
    for c in iter: text.chars()
        invariant
            iter.seq() == text@,
            digits@ == digits_of(text@.take(iter.index() as int)),
    {
        proof {
            let taken = text@.take(iter.index() + 1);
            assert(taken.drop_last() =~= text@.take(iter.index() as int));
            assert(taken.last() == c);
        }
        if is_ascii_digit(c) {
            digits.push(c);
        }
    }
    assert(text@.take(text@.len() as int) =~= text@);
    digits
}

/// A dialog after text is put into its active field; a line number takes digits
/// only, and the one shown at first gives way.
pub open spec fn text_entered(m: DialogModel, text: Seq<char>) -> DialogModel {
    match m {
        DialogModel::Replace { query, replacement, active_field, match_case } => match active_field {
            ReplaceField::Find => DialogModel::Replace {
                query: query + text,
                replacement,
                active_field,
                match_case,
            },
            ReplaceField::Replace => DialogModel::Replace {
                query,
                replacement: replacement + text,
                active_field,
                match_case,
            },
        },
        DialogModel::GoTo { line, replace_on_input } => if digits_of(text).len() == 0 {
            m
        } else {
            DialogModel::GoTo {
                line: if replace_on_input {
                    digits_of(text)
                } else {
                    line + digits_of(text)
                },
                replace_on_input: false,
            }
        },
        DialogModel::Info { .. } => m,
    }
}

/// Puts a character into the active field.
pub fn append_dialog_character(dialog: &mut DialogState, character: char)
    ensures
        final(dialog)@ == text_entered(old(dialog)@, seq![character]),
{
    proof {
        assert(seq![character].drop_last() =~= Seq::empty());
        reveal_with_fuel(digits_of, 2);
    }
    match dialog {
        DialogState::Replace { query, replacement, active_field, .. } => match *active_field {
            ReplaceField::Find => {
                query.push(character);
                assert(query@ =~= old(dialog)@->Replace_query + seq![character]);
            },
            ReplaceField::Replace => {
                replacement.push(character);
                assert(replacement@ =~= old(dialog)@->Replace_replacement + seq![character]);
            },
        },
        DialogState::GoTo { line, replace_on_input } => {
            if is_ascii_digit(character) {
                if *replace_on_input {
                    *line = String::new();
                    *replace_on_input = false;
                }
                line.push(character);
                assert(digits_of(seq![character]) =~= seq![character]);
                assert(line@ =~= if old(dialog)@->replace_on_input {
                    seq![character]
                } else {
                    old(dialog)@->line + seq![character]
                });
            } else {
                assert(digits_of(seq![character]).len() == 0);
            }
        },
        DialogState::Info { .. } => {},
    }
}

pub open spec fn without_last(text: Seq<char>) -> Seq<char> {
    if text.len() > 0 {
        text.drop_last()
    } else {
        text
    }
}

/// A dialog after the last character of its active field is deleted; the line
/// number shown at first goes as a whole.
pub open spec fn field_shortened(m: DialogModel) -> DialogModel {
    match m {
        DialogModel::Replace { query, replacement, active_field, match_case } => match active_field {
            ReplaceField::Find => DialogModel::Replace {
                query: without_last(query),
                replacement,
                active_field,
                match_case,
            },
            ReplaceField::Replace => DialogModel::Replace {
                query,
                replacement: without_last(replacement),
                active_field,
                match_case,
            },
        },
        DialogModel::GoTo { line, replace_on_input } => DialogModel::GoTo {
            line: if replace_on_input {
                Seq::empty()
            } else {
                without_last(line)
            },
            replace_on_input: false,
        },
        DialogModel::Info { .. } => m,
    }
}

pub fn backspace_dialog_field(dialog: &mut DialogState)
    ensures
        final(dialog)@ == field_shortened(old(dialog)@),
{
    match dialog {
        DialogState::Replace { query, replacement, active_field, .. } => match *active_field {
            ReplaceField::Find => {
                query.pop();
            },
            ReplaceField::Replace => {
                replacement.pop();
            },
        },
        DialogState::GoTo { line, replace_on_input } => {
            if *replace_on_input {
                *line = String::new();
                *replace_on_input = false;
            } else {
                line.pop();
            }
        },
        DialogState::Info { .. } => {},
    }
}

/// A dialog with the other field active.
pub open spec fn field_switched(m: DialogModel) -> DialogModel {
    match m {
        DialogModel::Replace { query, replacement, active_field, match_case } =>
            DialogModel::Replace {
            query,
            replacement,
            active_field: match active_field {
                ReplaceField::Find => ReplaceField::Replace,
                ReplaceField::Replace => ReplaceField::Find,
            },
            match_case,
        },
        _ => m,
    }
}

pub fn tab_dialog_field(dialog: &mut DialogState)
    ensures
        final(dialog)@ == field_switched(old(dialog)@),
{
    match dialog {
        DialogState::Replace { active_field, .. } => {
            *active_field = match *active_field {
                ReplaceField::Find => ReplaceField::Replace,
                ReplaceField::Replace => ReplaceField::Find,
            };
        },
        _ => {},
    }
}

/// A dialog with the other choice on case.
pub open spec fn option_toggled(m: DialogModel) -> DialogModel {
    match m {
        DialogModel::Replace { query, replacement, active_field, match_case } =>
            DialogModel::Replace {
            query,
            replacement,
            active_field,
            match_case: !match_case,
        },
        _ => m,
    }
}

pub fn toggle_dialog_option(dialog: &mut DialogState)
    ensures
        final(dialog)@ == option_toggled(old(dialog)@),
{
    match dialog {
        DialogState::Replace { match_case, .. } => {
            *match_case = !*match_case;
        },
        _ => {},
    }
}

/// Puts pasted text into the active field, and keeps it in place of what was on
/// the clipboard.
pub fn paste_into_dialog_field(
    dialog: &mut DialogState,
    clipboard_cache: &mut String,
    pasted: String,
)
    ensures
        final(dialog)@ == (if pasted@.len() == 0 {
            old(dialog)@
        } else {
            text_entered(old(dialog)@, pasted@)
        }),
        final(clipboard_cache)@ == (if pasted@.len() == 0 {
            old(clipboard_cache)@
        } else {
            pasted@
        }),
{
    if pasted.as_str().is_empty() {
        return;
    }
    match dialog {
        DialogState::Replace { query, replacement, active_field, .. } => match *active_field {
            ReplaceField::Find => query.append(pasted.as_str()),
            ReplaceField::Replace => replacement.append(pasted.as_str()),
        },
        DialogState::GoTo { line, replace_on_input } => {
            let digits = only_digits(pasted.as_str());
            if !digits.as_str().is_empty() {
                if *replace_on_input {
                    *line = digits;
                    *replace_on_input = false;
                } else {
                    line.append(digits.as_str());
                }
            }
        },
        DialogState::Info { .. } => {},
    }
    *clipboard_cache = pasted;
}

/// Typed characters, without control characters.
pub open spec fn printable(characters: Seq<char>) -> Seq<char>
    decreases characters.len(),
{
    if characters.len() == 0 {
        Seq::empty()
    } else if is_control_char(characters.last()) {
        printable(characters.drop_last())
    } else {
        printable(characters.drop_last()).push(characters.last())
    }
}

/// A dialog after characters are typed one by one.
pub open spec fn all_entered(m: DialogModel, characters: Seq<char>) -> DialogModel
    decreases characters.len(),
{
    if characters.len() == 0 {
        m
    } else if is_control_char(characters.last()) {
        all_entered(m, characters.drop_last())
    } else {
        text_entered(all_entered(m, characters.drop_last()), seq![characters.last()])
    }
}

/// Puts typed characters into the active field.
pub fn handle_dialog_window_text_input(dialog: &mut DialogState, characters: &Vec<char>)
    ensures
        final(dialog)@ == all_entered(old(dialog)@, characters@),
{
    let mut i: usize = 0;
    while i < characters.len()
        invariant
            i <= characters@.len(),
            dialog@ == all_entered(old(dialog)@, characters@.take(i as int)),
        decreases characters@.len() - i,
    {
        proof {
            let taken = characters@.take(i + 1);
            assert(taken.drop_last() =~= characters@.take(i as int));
            assert(taken.last() == characters@[i as int]);
        }
        if !is_control(characters[i]) {
            append_dialog_character(dialog, characters[i]);
        }
        i += 1;
    }
    assert(characters@.take(i as int) =~= characters@);
}

/// News does not push another dialog aside.
pub fn should_defer_dialog_window(state: &DialogState, dialog_open: bool) -> (defer: bool)
    ensures
        defer == (dialog_open && state@ is Info),
{
    match state {
        DialogState::Info { .. } => dialog_open,
        _ => false,
    }
}

/// The title of a dialog's window.
pub open spec fn window_title(m: DialogModel) -> Seq<char> {
    match m {
        DialogModel::Replace { .. } => "Replace"@,
        DialogModel::GoTo { .. } => "Go To Line"@,
        DialogModel::Info { title, .. } => if title == "Print"@ || title == "Font"@ || title
            == "About Notepad"@ || title == "Save"@ {
            title
        } else {
            "Notepad"@
        },
    }
}

pub fn dialog_window_title(state: &DialogState) -> (title: &'static str)
    ensures
        title@ == window_title(state@),
{
    match state {
        DialogState::Replace { .. } => "Replace",
        DialogState::GoTo { .. } => "Go To Line",
        DialogState::Info { title, .. } => {
            if same_text(title.as_str(), "Print") {
                "Print"
            } else if same_text(title.as_str(), "Font") {
                "Font"
            } else if same_text(title.as_str(), "About Notepad") {
                "About Notepad"
            } else if same_text(title.as_str(), "Save") {
                "Save"
            } else {
                "Notepad"
            }
        },
    }
}

/// The size of a dialog's window.
pub fn dialog_window_size(state: &DialogState) -> (size: (usize, usize))
    ensures
        size == (match state@ {
            DialogModel::Replace { .. } => (470usize, 220usize),
            DialogModel::GoTo { .. } => (GO_TO_WINDOW_WIDTH, GO_TO_WINDOW_HEIGHT),
            DialogModel::Info { .. } => (470usize, 210usize),
        }),
{
    match state {
        DialogState::Replace { .. } => (470, 220),
        DialogState::GoTo { .. } => (GO_TO_WINDOW_WIDTH, GO_TO_WINDOW_HEIGHT),
        DialogState::Info { .. } => (470, 210),
    }
}

// ---------------------------------------------------------------------------
// Line numbers
// ---------------------------------------------------------------------------

/// The number that decimal digits spell.
pub open spec fn digits_value(digits: Seq<char>) -> int
    decreases digits.len(),
{
    if digits.len() == 0 {
        0
    } else {
        digits_value(digits.drop_last()) * 10 + (digits.last() as u32 - 48)
    }
}

pub open spec fn all_digits(text: Seq<char>) -> bool {
    forall|i: int| 0 <= i < text.len() ==> is_digit(#[trigger] text[i])
}

/// A text without the plus sign that a number may begin with.
pub open spec fn unsigned(text: Seq<char>) -> Seq<char> {
    if text.len() > 0 && text[0] == '+' {
        text.skip(1)
    } else {
        text
    }
}

/// The line number that a text spells, zero where it spells none.
pub open spec fn line_number(text: Seq<char>) -> int {
    let digits = unsigned(text);
    if digits.len() > 0 && all_digits(digits) && digits_value(digits) <= usize::MAX {
        digits_value(digits)
    } else {
        0
    }
}

/// Reads a line number.
pub fn parse_line_number(text: &str) -> (number: usize)
    ensures
        number == line_number(text@),
{
    let chars = crate::text_units::characters(text);
    let start: usize = if chars.len() > 0 && chars[0] == '+' {
        1
    } else {
        0
    };
    let ghost digits = unsigned(text@);
    assert(digits =~= chars@.skip(start as int));
    if start == chars.len() {
        return 0;
    }
    let mut value: usize = 0;
    let mut i: usize = start;
    let mut overflow = false;
    assert(digits.take(0) =~= Seq::empty());
    while i < chars.len()
        invariant
            chars@ == text@,
            digits == unsigned(text@),
            digits == chars@.skip(start as int),
            start <= i <= chars@.len(),
            forall|k: int| 0 <= k < i - start ==> is_digit(#[trigger] digits[k]),
            overflow ==> digits_value(digits.take(i - start)) > usize::MAX,
            !overflow ==> value == digits_value(digits.take(i - start)),
        decreases chars@.len() - i,
    {
        let c: char = chars[i];
        let ghost k = i - start;
        assert(digits[k] == c);
        if !is_ascii_digit(c) {
            assert(!all_digits(digits));
            return 0;
        }
        let digit: usize = (c as u32 - 48) as usize;
        proof {
            assert(digits.take(k + 1).drop_last() =~= digits.take(k));
            assert(digits.take(k + 1).last() == c);
        }
        if !overflow {
            match value.checked_mul(10) {
                Some(tens) => match tens.checked_add(digit) {
                    Some(next) => {
                        value = next;
                    },
                    None => {
                        overflow = true;
                    },
                },
                None => {
                    overflow = true;
                },
            }
        }
        i += 1;
    }
    assert(digits.take(i - start) =~= digits);
    if overflow {
        0
    } else {
        value
    }
}

// ---------------------------------------------------------------------------
// The find window
// ---------------------------------------------------------------------------

#[derive(Clone, Debug, PartialEq, Eq)]
pub struct FindWindow {
    pub query: String,
    pub match_case: bool,
    pub wrap_around: bool,
    pub forward: bool,
    pub mouse_was_down: bool,
}

/// The find window as a mathematical value.
pub struct FindModel {
    pub query: Seq<char>,
    pub match_case: bool,
    pub wrap_around: bool,
    pub forward: bool,
    pub mouse_was_down: bool,
}

impl View for FindWindow {
    type V = FindModel;

    open spec fn view(&self) -> FindModel {
        FindModel {
            query: self.query@,
            match_case: self.match_case,
            wrap_around: self.wrap_around,
            forward: self.forward,
            mouse_was_down: self.mouse_was_down,
        }
    }
}

pub open spec fn find_model(find: Option<FindWindow>) -> Option<FindModel> {
    match find {
        Some(find) => Some(find@),
        None => None,
    }
}

/// The characters that keys stand for.
pub open spec fn keys_text(keys: Seq<Key>, shift: bool) -> Seq<char>
    decreases keys.len(),
{
    if keys.len() == 0 {
        Seq::empty()
    } else {
        match key_char(keys.last(), shift) {
            Some(c) => keys_text(keys.drop_last(), shift).push(c),
            None => keys_text(keys.drop_last(), shift),
        }
    }
}

/// Appends the characters that keys stand for.
pub fn push_keys(query: &mut String, keys: &Vec<Key>, shift: bool)
    ensures
        final(query)@ == old(query)@ + keys_text(keys@, shift),
{
    let mut i: usize = 0;
    while i < keys.len()
        invariant
            i <= keys@.len(),
            query@ == old(query)@ + keys_text(keys@.take(i as int), shift),
        decreases keys@.len() - i,
    {
        proof {
            let taken = keys@.take(i + 1);
            assert(taken.drop_last() =~= keys@.take(i as int));
            assert(taken.last() == keys@[i as int]);
        }
        if let Some(c) = ascii_find_char_for_key(keys[i], shift) {
            query.push(c);
        }
        i += 1;
        assert(query@ =~= old(query)@ + keys_text(keys@.take(i as int), shift));
    }
    assert(keys@.take(i as int) =~= keys@);
}

/// Appends typed characters, without control characters.
pub fn push_printable(query: &mut String, characters: &Vec<char>)
    ensures
        final(query)@ == old(query)@ + printable(characters@),
{
    let mut i: usize = 0;
    while i < characters.len()
        invariant
            i <= characters@.len(),
            query@ == old(query)@ + printable(characters@.take(i as int)),
        decreases characters@.len() - i,
    {
        proof {
            let taken = characters@.take(i + 1);
            assert(taken.drop_last() =~= characters@.take(i as int));
            assert(taken.last() == characters@[i as int]);
        }
        if !is_control(characters[i]) {
            query.push(characters[i]);
        }
        i += 1;
        assert(query@ =~= old(query)@ + printable(characters@.take(i as int)));
    }
    assert(characters@.take(i as int) =~= characters@);
}

/// Appends pasted text to the query, and keeps it in place of what was on the
/// clipboard.
pub fn append_find_query_paste(query: &mut String, clipboard_cache: &mut String, pasted: String)
    ensures
        final(query)@ == old(query)@ + pasted@,
        final(clipboard_cache)@ == (if pasted@.len() == 0 {
            old(clipboard_cache)@
        } else {
            pasted@
        }),
{
    if !pasted.as_str().is_empty() {
        query.append(pasted.as_str());
        *clipboard_cache = pasted;
    } else {
        assert(query@ =~= old(query)@ + pasted@);
    }
}

// ---------------------------------------------------------------------------
// The clipboard
// ---------------------------------------------------------------------------

/// The text of the clipboard: the system's, or where that has none, the text
/// kept here.
pub open spec fn clipboard_choice(system: Option<Seq<char>>, cache: Seq<char>) -> Seq<char> {
    match system {
        Some(text) => if text.len() > 0 {
            text
        } else {
            cache
        },
        None => cache,
    }
}

pub fn clipboard_text(system: Option<String>, clipboard_cache: &str) -> (text: String)
    ensures
        text@ == clipboard_choice(crate::document::opt_text(system), clipboard_cache@),
{
    match system {
        Some(text) => if text.as_str().is_empty() {
            owned(clipboard_cache)
        } else {
            text
        },
        None => owned(clipboard_cache),
    }
}

pub fn clipboard_has_text(clipboard_cache: &str, system: Option<String>) -> (has: bool)
    ensures
        has == (clipboard_choice(crate::document::opt_text(system), clipboard_cache@).len() > 0),
{
    if !clipboard_cache.is_empty() {
        return true;
    }
    match system {
        Some(text) => !text.as_str().is_empty(),
        None => false,
    }
}

} // verus!

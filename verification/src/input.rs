//! What is typed: characters from code units, and keys.

use crate::encoding::{
    char_units, is_high_surrogate, is_low_surrogate, pair_char, utf16_units,
};
use vstd::prelude::*;
use vstd::utf8::*;

verus! {

/// The keys that the editor knows.
#[derive(Clone, Copy, Debug, PartialEq, Eq, Structural)]
pub enum Key {
    A,
    B,
    C,
    D,
    E,
    F,
    G,
    H,
    I,
    J,
    K,
    L,
    M,
    N,
    O,
    P,
    Q,
    R,
    S,
    T,
    U,
    V,
    W,
    X,
    Y,
    Z,
    Key0,
    Key1,
    Key2,
    Key3,
    Key4,
    Key5,
    Key6,
    Key7,
    Key8,
    Key9,
    Space,
    Minus,
    Equal,
    Comma,
    Period,
    Slash,
    Semicolon,
    Apostrophe,
    LeftBracket,
    RightBracket,
    Backslash,
    Backquote,
    NumPad0,
    NumPad1,
    NumPad2,
    NumPad3,
    NumPad4,
    NumPad5,
    NumPad6,
    NumPad7,
    NumPad8,
    NumPad9,
    NumPadDot,
    NumPadSlash,
    NumPadAsterisk,
    NumPadMinus,
    NumPadPlus,
    Up,
    Down,
    Left,
    Right,
    Home,
    End,
    PageUp,
    PageDown,
    Backspace,
    Delete,
    Enter,
    NumPadEnter,
    Tab,
    Escape,
    F3,
    F5,
    Other,
}

// ---------------------------------------------------------------------------
// Typed characters
// ---------------------------------------------------------------------------

/// Some systems hand out the emoticons in the private use area; they are mapped
/// back.
pub open spec fn repaired(code: u32) -> u32 {
    if 0xF600 <= code <= 0xF64F {
        (code + 0x1_0000) as u32
    } else {
        code
    }
}

pub fn normalize_legacy_pua_emoji(uni_char: u32) -> (code: u32)
    ensures
        code == repaired(uni_char),
{
    if 0xF600 <= uni_char && uni_char <= 0xF64F {
        uni_char + 0x1_0000
    } else {
        uni_char
    }
}

/// A character has the code `code`.
pub open spec fn is_code(code: u32) -> bool {
    code < 0xD800 || 0xE000 <= code <= 0x10FFFF
}

/// The character that a code unit completes, after the high surrogate before it.
pub open spec fn completed_char(code: u32, pending: Option<u16>) -> Option<char> {
    if 0xD800 <= code <= 0xDBFF {
        None
    } else if 0xDC00 <= code <= 0xDFFF {
        match pending {
            Some(high) => Some(pair_char(high, code as u16)),
            None => None,
        }
    } else if is_code(repaired(code)) {
        Some(repaired(code) as char)
    } else {
        None
    }
}

/// The high surrogate that waits for its pair after a code unit.
pub open spec fn still_pending(code: u32) -> Option<u16> {
    if 0xD800 <= code <= 0xDBFF {
        Some(code as u16)
    } else {
        None
    }
}

/// Takes in one code unit, or one whole code.
pub fn decode_text_input_char(uni_char: u32, pending_high_surrogate: &mut Option<u16>) -> (character:
    Option<char>)
    requires
        *old(pending_high_surrogate) matches Some(high) ==> is_high_surrogate(high),
    ensures
        character == completed_char(uni_char, *old(pending_high_surrogate)),
        *final(pending_high_surrogate) == still_pending(uni_char),
{
    if 0xD800 <= uni_char && uni_char <= 0xDBFF {
        *pending_high_surrogate = Some(uni_char as u16);
        None
    } else if 0xDC00 <= uni_char && uni_char <= 0xDFFF {
        let pending = *pending_high_surrogate;
        *pending_high_surrogate = None;
        match pending {
            Some(high) => {
                let value: u32 = 0x1_0000 + (high as u32 - 0xD800) * 0x400 + (uni_char - 0xDC00);
                let character = char::from_u32(value);
                proof {
                    char_u32_cast(character.unwrap(), value);
                }
                character
            },
            None => None,
        }
    } else {
        *pending_high_surrogate = None;
        let code: u32 = normalize_legacy_pua_emoji(uni_char);
        let character = char::from_u32(code);
        proof {
            if let Some(c) = character {
                char_u32_cast(c, code);
            }
        }
        character
    }
}

/// The characters typed so far, and half of the next one.
#[derive(Debug)]
pub struct TextInput {
    queue: Vec<char>,
    pending_high_surrogate: Option<u16>,
}

pub struct TextInputModel {
    pub queue: Seq<char>,
    pub pending: Option<u16>,
}

impl View for TextInput {
    type V = TextInputModel;

    closed spec fn view(&self) -> TextInputModel {
        TextInputModel { queue: self.queue@, pending: self.pending_high_surrogate }
    }
}

/// The input after one more code unit.
pub open spec fn fed(m: TextInputModel, code: u32) -> TextInputModel {
    TextInputModel {
        queue: match completed_char(code, m.pending) {
            Some(c) => m.queue.push(c),
            None => m.queue,
        },
        pending: still_pending(code),
    }
}

impl TextInput {
    pub open spec fn wf(&self) -> bool {
        self@.pending matches Some(high) ==> is_high_surrogate(high)
    }

    pub fn new() -> (input: Self)
        ensures
            input.wf(),
            input@.queue == Seq::<char>::empty(),
            input@.pending is None,
    {
        TextInput { queue: Vec::new(), pending_high_surrogate: None }
    }

    pub fn add_char(&mut self, uni_char: u32)
        requires
            old(self).wf(),
        ensures
            final(self).wf(),
            final(self)@ == fed(old(self)@, uni_char),
    {
        let character = decode_text_input_char(uni_char, &mut self.pending_high_surrogate);
        if let Some(c) = character {
            self.queue.push(c);
        }
    }

    /// The characters typed and not taken yet.
    pub fn queued(&self) -> (queue: &Vec<char>)
        ensures
            queue@ == self@.queue,
    {
        &self.queue
    }

    /// Takes the typed characters out.
    pub fn take(&mut self) -> (characters: Vec<char>)
        requires
            old(self).wf(),
        ensures
            final(self).wf(),
            characters@ == old(self)@.queue,
            final(self)@ == (TextInputModel { queue: Seq::empty(), ..old(self)@ }),
    {
        let mut characters: Vec<char> = Vec::new();
        std::mem::swap(&mut characters, &mut self.queue);
        characters
    }
}

/// The input after all of `units`.
pub open spec fn all_fed(m: TextInputModel, units: Seq<u16>) -> TextInputModel
    decreases units.len(),
{
    if units.len() == 0 {
        m
    } else {
        fed(all_fed(m, units.drop_last()), units.last() as u32)
    }
}

/// A text typed as UTF-16 arrives as it is, but for what the private use area
/// holds in place of emoticons.
pub proof fn law_typed_utf16_arrives(m: TextInputModel, text: Seq<char>)
    requires
        m.pending is None,
        forall|i: int| 0 <= i < text.len() ==> repaired(#[trigger] text[i] as u32) == text[i] as u32,
    ensures
        all_fed(m, utf16_units(text)) == (TextInputModel {
            queue: m.queue + text,
            pending: None,
        }),
    decreases text.len(),
{
    if text.len() == 0 {
        assert(m.queue + text =~= m.queue);
    } else {
        let front = text.drop_last();
        let c = text.last();
        let before = utf16_units(front);
        let v = c as u32;
        assert forall|i: int| 0 <= i < front.len() implies repaired(#[trigger] front[i] as u32)
            == front[i] as u32 by {
            assert(front[i] == text[i]);
        }
        law_typed_utf16_arrives(m, front);
        char_is_scalar(c);
        char_u32_cast(c, v);
        assert(repaired(text[text.len() - 1] as u32) == text[text.len() - 1] as u32);
        assert(m.queue + text =~= (m.queue + front).push(c));
        let units = utf16_units(text);
        if v < 0x1_0000 {
            assert(units =~= before.push(v as u16));
            assert(units.drop_last() =~= before);
        } else {
            let high = char_units(c)[0];
            let low = char_units(c)[1];
            assert(units =~= before.push(high).push(low));
            assert(units.drop_last() =~= before.push(high));
            assert(units.drop_last().drop_last() =~= before);
            assert(is_high_surrogate(high));
            assert(is_low_surrogate(low));
            assert(0x1_0000 + (high - 0xD800) * 0x400 + (low - 0xDC00) == v);
            assert(pair_char(high, low) == c);
            let middle = all_fed(m, before.push(high));
            assert(middle == fed(all_fed(m, before), high as u32));
            assert(middle.pending == Some(high));
            assert(middle.queue == m.queue + front);
        }
    }
}

/// A control character.
pub open spec fn is_control_char(c: char) -> bool {
    c as u32 <= 0x1F || 0x7F <= c as u32 <= 0x9F
}

pub fn is_control(character: char) -> (is: bool)
    ensures
        is == is_control_char(character),
{
    let v: u32 = character as u32;
    v <= 0x1F || (0x7F <= v && v <= 0x9F)
}

/// Text was typed, other than control characters.
pub open spec fn has_text(queue: Seq<char>) -> bool {
    exists|i: int| 0 <= i < queue.len() && !is_control_char(#[trigger] queue[i])
}

pub fn input_queue_has_text(input_queue: &Vec<char>) -> (any: bool)
    ensures
        any == has_text(input_queue@),
{
    let mut i: usize = 0;
    while i < input_queue.len()
        invariant
            i <= input_queue@.len(),
            forall|k: int| 0 <= k < i ==> is_control_char(#[trigger] input_queue@[k]),
        decreases input_queue@.len() - i,
    {
        if !is_control(input_queue[i]) {
            return true;
        }
        i += 1;
    }
    false
}

// ---------------------------------------------------------------------------
// Keys
// ---------------------------------------------------------------------------

/// Shortcuts are for when no text is on its way.
pub fn should_handle_command_shortcuts(
    command_down: bool,
    pending_text_input: bool,
    ime_composition_active: bool,
) -> (handle: bool)
    ensures
        handle == (command_down && !pending_text_input && !ime_composition_active),
{
    command_down && !pending_text_input && !ime_composition_active
}

pub fn command_shortcuts_suppressed_for_text_input(command_down: bool) -> (suppressed: bool)
    ensures
        suppressed,
{
    !should_handle_command_shortcuts(command_down, true, false)
}

/// Keys stand for characters where no characters come and no input method is
/// open.
pub fn should_use_find_ascii_fallback(characters_empty: bool, command_down: bool, ime_open: bool) -> (
fallback: bool)
    ensures
        fallback == (characters_empty && !command_down && !ime_open),
{
    characters_empty && !command_down && !ime_open
}

/// The characters of a key, without and with shift.
pub open spec fn key_chars(key: Key) -> Option<(char, char)> {
    match key {
        Key::A => Some(('a', 'A')),
        Key::B => Some(('b', 'B')),
        Key::C => Some(('c', 'C')),
        Key::D => Some(('d', 'D')),
        Key::E => Some(('e', 'E')),
        Key::F => Some(('f', 'F')),
        Key::G => Some(('g', 'G')),
        Key::H => Some(('h', 'H')),
        Key::I => Some(('i', 'I')),
        Key::J => Some(('j', 'J')),
        Key::K => Some(('k', 'K')),
        Key::L => Some(('l', 'L')),
        Key::M => Some(('m', 'M')),
        Key::N => Some(('n', 'N')),
        Key::O => Some(('o', 'O')),
        Key::P => Some(('p', 'P')),
        Key::Q => Some(('q', 'Q')),
        Key::R => Some(('r', 'R')),
        Key::S => Some(('s', 'S')),
        Key::T => Some(('t', 'T')),
        Key::U => Some(('u', 'U')),
        Key::V => Some(('v', 'V')),
        Key::W => Some(('w', 'W')),
        Key::X => Some(('x', 'X')),
        Key::Y => Some(('y', 'Y')),
        Key::Z => Some(('z', 'Z')),
        Key::Key0 => Some(('0', ')')),
        Key::Key1 => Some(('1', '!')),
        Key::Key2 => Some(('2', '@')),
        Key::Key3 => Some(('3', '#')),
        Key::Key4 => Some(('4', '$')),
        Key::Key5 => Some(('5', '%')),
        Key::Key6 => Some(('6', '^')),
        Key::Key7 => Some(('7', '&')),
        Key::Key8 => Some(('8', '*')),
        Key::Key9 => Some(('9', '(')),
        Key::Space => Some((' ', ' ')),
        Key::Minus => Some(('-', '_')),
        Key::Equal => Some(('=', '+')),
        Key::Comma => Some((',', '<')),
        Key::Period => Some(('.', '>')),
        Key::Slash => Some(('/', '?')),
        Key::Semicolon => Some((';', ':')),
        Key::Apostrophe => Some(('\'', '"')),
        Key::LeftBracket => Some(('[', '{')),
        Key::RightBracket => Some((']', '}')),
        Key::Backslash => Some(('\\', '|')),
        Key::Backquote => Some(('`', '~')),
        Key::NumPad0 => Some(('0', '0')),
        Key::NumPad1 => Some(('1', '1')),
        Key::NumPad2 => Some(('2', '2')),
        Key::NumPad3 => Some(('3', '3')),
        Key::NumPad4 => Some(('4', '4')),
        Key::NumPad5 => Some(('5', '5')),
        Key::NumPad6 => Some(('6', '6')),
        Key::NumPad7 => Some(('7', '7')),
        Key::NumPad8 => Some(('8', '8')),
        Key::NumPad9 => Some(('9', '9')),
        Key::NumPadDot => Some(('.', '.')),
        Key::NumPadSlash => Some(('/', '/')),
        Key::NumPadAsterisk => Some(('*', '*')),
        Key::NumPadMinus => Some(('-', '-')),
        Key::NumPadPlus => Some(('+', '+')),
        _ => None,
    }
}

/// The character that a key stands for.
pub open spec fn key_char(key: Key, shift: bool) -> Option<char> {
    match key_chars(key) {
        Some((plain, shifted)) => Some(
            if shift {
                shifted
            } else {
                plain
            },
        ),
        None => None,
    }
}

pub fn ascii_find_char_for_key(key: Key, shift: bool) -> (character: Option<char>)
    ensures
        character == key_char(key, shift),
{
    match key {
        Key::A => Some(
            if shift {
                'A'
            } else {
                'a'
            },
        ),
        Key::B => Some(
            if shift {
                'B'
            } else {
                'b'
            },
        ),
        Key::C => Some(
            if shift {
                'C'
            } else {
                'c'
            },
        ),
        Key::D => Some(
            if shift {
                'D'
            } else {
                'd'
            },
        ),
        Key::E => Some(
            if shift {
                'E'
            } else {
                'e'
            },
        ),
        Key::F => Some(
            if shift {
                'F'
            } else {
                'f'
            },
        ),
        Key::G => Some(
            if shift {
                'G'
            } else {
                'g'
            },
        ),
        Key::H => Some(
            if shift {
                'H'
            } else {
                'h'
            },
        ),
        Key::I => Some(
            if shift {
                'I'
            } else {
                'i'
            },
        ),
        Key::J => Some(
            if shift {
                'J'
            } else {
                'j'
            },
        ),
        Key::K => Some(
            if shift {
                'K'
            } else {
                'k'
            },
        ),
        Key::L => Some(
            if shift {
                'L'
            } else {
                'l'
            },
        ),
        Key::M => Some(
            if shift {
                'M'
            } else {
                'm'
            },
        ),
        Key::N => Some(
            if shift {
                'N'
            } else {
                'n'
            },
        ),
        Key::O => Some(
            if shift {
                'O'
            } else {
                'o'
            },
        ),
        Key::P => Some(
            if shift {
                'P'
            } else {
                'p'
            },
        ),
        Key::Q => Some(
            if shift {
                'Q'
            } else {
                'q'
            },
        ),
        Key::R => Some(
            if shift {
                'R'
            } else {
                'r'
            },
        ),
        Key::S => Some(
            if shift {
                'S'
            } else {
                's'
            },
        ),
        Key::T => Some(
            if shift {
                'T'
            } else {
                't'
            },
        ),
        Key::U => Some(
            if shift {
                'U'
            } else {
                'u'
            },
        ),
        Key::V => Some(
            if shift {
                'V'
            } else {
                'v'
            },
        ),
        Key::W => Some(
            if shift {
                'W'
            } else {
                'w'
            },
        ),
        Key::X => Some(
            if shift {
                'X'
            } else {
                'x'
            },
        ),
        Key::Y => Some(
            if shift {
                'Y'
            } else {
                'y'
            },
        ),
        Key::Z => Some(
            if shift {
                'Z'
            } else {
                'z'
            },
        ),
        Key::Key0 => Some(
            if shift {
                ')'
            } else {
                '0'
            },
        ),
        Key::Key1 => Some(
            if shift {
                '!'
            } else {
                '1'
            },
        ),
        Key::Key2 => Some(
            if shift {
                '@'
            } else {
                '2'
            },
        ),
        Key::Key3 => Some(
            if shift {
                '#'
            } else {
                '3'
            },
        ),
        Key::Key4 => Some(
            if shift {
                '$'
            } else {
                '4'
            },
        ),
        Key::Key5 => Some(
            if shift {
                '%'
            } else {
                '5'
            },
        ),
        Key::Key6 => Some(
            if shift {
                '^'
            } else {
                '6'
            },
        ),
        Key::Key7 => Some(
            if shift {
                '&'
            } else {
                '7'
            },
        ),
        Key::Key8 => Some(
            if shift {
                '*'
            } else {
                '8'
            },
        ),
        Key::Key9 => Some(
            if shift {
                '('
            } else {
                '9'
            },
        ),
        Key::Space => Some(' '),
        Key::Minus => Some(
            if shift {
                '_'
            } else {
                '-'
            },
        ),
        Key::Equal => Some(
            if shift {
                '+'
            } else {
                '='
            },
        ),
        Key::Comma => Some(
            if shift {
                '<'
            } else {
                ','
            },
        ),
        Key::Period => Some(
            if shift {
                '>'
            } else {
                '.'
            },
        ),
        Key::Slash => Some(
            if shift {
                '?'
            } else {
                '/'
            },
        ),
        Key::Semicolon => Some(
            if shift {
                ':'
            } else {
                ';'
            },
        ),
        Key::Apostrophe => Some(
            if shift {
                '"'
            } else {
                '\''
            },
        ),
        Key::LeftBracket => Some(
            if shift {
                '{'
            } else {
                '['
            },
        ),
        Key::RightBracket => Some(
            if shift {
                '}'
            } else {
                ']'
            },
        ),
        Key::Backslash => Some(
            if shift {
                '|'
            } else {
                '\\'
            },
        ),
        Key::Backquote => Some(
            if shift {
                '~'
            } else {
                '`'
            },
        ),
        Key::NumPad0 => Some('0'),
        Key::NumPad1 => Some('1'),
        Key::NumPad2 => Some('2'),
        Key::NumPad3 => Some('3'),
        Key::NumPad4 => Some('4'),
        Key::NumPad5 => Some('5'),
        Key::NumPad6 => Some('6'),
        Key::NumPad7 => Some('7'),
        Key::NumPad8 => Some('8'),
        Key::NumPad9 => Some('9'),
        Key::NumPadDot => Some('.'),
        Key::NumPadSlash => Some('/'),
        Key::NumPadAsterisk => Some('*'),
        Key::NumPadMinus => Some('-'),
        Key::NumPadPlus => Some('+'),
        _ => None,
    }
}

} // verus!

//! Text encodings of files: detection, decoding and encoding.

use crate::error::{fails_as, BlitzError, ErrorModel, Result};
use crate::line_index::min;
use crate::text::{decode_str, lemma_boundary, on_boundary, owned, utf8_bytes, utf8_error_text};
use vstd::prelude::*;
use vstd::slice::{slice_subrange, slice_to_vec};
use vstd::utf8::*;

verus! {

/// How many bytes must be UTF-8 for a file to count as UTF-8.
pub const UTF8_CHECK_LIMIT: usize = 4_096;

/// How many bytes are looked at for the zero bytes of UTF-16.
pub const ENCODING_DETECTION_LIMIT: usize = 65_536;

/// The most bytes that the ANSI codec is given: its buffers are a few times as
/// long as its input, and their sizes must fit.
pub const ANSI_LIMIT: usize = usize::MAX / 32;

#[derive(Clone, Copy, Debug, Eq, PartialEq, Structural)]
pub enum TextEncoding {
    Utf8,
    Utf8Bom,
    Utf16Le,
    Utf16Be,
    Ansi,
}

#[derive(Clone, Copy, Debug, Eq, PartialEq, Structural)]
pub enum Endian {
    Little,
    Big,
}

// ---------------------------------------------------------------------------
// Byte order marks
// ---------------------------------------------------------------------------

pub open spec fn utf8_bom() -> Seq<u8> {
    seq![0xEFu8, 0xBB, 0xBF]
}

pub open spec fn utf16_bom(endian: Endian) -> Seq<u8> {
    match endian {
        Endian::Little => seq![0xFFu8, 0xFE],
        Endian::Big => seq![0xFEu8, 0xFF],
    }
}

pub open spec fn starts_with(bytes: Seq<u8>, prefix: Seq<u8>) -> bool {
    prefix.len() <= bytes.len() && bytes.take(prefix.len() as int) == prefix
}

/// How many bytes of mark `bytes` begins with, for a file in `encoding`.
pub open spec fn bom_bytes(encoding: TextEncoding, bytes: Seq<u8>) -> int {
    if encoding == TextEncoding::Utf8Bom && starts_with(bytes, utf8_bom()) {
        3
    } else if encoding == TextEncoding::Utf16Le && starts_with(bytes, utf16_bom(Endian::Little)) {
        2
    } else if encoding == TextEncoding::Utf16Be && starts_with(bytes, utf16_bom(Endian::Big)) {
        2
    } else {
        0
    }
}

fn has_utf8_bom(bytes: &[u8]) -> (found: bool)
    ensures
        found == starts_with(bytes@, utf8_bom()),
{
    let found = bytes.len() >= 3 && bytes[0] == 0xEF && bytes[1] == 0xBB && bytes[2] == 0xBF;
    proof {
        if bytes@.len() >= 3 {
            let head = bytes@.take(3);
            if found {
                assert(head =~= utf8_bom());
            } else if head == utf8_bom() {
                assert(head[0] == 0xEF && head[1] == 0xBB && head[2] == 0xBF);
            }
        }
    }
    found
}

fn has_utf16_bom(bytes: &[u8], endian: Endian) -> (found: bool)
    ensures
        found == starts_with(bytes@, utf16_bom(endian)),
{
    let found = match endian {
        Endian::Little => bytes.len() >= 2 && bytes[0] == 0xFF && bytes[1] == 0xFE,
        Endian::Big => bytes.len() >= 2 && bytes[0] == 0xFE && bytes[1] == 0xFF,
    };
    proof {
        if bytes@.len() >= 2 {
            let head = bytes@.take(2);
            if found {
                assert(head =~= utf16_bom(endian));
            } else if head == utf16_bom(endian) {
                assert(head[0] == utf16_bom(endian)[0] && head[1] == utf16_bom(endian)[1]);
            }
        }
    }
    found
}

pub open spec fn encoding_label(encoding: TextEncoding) -> Seq<char> {
    match encoding {
        TextEncoding::Utf8 => "UTF-8"@,
        TextEncoding::Utf8Bom => "UTF-8 with BOM"@,
        TextEncoding::Utf16Le => "UTF-16 LE"@,
        TextEncoding::Utf16Be => "UTF-16 BE"@,
        TextEncoding::Ansi => "ANSI"@,
    }
}

impl TextEncoding {
    pub fn label(self) -> (label: &'static str)
        ensures
            label@ == encoding_label(self),
    {
        match self {
            TextEncoding::Utf8 => "UTF-8",
            TextEncoding::Utf8Bom => "UTF-8 with BOM",
            TextEncoding::Utf16Le => "UTF-16 LE",
            TextEncoding::Utf16Be => "UTF-16 BE",
            TextEncoding::Ansi => "ANSI",
        }
    }

    pub fn bom_len(self, bytes: &[u8]) -> (len: usize)
        ensures
            len == bom_bytes(self, bytes@),
            len <= bytes@.len(),
    {
        match self {
            TextEncoding::Utf8Bom => if has_utf8_bom(bytes) {
                3
            } else {
                0
            },
            TextEncoding::Utf16Le => if has_utf16_bom(bytes, Endian::Little) {
                2
            } else {
                0
            },
            TextEncoding::Utf16Be => if has_utf16_bom(bytes, Endian::Big) {
                2
            } else {
                0
            },
            _ => 0,
        }
    }
}

// ---------------------------------------------------------------------------
// Detection
// ---------------------------------------------------------------------------

/// How many of the first `n` byte pairs have a zero as their first byte, or as
/// their second.
pub open spec fn zero_bytes(bytes: Seq<u8>, second: bool, n: int) -> int
    decreases n,
{
    if n <= 0 {
        0
    } else {
        let at = if second {
            2 * (n - 1) + 1
        } else {
            2 * (n - 1)
        };
        zero_bytes(bytes, second, n - 1) + (if bytes[at] == 0 {
            1int
        } else {
            0
        })
    }
}

/// Text in UTF-16 without a mark: many of the high bytes are zero, and few of
/// the low ones.
pub open spec fn utf16_like(bytes: Seq<u8>, endian: Endian) -> bool {
    let pairs = bytes.len() as int / 2;
    let high_second = endian == Endian::Little;
    bytes.len() >= 8 && zero_bytes(bytes, high_second, pairs) > pairs / 3 && zero_bytes(
        bytes,
        !high_second,
        pairs,
    ) <= pairs / 20
}

/// The encoding of a file with these bytes.
pub open spec fn detected_encoding(bytes: Seq<u8>) -> TextEncoding {
    let wide_sample = bytes.take(min(bytes.len() as int, ENCODING_DETECTION_LIMIT as int));
    let utf8_sample = bytes.take(min(bytes.len() as int, UTF8_CHECK_LIMIT as int));
    if starts_with(bytes, utf8_bom()) {
        TextEncoding::Utf8Bom
    } else if starts_with(bytes, utf16_bom(Endian::Little)) {
        TextEncoding::Utf16Le
    } else if starts_with(bytes, utf16_bom(Endian::Big)) {
        TextEncoding::Utf16Be
    } else if utf16_like(wide_sample, Endian::Little) {
        TextEncoding::Utf16Le
    } else if utf16_like(wide_sample, Endian::Big) {
        TextEncoding::Utf16Be
    } else if valid_utf8(utf8_sample) {
        TextEncoding::Utf8
    } else {
        TextEncoding::Ansi
    }
}

fn looks_like_utf16(bytes: &[u8], endian: Endian) -> (looks: bool)
    ensures
        looks == utf16_like(bytes@, endian),
{
    let len: usize = bytes.len();
    if len < 8 {
        return false;
    }
    let ghost high_second = endian == Endian::Little;
    let mut text_byte_zeroes: usize = 0;
    let mut zero_byte_zeroes: usize = 0;
    let mut pairs: usize = 0;
    let total: usize = len / 2;
    while pairs < total
        invariant
            total == bytes@.len() / 2,
            pairs <= total,
            len == bytes@.len(),
            high_second == (endian == Endian::Little),
            text_byte_zeroes <= pairs,
            zero_byte_zeroes <= pairs,
            text_byte_zeroes == zero_bytes(bytes@, !high_second, pairs as int),
            zero_byte_zeroes == zero_bytes(bytes@, high_second, pairs as int),
        decreases total - pairs,
    {
        let first: u8 = bytes[2 * pairs];
        let second: u8 = bytes[2 * pairs + 1];
        let (text_byte, zero_byte) = match endian {
            Endian::Little => (first, second),
            Endian::Big => (second, first),
        };
        if text_byte == 0 {
            text_byte_zeroes += 1;
        }
        if zero_byte == 0 {
            zero_byte_zeroes += 1;
        }
        pairs += 1;
    }
    zero_byte_zeroes > pairs / 3 && text_byte_zeroes <= pairs / 20
}

/// The encoding of a file, from its mark or from a sample of its bytes.
pub fn detect_encoding(bytes: &[u8]) -> (encoding: TextEncoding)
    ensures
        encoding == detected_encoding(bytes@),
{
    if has_utf8_bom(bytes) {
        return TextEncoding::Utf8Bom;
    }
    if has_utf16_bom(bytes, Endian::Little) {
        return TextEncoding::Utf16Le;
    }
    if has_utf16_bom(bytes, Endian::Big) {
        return TextEncoding::Utf16Be;
    }
    let wide_len: usize = if bytes.len() < ENCODING_DETECTION_LIMIT {
        bytes.len()
    } else {
        ENCODING_DETECTION_LIMIT
    };
    let wide_sample = slice_subrange(bytes, 0, wide_len);
    assert(wide_sample@ =~= bytes@.take(wide_len as int));
    if looks_like_utf16(wide_sample, Endian::Little) {
        return TextEncoding::Utf16Le;
    }
    if looks_like_utf16(wide_sample, Endian::Big) {
        return TextEncoding::Utf16Be;
    }
    let utf8_len: usize = if bytes.len() < UTF8_CHECK_LIMIT {
        bytes.len()
    } else {
        UTF8_CHECK_LIMIT
    };
    let utf8_sample = slice_subrange(bytes, 0, utf8_len);
    assert(utf8_sample@ =~= bytes@.take(utf8_len as int));
    if decode_str(utf8_sample).is_ok() {
        return TextEncoding::Utf8;
    }
    TextEncoding::Ansi
}

// ---------------------------------------------------------------------------
// UTF-16
// ---------------------------------------------------------------------------

/// The code units of a character.
pub open spec fn char_units(c: char) -> Seq<u16> {
    let v = c as u32;
    if v < 0x1_0000 {
        seq![v as u16]
    } else {
        seq![
            (0xD800 + (v - 0x1_0000) / 0x400) as u16,
            (0xDC00 + (v - 0x1_0000) % 0x400) as u16,
        ]
    }
}

pub open spec fn utf16_units(text: Seq<char>) -> Seq<u16>
    decreases text.len(),
{
    if text.len() == 0 {
        Seq::empty()
    } else {
        utf16_units(text.drop_last()) + char_units(text.last())
    }
}

pub open spec fn is_high_surrogate(unit: u16) -> bool {
    0xD800 <= unit < 0xDC00
}

pub open spec fn is_low_surrogate(unit: u16) -> bool {
    0xDC00 <= unit < 0xE000
}

/// The character that a surrogate pair stands for.
pub open spec fn pair_char(high: u16, low: u16) -> char {
    (0x1_0000 + (high - 0xD800) * 0x400 + (low - 0xDC00)) as char
}

/// The text that code units spell, where no surrogate stands alone.
pub open spec fn utf16_text(units: Seq<u16>) -> Option<Seq<char>>
    decreases units.len(),
{
    if units.len() == 0 {
        Some(Seq::empty())
    } else if is_high_surrogate(units[0]) && units.len() >= 2 && is_low_surrogate(units[1]) {
        match utf16_text(units.skip(2)) {
            Some(rest) => Some(seq![pair_char(units[0], units[1])] + rest),
            None => None,
        }
    } else if is_high_surrogate(units[0]) || is_low_surrogate(units[0]) {
        None
    } else {
        match utf16_text(units.skip(1)) {
            Some(rest) => Some(seq![units[0] as char] + rest),
            None => None,
        }
    }
}

pub open spec fn unit_bytes(unit: u16, endian: Endian) -> Seq<u8> {
    match endian {
        Endian::Little => seq![(unit % 256) as u8, (unit / 256) as u8],
        Endian::Big => seq![(unit / 256) as u8, (unit % 256) as u8],
    }
}

pub open spec fn units_bytes(units: Seq<u16>, endian: Endian) -> Seq<u8>
    decreases units.len(),
{
    if units.len() == 0 {
        Seq::empty()
    } else {
        units_bytes(units.drop_last(), endian) + unit_bytes(units.last(), endian)
    }
}

/// The code unit of a byte pair.
pub open spec fn pair_unit(first: u8, second: u8, endian: Endian) -> u16 {
    match endian {
        Endian::Little => (first + 256 * second) as u16,
        Endian::Big => (256 * first + second) as u16,
    }
}

/// The code units of an even number of bytes.
pub open spec fn bytes_units(bytes: Seq<u8>, endian: Endian) -> Seq<u16> {
    Seq::new(
        bytes.len() / 2,
        |i: int| pair_unit(bytes[2 * i], bytes[2 * i + 1], endian),
    )
}

pub assume_specification[ char::from_u32 ](value: u32) -> (c: Option<char>)
    ensures
        c is Some <==> (value < 0xD800 || 0xE000 <= value <= 0x10FFFF),
        c matches Some(c) ==> c as u32 == value,
;

/// The text that `units` spell, or none where a surrogate stands alone.
pub fn decode_utf16_units(units: &Vec<u16>) -> (text: Option<String>)
    ensures
        text is Some <==> utf16_text(units@) is Some,
        text matches Some(text) ==> Some(text@) == utf16_text(units@),
{
    let mut text = String::new();
    let mut i: usize = 0;
    assert(units@.skip(0) =~= units@);
    while i < units.len()
        invariant
            i <= units@.len(),
            utf16_text(units@) == (match utf16_text(units@.skip(i as int)) {
                Some(rest) => Some(text@ + rest),
                None => None,
            }),
        decreases units@.len() - i,
    {
        let unit: u16 = units[i];
        let ghost rest = units@.skip(i as int);
        let ghost held = text@;
        if 0xD800 <= unit && unit < 0xDC00 {
            if i + 1 >= units.len() || units[i + 1] < 0xDC00 || units[i + 1] >= 0xE000 {
                return None;
            }
            let low: u16 = units[i + 1];
            let value: u32 = 0x1_0000 + (unit as u32 - 0xD800) * 0x400 + (low as u32 - 0xDC00);
            match char::from_u32(value) {
                Some(c) => {
                    text.push(c);
                    proof {
                        char_u32_cast(c, value);
                        assert(c == pair_char(unit, low));
                        assert(rest.skip(2) =~= units@.skip(i + 2));
                        assert(rest[1] == low);
                        if let Some(tail) = utf16_text(rest.skip(2)) {
                            assert(held + (seq![c] + tail) =~= held.push(c) + tail);
                        }
                    }
                },
                None => {},
            }
            i += 2;
        } else if 0xDC00 <= unit && unit < 0xE000 {
            return None;
        } else {
            match char::from_u32(unit as u32) {
                Some(c) => {
                    text.push(c);
                    proof {
                        char_u32_cast(c, unit as u32);
                        assert(c == unit as char);
                        assert(rest.skip(1) =~= units@.skip(i + 1));
                        if let Some(tail) = utf16_text(rest.skip(1)) {
                            assert(held + (seq![c] + tail) =~= held.push(c) + tail);
                        }
                    }
                },
                None => {},
            }
            i += 1;
        }
    }
    assert(text@ + Seq::<char>::empty() =~= text@);
    Some(text)
}

/// The code units of `text`.
pub fn encode_utf16_units(text: &str) -> (units: Vec<u16>)
    ensures
        units@ == utf16_units(text@),
{
    let mut units: Vec<u16> = Vec::new();
    for c in iter: text.chars()
        invariant
            iter.seq() == text@,
            units@ == utf16_units(text@.take(iter.index() as int)),
    {
        let ghost held = units@;
        let value: u32 = c as u32;
        if value < 0x1_0000 {
            units.push(value as u16);
        } else {
            let high: u32 = 0xD800 + (value - 0x1_0000) / 0x400;
            let low: u32 = 0xDC00 + (value - 0x1_0000) % 0x400;
            units.push(high as u16);
            units.push(low as u16);
        }
        proof {
            let n = iter.index() as int;
            assert(text@.take(n + 1).drop_last() =~= text@.take(n));
            assert(units@ =~= held + char_units(c));
        }
    }
    assert(text@.take(text@.len() as int) =~= text@);
    units
}

/// Why bytes are no UTF-16 text, if they are not.
pub open spec fn utf16_error(bytes: Seq<u8>, endian: Endian) -> Option<ErrorModel> {
    if bytes.len() % 2 != 0 {
        Some(ErrorModel::Encoding("UTF-16 byte length must be even"@))
    } else if utf16_text(bytes_units(bytes, endian)) is None {
        Some(ErrorModel::Encoding("invalid UTF-16: invalid utf-16: lone surrogate found"@))
    } else {
        None
    }
}

fn decode_utf16(bytes: &[u8], endian: Endian) -> (text: Result<String>)
    ensures
        fails_as(text, utf16_error(bytes@, endian)),
        text matches Ok(text) ==> Some(text@) == utf16_text(bytes_units(bytes@, endian)),
{
    if bytes.len() % 2 != 0 {
        return Err(BlitzError::Encoding(owned("UTF-16 byte length must be even")));
    }
    let len: usize = bytes.len();
    let total: usize = len / 2;
    let mut units: Vec<u16> = Vec::new();
    let mut i: usize = 0;
    while i < total
        invariant
            i <= total,
            len == bytes@.len(),
            total == bytes@.len() / 2,
            units@ == bytes_units(bytes@, endian).take(i as int),
        decreases total - i,
    {
        let first: u16 = bytes[2 * i] as u16;
        let second: u16 = bytes[2 * i + 1] as u16;
        let unit: u16 = match endian {
            Endian::Little => first + 256 * second,
            Endian::Big => 256 * first + second,
        };
        units.push(unit);
        i += 1;
        assert(units@ =~= bytes_units(bytes@, endian).take(i as int));
    }
    assert(units@ =~= bytes_units(bytes@, endian));
    match decode_utf16_units(&units) {
        Some(text) => Ok(text),
        None => Err(
            BlitzError::Encoding(owned("invalid UTF-16: invalid utf-16: lone surrogate found")),
        ),
    }
}

fn encode_utf16(text: &str, endian: Endian) -> (bytes: Vec<u8>)
    ensures
        bytes@ == utf16_bom(endian) + units_bytes(utf16_units(text@), endian),
{
    let mut bytes: Vec<u8> = Vec::new();
    match endian {
        Endian::Little => {
            bytes.push(0xFF);
            bytes.push(0xFE);
        },
        Endian::Big => {
            bytes.push(0xFE);
            bytes.push(0xFF);
        },
    }
    let units = encode_utf16_units(text);
    let mut i: usize = 0;
    assert(units@.take(0) =~= Seq::<u16>::empty());
    assert(bytes@ =~= utf16_bom(endian) + units_bytes(units@.take(0), endian));
    while i < units.len()
        invariant
            i <= units@.len(),
            bytes@ == utf16_bom(endian) + units_bytes(units@.take(i as int), endian),
        decreases units@.len() - i,
    {
        let unit: u16 = units[i];
        let ghost held = bytes@;
        let low: u8 = (unit % 256) as u8;
        let high: u8 = (unit / 256) as u8;
        match endian {
            Endian::Little => {
                bytes.push(low);
                bytes.push(high);
            },
            Endian::Big => {
                bytes.push(high);
                bytes.push(low);
            },
        }
        i += 1;
        proof {
            assert(units@.take(i as int).drop_last() =~= units@.take(i - 1));
            assert(bytes@ =~= held + unit_bytes(unit, endian));
            assert(bytes@ =~= utf16_bom(endian) + units_bytes(units@.take(i as int), endian));
        }
    }
    assert(units@.take(i as int) =~= units@);
    bytes
}

// ---------------------------------------------------------------------------
// ANSI
// ---------------------------------------------------------------------------

/// What the Shift_JIS decoder makes of bytes: the text, and whether it met
/// malformed bytes.
pub uninterp spec fn shift_jis_decoded(bytes: Seq<u8>) -> (Seq<char>, bool);

/// What the Shift_JIS encoder makes of text: the bytes, and whether it met
/// characters that it cannot encode.
pub uninterp spec fn shift_jis_encoded(text: Seq<char>) -> (Seq<u8>, bool);

pub open spec fn ascii_bytes(bytes: Seq<u8>) -> bool {
    forall|i: int| 0 <= i < bytes.len() ==> #[trigger] bytes[i] < 0x80
}

/// Decodes Shift_JIS.
///
/// Trusted: the text and the error flag of `encoding_rs`'s `SHIFT_JIS.decode`
/// are functions of the bytes; ASCII bytes decode to themselves without error.
#[verifier::external_body]
fn shift_jis_decode(bytes: &[u8]) -> (result: (String, bool))
    requires
        bytes@.len() <= ANSI_LIMIT,
    ensures
        (result.0@, result.1) == shift_jis_decoded(bytes@),
        ascii_bytes(bytes@) ==> !result.1 && result.0@ == Seq::new(
            bytes@.len(),
            |i: int| bytes@[i] as char,
        ),
{
    let (text, _, had_errors) = encoding_rs::SHIFT_JIS.decode(bytes);
    (text.into_owned(), had_errors)
}

/// A character that Shift_JIS writes with the bytes of another one: the yen
/// sign, the overline and the minus sign.
pub open spec fn ansi_replaces(c: char) -> bool {
    c == '\u{A5}' || c == '\u{203E}' || c == '\u{2212}'
}

/// No character of the text is written with the bytes of another one.
pub open spec fn ansi_keeps(text: Seq<char>) -> bool {
    forall|i: int| 0 <= i < text.len() ==> !ansi_replaces(#[trigger] text[i])
}

/// A character of which Shift_JIS is sure to have bytes: ASCII, the kana, the
/// ideographic space, comma and full stop, and the three kanji of the name of the
/// Japanese language. Other characters may have bytes, too.
pub open spec fn ansi_writes(c: char) -> bool {
    ||| (c as u32) < 0x80
    ||| 0x3041 <= c as u32 <= 0x3093
    ||| 0x30A1 <= c as u32 <= 0x30F6
    ||| 0xFF61 <= c as u32 <= 0xFF9F
    ||| 0x3000 <= c as u32 <= 0x3002
    ||| c == '\u{65E5}' || c == '\u{672C}' || c == '\u{8A9E}'
}

/// Shift_JIS is sure to have bytes for every character of the text.
pub open spec fn ansi_writes_all(text: Seq<char>) -> bool {
    forall|i: int| 0 <= i < text.len() ==> ansi_writes(#[trigger] text[i])
}

/// Encodes as Shift_JIS.
///
/// Trusted: the bytes and the error flag of `encoding_rs`'s `SHIFT_JIS.encode`
/// are functions of the text; ASCII text encodes to itself without error. There
/// is no error where every character is one of those that the encoder maps by
/// range, or one of three that stand in its table of kanji; which other
/// characters stand in the tables is left unsaid. What is encoded without error
/// takes up no more bytes than as UTF-8, one for an ASCII character and at most
/// two for another, and `SHIFT_JIS.decode` reads it back unchanged, but for the
/// three characters that are written with the bytes of others.
#[verifier::external_body]
fn shift_jis_encode(text: &str) -> (result: (Vec<u8>, bool))
    requires
        encode_utf8(text@).len() <= ANSI_LIMIT,
    ensures
        (result.0@, result.1) == shift_jis_encoded(text@),
        is_ascii_chars(text@) ==> !result.1 && result.0@ == encode_utf8(text@),
        ansi_writes_all(text@) ==> !result.1,
        !result.1 ==> result.0@.len() <= encode_utf8(text@).len(),
        !result.1 && ansi_keeps(text@) ==> shift_jis_decoded(result.0@) == (text@, false),
{
    let (bytes, _, had_errors) = encoding_rs::SHIFT_JIS.encode(text);
    (bytes.into_owned(), had_errors)
}

/// What becomes of decoded ANSI text: an error where bytes were malformed.
pub fn accept_ansi_text(text: String, had_errors: bool) -> (result: Result<String>)
    ensures
        fails_as(result, ansi_decode_error(had_errors)),
        result matches Ok(kept) ==> kept@ == text@,
{
    if had_errors {
        Err(BlitzError::Encoding(owned("ANSI/Shift_JIS decoding reported malformed bytes")))
    } else {
        Ok(text)
    }
}

/// What becomes of ANSI bytes: an error where characters could not be encoded.
pub fn accept_ansi_bytes(bytes: Vec<u8>, had_errors: bool) -> (result: Result<Vec<u8>>)
    ensures
        fails_as(result, ansi_encode_error(had_errors)),
        result matches Ok(kept) ==> kept@ == bytes@,
{
    if had_errors {
        Err(
            BlitzError::Encoding(
                owned("text contains characters that cannot be encoded as ANSI/Shift_JIS"),
            ),
        )
    } else {
        Ok(bytes)
    }
}

pub open spec fn ansi_decode_error(had_errors: bool) -> Option<ErrorModel> {
    if had_errors {
        Some(ErrorModel::Encoding("ANSI/Shift_JIS decoding reported malformed bytes"@))
    } else {
        None
    }
}

pub open spec fn ansi_encode_error(had_errors: bool) -> Option<ErrorModel> {
    if had_errors {
        Some(
            ErrorModel::Encoding(
                "text contains characters that cannot be encoded as ANSI/Shift_JIS"@,
            ),
        )
    } else {
        None
    }
}

// ---------------------------------------------------------------------------
// Decoding and encoding
// ---------------------------------------------------------------------------

/// The bytes after the mark.
pub open spec fn body_of(bytes: Seq<u8>, encoding: TextEncoding) -> Seq<u8> {
    bytes.skip(bom_bytes(encoding, bytes))
}

pub open spec fn decode_error(bytes: Seq<u8>, encoding: TextEncoding) -> Option<ErrorModel> {
    let body = body_of(bytes, encoding);
    match encoding {
        TextEncoding::Utf8 | TextEncoding::Utf8Bom => if valid_utf8(body) {
            None
        } else {
            Some(ErrorModel::Encoding("invalid UTF-8: "@ + utf8_error_text(body)))
        },
        TextEncoding::Utf16Le => utf16_error(body, Endian::Little),
        TextEncoding::Utf16Be => utf16_error(body, Endian::Big),
        TextEncoding::Ansi => ansi_decode_error(shift_jis_decoded(body).1),
    }
}

pub open spec fn decoded_text(bytes: Seq<u8>, encoding: TextEncoding) -> Seq<char> {
    let body = body_of(bytes, encoding);
    match encoding {
        TextEncoding::Utf8 | TextEncoding::Utf8Bom => decode_utf8(body),
        TextEncoding::Utf16Le => utf16_text(bytes_units(body, Endian::Little))->0,
        TextEncoding::Utf16Be => utf16_text(bytes_units(body, Endian::Big))->0,
        TextEncoding::Ansi => shift_jis_decoded(body).0,
    }
}

pub open spec fn encode_error(text: Seq<char>, encoding: TextEncoding) -> Option<ErrorModel> {
    match encoding {
        TextEncoding::Ansi => ansi_encode_error(shift_jis_encoded(text).1),
        _ => None,
    }
}

pub open spec fn encoded_bytes(text: Seq<char>, encoding: TextEncoding) -> Seq<u8> {
    match encoding {
        TextEncoding::Utf8 => encode_utf8(text),
        TextEncoding::Utf8Bom => utf8_bom() + encode_utf8(text),
        TextEncoding::Utf16Le => utf16_bom(Endian::Little) + units_bytes(
            utf16_units(text),
            Endian::Little,
        ),
        TextEncoding::Utf16Be => utf16_bom(Endian::Big) + units_bytes(
            utf16_units(text),
            Endian::Big,
        ),
        TextEncoding::Ansi => shift_jis_encoded(text).0,
    }
}

/// The text of a file in `encoding`, without its mark.
pub fn decode_to_utf8(bytes: &[u8], encoding: TextEncoding) -> (text: Result<String>)
    requires
        encoding == TextEncoding::Ansi ==> bytes@.len() <= ANSI_LIMIT,
    ensures
        fails_as(text, decode_error(bytes@, encoding)),
        text matches Ok(text) ==> text@ == decoded_text(bytes@, encoding),
        encoding == TextEncoding::Ansi && ascii_bytes(bytes@) ==> text is Ok && text->Ok_0@
            == Seq::new(bytes@.len(), |i: int| bytes@[i] as char),
{
    let bom: usize = encoding.bom_len(bytes);
    let body = slice_subrange(bytes, bom, bytes.len());
    assert(body@ =~= body_of(bytes@, encoding));
    match encoding {
        TextEncoding::Utf8 | TextEncoding::Utf8Bom => match decode_str(body) {
            Ok(text) => Ok(owned(text)),
            Err(detail) => {
                let mut message = owned("invalid UTF-8: ");
                message.append(detail.as_str());
                Err(BlitzError::Encoding(message))
            },
        },
        TextEncoding::Utf16Le => decode_utf16(body, Endian::Little),
        TextEncoding::Utf16Be => decode_utf16(body, Endian::Big),
        TextEncoding::Ansi => {
            assert(body@ =~= bytes@);
            let (text, had_errors) = shift_jis_decode(body);
            accept_ansi_text(text, had_errors)
        },
    }
}

/// The bytes of a file that holds `text` in `encoding`, its mark included.
pub fn encode_from_utf8(text: &str, encoding: TextEncoding) -> (bytes: Result<Vec<u8>>)
    requires
        encoding == TextEncoding::Ansi ==> encode_utf8(text@).len() <= ANSI_LIMIT,
    ensures
        fails_as(bytes, encode_error(text@, encoding)),
        bytes matches Ok(bytes) ==> bytes@ == encoded_bytes(text@, encoding),
        encoding == TextEncoding::Ansi && is_ascii_chars(text@) ==> bytes is Ok && bytes->Ok_0@
            == encode_utf8(text@),
        encoding == TextEncoding::Ansi && ansi_writes_all(text@) ==> bytes is Ok,
        bytes matches Ok(bytes) ==> encoding == TextEncoding::Ansi ==> bytes@.len()
            <= ANSI_LIMIT,
        // What was written is read back unchanged.
        bytes matches Ok(bytes) ==> (encoding == TextEncoding::Ansi ==> ansi_keeps(text@))
            ==> decode_error(bytes@, encoding) is None && decoded_text(bytes@, encoding) == text@,
{
    proof {
        if encoding != TextEncoding::Ansi {
            law_unicode_round_trip(text@, encoding);
        }
    }
    match encoding {
        TextEncoding::Utf8 => Ok(utf8_bytes(text)),
        TextEncoding::Utf8Bom => {
            let mut bytes: Vec<u8> = Vec::new();
            bytes.push(0xEF);
            bytes.push(0xBB);
            bytes.push(0xBF);
            let ghost mark = bytes@;
            let body = text.as_bytes();
            bytes.extend_from_slice(body);
            proof {
                assert(mark =~= utf8_bom());
                assert(bytes@ =~= utf8_bom() + encode_utf8(text@));
            }
            Ok(bytes)
        },
        TextEncoding::Utf16Le => Ok(encode_utf16(text, Endian::Little)),
        TextEncoding::Utf16Be => Ok(encode_utf16(text, Endian::Big)),
        TextEncoding::Ansi => {
            let (bytes, had_errors) = shift_jis_encode(text);
            assert(body_of(bytes@, encoding) =~= bytes@);
            accept_ansi_bytes(bytes, had_errors)
        },
    }
}

// ---------------------------------------------------------------------------
// Laws
// ---------------------------------------------------------------------------

proof fn lemma_units_bytes_back(units: Seq<u16>, endian: Endian)
    ensures
        units_bytes(units, endian).len() == 2 * units.len(),
        bytes_units(units_bytes(units, endian), endian) == units,
    decreases units.len(),
{
    if units.len() > 0 {
        lemma_units_bytes_back(units.drop_last(), endian);
        let earlier = units_bytes(units.drop_last(), endian);
        let bytes = units_bytes(units, endian);
        let back = bytes_units(bytes, endian);
        let earlier_back = bytes_units(earlier, endian);
        assert forall|i: int| 0 <= i < units.len() implies #[trigger] back[i] == units[i] by {
            if i < units.len() - 1 {
                assert(bytes[2 * i] == earlier[2 * i]);
                assert(bytes[2 * i + 1] == earlier[2 * i + 1]);
                assert(earlier_back[i] == units.drop_last()[i]);
            } else {
                let unit = units.last();
                assert(bytes[2 * i] == unit_bytes(unit, endian)[0]);
                assert(bytes[2 * i + 1] == unit_bytes(unit, endian)[1]);
            }
        }
        assert(back =~= units);
    } else {
        assert(bytes_units(units_bytes(units, endian), endian) =~= units);
    }
}

proof fn lemma_units_front(text: Seq<char>)
    requires
        text.len() > 0,
    ensures
        utf16_units(text) == char_units(text[0]) + utf16_units(text.drop_first()),
    decreases text.len(),
{
    if text.len() == 1 {
        assert(text.drop_last() =~= Seq::<char>::empty());
        assert(text.drop_first() =~= Seq::<char>::empty());
        assert(utf16_units(text) =~= char_units(text[0]) + utf16_units(text.drop_first()));
    } else {
        lemma_units_front(text.drop_last());
        assert(text.drop_last().drop_first() =~= text.drop_first().drop_last());
        assert(utf16_units(text) =~= char_units(text[0]) + utf16_units(text.drop_first()));
    }
}

proof fn lemma_units_text_back(text: Seq<char>)
    ensures
        utf16_text(utf16_units(text)) == Some(text),
    decreases text.len(),
{
    if text.len() > 0 {
        lemma_units_front(text);
        lemma_units_text_back(text.drop_first());
        let c = text[0];
        let units = utf16_units(text);
        let v = c as u32;
        char_is_scalar(c);
        char_u32_cast(c, v);
        if v < 0x1_0000 {
            assert(units.skip(1) =~= utf16_units(text.drop_first()));
            assert(units[0] == v as u16);
            assert(units[0] as char == c);
            assert(seq![c] + text.drop_first() =~= text);
        } else {
            assert(units.skip(2) =~= utf16_units(text.drop_first()));
            assert(units[0] == (0xD800 + (v - 0x1_0000) / 0x400) as u16);
            assert(units[1] == (0xDC00 + (v - 0x1_0000) % 0x400) as u16);
            assert(v <= 0x10FFFF);
            assert(pair_char(units[0], units[1]) == c);
            assert(seq![c] + text.drop_first() =~= text);
        }
    } else {
        assert(utf16_units(text) =~= Seq::<u16>::empty());
        assert(text =~= Seq::<char>::empty());
    }
}

/// What is written in a Unicode encoding is read back unchanged.
pub proof fn law_unicode_round_trip(text: Seq<char>, encoding: TextEncoding)
    requires
        encoding != TextEncoding::Ansi,
    ensures
        encode_error(text, encoding) is None,
        decode_error(encoded_bytes(text, encoding), encoding) is None,
        decoded_text(encoded_bytes(text, encoding), encoding) == text,
{
    let bytes = encoded_bytes(text, encoding);
    let body = body_of(bytes, encoding);
    encode_utf8_valid_utf8(text);
    encode_utf8_decode_utf8(text);
    match encoding {
        TextEncoding::Utf8 => {
            assert(body =~= encode_utf8(text));
        },
        TextEncoding::Utf8Bom => {
            assert(bytes.take(3) =~= utf8_bom());
            assert(body =~= encode_utf8(text));
        },
        TextEncoding::Utf16Le => {
            assert(bytes.take(2) =~= utf16_bom(Endian::Little));
            assert(body =~= units_bytes(utf16_units(text), Endian::Little));
            lemma_units_bytes_back(utf16_units(text), Endian::Little);
            lemma_units_text_back(text);
        },
        TextEncoding::Utf16Be => {
            assert(bytes.take(2) =~= utf16_bom(Endian::Big));
            assert(body =~= units_bytes(utf16_units(text), Endian::Big));
            lemma_units_bytes_back(utf16_units(text), Endian::Big);
            lemma_units_text_back(text);
        },
        TextEncoding::Ansi => {},
    }
}

/// A file that carries a mark is recognised by it.
pub proof fn law_marked_files_are_recognised(text: Seq<char>, encoding: TextEncoding)
    requires
        encoding == TextEncoding::Utf8Bom || encoding == TextEncoding::Utf16Le || encoding
            == TextEncoding::Utf16Be,
    ensures
        detected_encoding(encoded_bytes(text, encoding)) == encoding,
{
    let bytes = encoded_bytes(text, encoding);
    match encoding {
        TextEncoding::Utf8Bom => {
            assert(bytes.take(3) =~= utf8_bom());
        },
        TextEncoding::Utf16Le => {
            assert(bytes.take(2) =~= utf16_bom(Endian::Little));
            assert(bytes[0] == 0xFF);
            if starts_with(bytes, utf8_bom()) {
                assert(bytes.take(3)[0] == 0xEF);
            }
        },
        _ => {
            assert(bytes.take(2) =~= utf16_bom(Endian::Big));
            assert(bytes[0] == 0xFE);
            if starts_with(bytes, utf8_bom()) {
                assert(bytes.take(3)[0] == 0xEF);
            }
            if starts_with(bytes, utf16_bom(Endian::Little)) {
                assert(bytes.take(2)[0] == 0xFF);
            }
        },
    }
}

proof fn lemma_no_zero_bytes(bytes: Seq<u8>, second: bool, n: int)
    requires
        0 <= 2 * n <= bytes.len(),
        forall|i: int| 0 <= i < bytes.len() ==> #[trigger] bytes[i] != 0,
    ensures
        zero_bytes(bytes, second, n) == 0,
    decreases n,
{
    if n > 0 {
        lemma_no_zero_bytes(bytes, second, n - 1);
        assert(bytes[2 * (n - 1)] != 0 && bytes[2 * (n - 1) + 1] != 0);
    }
}

/// A file of UTF-8 without a mark and without zero bytes is recognised, unless
/// the first bytes that are looked at end within a character.
pub proof fn law_plain_text_is_recognised(bytes: Seq<u8>)
    requires
        valid_utf8(bytes),
        !starts_with(bytes, utf8_bom()),
        forall|i: int| 0 <= i < bytes.len() ==> #[trigger] bytes[i] != 0,
        on_boundary(bytes, min(bytes.len() as int, UTF8_CHECK_LIMIT as int)),
    ensures
        detected_encoding(bytes) == TextEncoding::Utf8,
{
    let wide = bytes.take(min(bytes.len() as int, ENCODING_DETECTION_LIMIT as int));
    let checked = min(bytes.len() as int, UTF8_CHECK_LIMIT as int);
    if bytes.len() > 0 {
        assert(valid_first_scalar(bytes));
        assert(bytes[0] < 0xF8);
    }
    if starts_with(bytes, utf16_bom(Endian::Little)) {
        assert(bytes.take(2)[0] == 0xFF);
    }
    if starts_with(bytes, utf16_bom(Endian::Big)) {
        assert(bytes.take(2)[0] == 0xFE);
    }
    assert forall|i: int| 0 <= i < wide.len() implies #[trigger] wide[i] != 0 by {
        assert(bytes[i] != 0);
    }
    lemma_no_zero_bytes(wide, true, wide.len() as int / 2);
    lemma_no_zero_bytes(wide, false, wide.len() as int / 2);
    lemma_boundary(bytes, checked);
    valid_utf8_split(bytes, checked);
    assert(bytes.take(checked) =~= bytes.subrange(0, checked));
}

} // verus!

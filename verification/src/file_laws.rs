//! What is written to files, what is read from them, and when a document counts
//! as changed.

use crate::app::{typed, AppModel};
use crate::command_laws::{can_type, put_in_place};
use crate::document::{
    document_valid, open_error, opened, saved_as_is, saved_bytes, LoadMode, PathModel,
    MMAP_THRESHOLD_BYTES,
};
use crate::encoding::{
    char_units, detected_encoding, encoded_bytes, law_marked_files_are_recognised,
    law_unicode_round_trip, unit_bytes, units_bytes, utf16_units, utf8_bom, Endian, TextEncoding,
};
use crate::gui::GuiModel;
use crate::jobs::{save_ended, SaveEnd};
use crate::line_index::{
    detected_ending, ending_at, ending_chars, ending_count, line_starts, normalized_chars,
    LineEnding, LINE_ENDING_SAMPLE_LIMIT,
};
use crate::save_laws::law_bytes_and_text_normalise_alike;
use vstd::prelude::*;
use vstd::utf8::*;

verus! {

// ---------------------------------------------------------------------------
// Encodings
// ---------------------------------------------------------------------------

/// A file in UTF-8 holds the bytes of the text, behind its mark where it has one.
pub proof fn law_utf8_files_hold_the_text(text: Seq<char>)
    ensures
        encoded_bytes(text, TextEncoding::Utf8) == encode_utf8(text),
        encoded_bytes(text, TextEncoding::Utf8Bom) == seq![0xEFu8, 0xBBu8, 0xBFu8] + encode_utf8(
            text,
        ),
{
}

/// The two bytes of a code unit, the lower or the higher first.
pub open spec fn two_bytes(unit: int, little: bool) -> Seq<u8> {
    if little {
        seq![(unit % 256) as u8, (unit / 256) as u8]
    } else {
        seq![(unit / 256) as u8, (unit % 256) as u8]
    }
}

/// A file in UTF-16 begins with its mark, and each character adds one code unit,
/// or the two of its surrogate pair.
pub proof fn law_utf16_files_hold_code_units(before: Seq<char>, c: char, little: bool)
    ensures
        ({
            let encoding = if little {
                TextEncoding::Utf16Le
            } else {
                TextEncoding::Utf16Be
            };
            let v = c as u32 as int;
            &&& encoded_bytes(Seq::empty(), encoding) == two_bytes(0xFEFF, little)
            &&& v < 0x1_0000 ==> encoded_bytes(before.push(c), encoding) == encoded_bytes(
                before,
                encoding,
            ) + two_bytes(v, little)
            &&& v >= 0x1_0000 ==> encoded_bytes(before.push(c), encoding) == encoded_bytes(
                before,
                encoding,
            ) + two_bytes(0xD800 + (v - 0x1_0000) / 0x400, little) + two_bytes(
                0xDC00 + (v - 0x1_0000) % 0x400,
                little,
            )
        }),
{
    let endian = if little {
        Endian::Little
    } else {
        Endian::Big
    };
    let encoding = if little {
        TextEncoding::Utf16Le
    } else {
        TextEncoding::Utf16Be
    };
    let v = c as u32;
    char_is_scalar(c);
    assert(before.push(c).drop_last() =~= before);
    let units = utf16_units(before);
    let more = char_units(c);
    assert(utf16_units(Seq::<char>::empty()) =~= Seq::<u16>::empty());
    assert(units_bytes(Seq::<u16>::empty(), endian) =~= Seq::<u8>::empty());
    assert(encoded_bytes(Seq::empty(), encoding) =~= two_bytes(0xFEFF, little));
    assert(utf16_units(before.push(c)) == units + more);
    if v < 0x1_0000 {
        assert((units + more).drop_last() =~= units);
        assert(unit_bytes(more[0], endian) =~= two_bytes(v as int, little));
        assert(units_bytes(units + more, endian) == units_bytes(units, endian) + unit_bytes(
            more[0],
            endian,
        ));
    } else {
        let first = units.push(more[0]);
        assert((units + more).drop_last() =~= first);
        assert(first.drop_last() =~= units);
        assert((units + more).last() == more[1]);
        assert(unit_bytes(more[0], endian) =~= two_bytes(
            0xD800 + (v - 0x1_0000) / 0x400,
            little,
        ));
        assert(unit_bytes(more[1], endian) =~= two_bytes(
            0xDC00 + (v - 0x1_0000) % 0x400,
            little,
        ));
        assert(units_bytes(first, endian) == units_bytes(units, endian) + unit_bytes(
            more[0],
            endian,
        ));
        assert(units_bytes(units + more, endian) == units_bytes(first, endian) + unit_bytes(
            more[1],
            endian,
        ));
    }
    assert(encoded_bytes(before.push(c), encoding) =~= encoded_bytes(before, encoding) + (
    units_bytes(units + more, endian).skip(units_bytes(units, endian).len() as int)));
}

/// A file that holds a text in one of the Unicode encodings, with the mark of
/// that encoding, opens as that text: unchanged, with its encoding and its lines
/// known, and with nothing to undo.
pub proof fn law_marked_file_opens_as_its_text(
    path: PathModel,
    text: Seq<char>,
    encoding: TextEncoding,
    mode: LoadMode,
    len: u64,
)
    requires
        encoding == TextEncoding::Utf8Bom || encoding == TextEncoding::Utf16Le || encoding
            == TextEncoding::Utf16Be,
    ensures
        ({
            let source = encoded_bytes(text, encoding);
            let document = opened(path, source, mode, len);
            &&& open_error(source) is None
            &&& document.bytes == encode_utf8(text)
            &&& document.encoding == encoding
            &&& document.path == Some(path)
            &&& !document.dirty
            &&& document.undo.len() == 0
            &&& !document.awaiting_index ==> document.index.starts == line_starts(document.bytes)
                && document.index.complete
        }),
{
    law_marked_files_are_recognised(text, encoding);
    law_unicode_round_trip(text, encoding);
    let source = encoded_bytes(text, encoding);
    if encoding == TextEncoding::Utf8Bom {
        assert(source.take(3) =~= utf8_bom());
        assert(source.skip(3) =~= encode_utf8(text));
    }
}

/// So does a file in UTF-8 without a mark, where it is taken for one.
pub proof fn law_plain_file_opens_as_its_text(
    path: PathModel,
    text: Seq<char>,
    mode: LoadMode,
    len: u64,
)
    requires
        detected_encoding(encode_utf8(text)) == TextEncoding::Utf8,
    ensures
        ({
            let document = opened(path, encode_utf8(text), mode, len);
            &&& open_error(encode_utf8(text)) is None
            &&& document.bytes == encode_utf8(text)
            &&& document.encoding == TextEncoding::Utf8
            &&& document.path == Some(path)
            &&& !document.dirty
            &&& document.undo.len() == 0
            &&& !document.awaiting_index ==> document.index.starts == line_starts(document.bytes)
                && document.index.complete
        }),
{
    let source = encode_utf8(text);
    assert(source.skip(0) =~= source);
}

/// What is saved is the text with its line breaks written the one way, in the
/// chosen encoding.
pub proof fn law_saved_file_holds_the_text(
    text: Seq<char>,
    encoding: TextEncoding,
    ending: LineEnding,
)
    ensures
        saved_bytes(encode_utf8(text), encoding, ending) == encoded_bytes(
            normalized_chars(text, ending_chars(ending), text.len() as int),
            encoding,
        ),
        ending_chars(LineEnding::Lf) == seq!['\n'],
        ending_chars(LineEnding::Cr) == seq!['\r'],
        ending_chars(LineEnding::CrLf) == seq!['\r', '\n'],
{
    law_bytes_and_text_normalise_alike(text, ending);
    encode_utf8_valid_utf8(text);
    encode_utf8_decode_utf8(text);
}

// ---------------------------------------------------------------------------
// Line endings
// ---------------------------------------------------------------------------

proof fn lemma_counted(bytes: Seq<u8>, ending: LineEnding, n: int, at: int)
    requires
        0 <= at < n <= bytes.len(),
        ending_at(bytes, at) == Some(ending),
    ensures
        ending_count(bytes, ending, n) > 0,
    decreases n,
{
    lemma_count_not_negative(bytes, ending, n - 1);
    if at < n - 1 {
        lemma_counted(bytes, ending, n - 1, at);
    }
}

proof fn lemma_count_not_negative(bytes: Seq<u8>, ending: LineEnding, n: int)
    ensures
        ending_count(bytes, ending, n) >= 0,
    decreases n,
{
    if n > 0 {
        lemma_count_not_negative(bytes, ending, n - 1);
    }
}

proof fn lemma_not_counted(bytes: Seq<u8>, ending: LineEnding, n: int)
    requires
        0 <= n <= bytes.len(),
        forall|i: int| 0 <= i < n ==> #[trigger] ending_at(bytes, i) != Some(ending),
    ensures
        ending_count(bytes, ending, n) == 0,
    decreases n,
{
    if n > 0 {
        assert(ending_at(bytes, n - 1) != Some(ending));
        lemma_not_counted(bytes, ending, n - 1);
    }
}

/// A file whose line breaks, among its first bytes, are all of one kind is taken
/// for one of that kind; one without any gets the kind of Windows.
pub proof fn law_line_breaks_of_one_kind_are_recognised(bytes: Seq<u8>)
    requires
        bytes.len() <= LINE_ENDING_SAMPLE_LIMIT,
    ensures
        (forall|i: int| 0 <= i < bytes.len() ==> #[trigger] bytes[i] != 13u8) && (exists|i: int|
            0 <= i < bytes.len() && #[trigger] bytes[i] == 10u8) ==> detected_ending(bytes)
            == LineEnding::Lf,
        (forall|i: int| 0 <= i < bytes.len() ==> #[trigger] bytes[i] != 10u8) && (exists|i: int|
            0 <= i < bytes.len() && #[trigger] bytes[i] == 13u8) ==> detected_ending(bytes)
            == LineEnding::Cr,
        (forall|i: int|
            0 <= i < bytes.len() ==> #[trigger] bytes[i] != 13u8 && bytes[i] != 10u8)
            ==> detected_ending(bytes) == LineEnding::CrLf,
        (forall|i: int|
            0 <= i < bytes.len() ==> (#[trigger] bytes[i] == 13u8 ==> i + 1 < bytes.len()
                && bytes[i + 1] == 10u8) && (bytes[i] == 10u8 ==> i > 0 && bytes[i - 1] == 13u8))
            ==> detected_ending(bytes) == LineEnding::CrLf,
{
    let n = bytes.len() as int;
    assert(bytes.take(n) =~= bytes);
    lemma_count_not_negative(bytes, LineEnding::CrLf, n);
    lemma_count_not_negative(bytes, LineEnding::Lf, n);
    lemma_count_not_negative(bytes, LineEnding::Cr, n);
    if forall|i: int| 0 <= i < bytes.len() ==> #[trigger] bytes[i] != 13u8 {
        lemma_not_counted(bytes, LineEnding::CrLf, n);
        lemma_not_counted(bytes, LineEnding::Cr, n);
        if exists|i: int| 0 <= i < bytes.len() && #[trigger] bytes[i] == 10u8 {
            let i = choose|i: int| 0 <= i < bytes.len() && #[trigger] bytes[i] == 10u8;
            lemma_counted(bytes, LineEnding::Lf, n, i);
        }
    }
    if forall|i: int| 0 <= i < bytes.len() ==> #[trigger] bytes[i] != 10u8 {
        assert forall|i: int| 0 <= i < n implies #[trigger] ending_at(bytes, i) != Some(
            LineEnding::CrLf,
        ) by {
            if i + 1 < n {
                assert(bytes[i + 1] != 10u8);
            }
        }
        lemma_not_counted(bytes, LineEnding::CrLf, n);
        lemma_not_counted(bytes, LineEnding::Lf, n);
        if exists|i: int| 0 <= i < bytes.len() && #[trigger] bytes[i] == 13u8 {
            let i = choose|i: int| 0 <= i < bytes.len() && #[trigger] bytes[i] == 13u8;
            assert(ending_at(bytes, i) == Some(LineEnding::Cr));
            lemma_counted(bytes, LineEnding::Cr, n, i);
        }
    }
    if forall|i: int|
        0 <= i < bytes.len() ==> (#[trigger] bytes[i] == 13u8 ==> i + 1 < bytes.len()
            && bytes[i + 1] == 10u8) && (bytes[i] == 10u8 ==> i > 0 && bytes[i - 1] == 13u8) {
        lemma_not_counted(bytes, LineEnding::Cr, n);
        lemma_not_counted(bytes, LineEnding::Lf, n);
    }
}

/// Files from fifty megabytes on are mapped.
pub proof fn law_large_files_are_mapped()
    ensures
        MMAP_THRESHOLD_BYTES == 50 * 1024 * 1024,
{
}

// ---------------------------------------------------------------------------
// Changes
// ---------------------------------------------------------------------------

/// Typing into a document that has no unsaved changes makes it a changed one, and
/// one that can be undone.
pub proof fn law_typing_changes_the_document(a: AppModel, text: Seq<char>)
    requires
        document_valid(a.document),
        can_type(a),
        text.len() > 0,
        a.document.generation < u64::MAX,
        !a.document.dirty,
    ensures
        typed(a, text).1 is None,
        typed(a, text).0.document.dirty,
        typed(a, text).0.document.undo.len() > 0,
        typed(a, text).0.document.path == a.document.path,
        put_in_place(a, typed(a, text).0, encode_utf8(text)),
{
    crate::command_laws::lemma_typing_puts_in_place(a, text);
}

/// A save that has come to its end makes the document one without changes, if it
/// is still the one that was written; the text stays as it is. Edits made in the
/// meantime stay unsaved, and so does everything where the save failed.
pub proof fn law_saving_clears_the_changes(g: GuiModel, a: AppModel, end: SaveEnd)
    ensures
        ({
            let (gui, after) = save_ended(g, a, end);
            &&& !gui.saving
            &&& after.document.bytes == a.document.bytes
            &&& after.caret == a.caret
            &&& after.selection == a.selection
            &&& after.settings == a.settings
            &&& match end {
                SaveEnd::Written { generation, len } => if generation == a.document.generation {
                    !after.document.dirty && after.document.original_file_len == len
                        && after.document.saved_generation == Some(generation)
                } else {
                    after == a
                },
                SaveEnd::Failed(_) => after == a && (gui.dialog is Some
                    || gui.pending_info_dialog is Some),
                SaveEnd::Stopped => after == a && (gui.dialog is Some
                    || gui.pending_info_dialog is Some),
            }
        }),
{
}

/// After a save, typing and undoing it leads back to a document without changes.
pub proof fn law_undoing_back_to_the_saved_text(a: AppModel, text: Seq<char>, len: u64)
    requires
        document_valid(a.document),
        can_type(a),
        text.len() > 0,
    ensures
        ({
            let saved = AppModel { document: saved_as_is(a.document, len), ..a };
            let back = crate::app::edit_undone(typed(saved, text).0);
            &&& back.1 is None
            &&& back.0.document.bytes == a.document.bytes
            &&& !back.0.document.dirty
        }),
{
    let saved = AppModel { document: saved_as_is(a.document, len), ..a };
    crate::command_laws::lemma_typing_puts_in_place(saved, text);
    crate::app_laws::law_undo_restores_typing(saved, text);
}

/// A file with line breaks of several kinds, among its first bytes, is taken for
/// one of the kind that is most frequent there; of kinds that are equally
/// frequent the one of Windows comes first, and a line feed before a carriage
/// return.
pub proof fn law_most_frequent_line_break_is_recognised(bytes: Seq<u8>)
    requires
        bytes.len() <= LINE_ENDING_SAMPLE_LIMIT,
    ensures
        ({
            let n = bytes.len() as int;
            let pairs = ending_count(bytes, LineEnding::CrLf, n);
            let feeds = ending_count(bytes, LineEnding::Lf, n);
            let alone = ending_count(bytes, LineEnding::Cr, n);
            &&& feeds > pairs && feeds >= alone ==> detected_ending(bytes) == LineEnding::Lf
            &&& alone > pairs && alone > feeds ==> detected_ending(bytes) == LineEnding::Cr
            &&& pairs >= feeds && pairs >= alone ==> detected_ending(bytes) == LineEnding::CrLf
        }),
{
    let n = bytes.len() as int;
    assert(bytes.take(n) =~= bytes);
    lemma_count_not_negative(bytes, LineEnding::CrLf, n);
    lemma_count_not_negative(bytes, LineEnding::Lf, n);
    lemma_count_not_negative(bytes, LineEnding::Cr, n);
}

} // verus!

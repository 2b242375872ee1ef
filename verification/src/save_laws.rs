//! What saving does to line breaks, and what is read back from a saved file.

use crate::document::{
    ends_in_cr, file_text, lemma_normalized_concat, normalized_bytes, open_error, saved_bytes,
    saved_text,
};
use crate::encoding::{
    body_of, detected_encoding, encoded_bytes, law_marked_files_are_recognised,
    law_unicode_round_trip, utf8_bom, TextEncoding,
};
use crate::line_index::{
    detected_ending, ending_at, ending_bytes, ending_chars, ending_count, ends_line,
    lemma_line_breaks_shift, line_breaks, line_starts, min, normalized_chars, LineEnding, CR, LF,
    LINE_ENDING_SAMPLE_LIMIT,
};
use crate::text::{lemma_encode_concat, lemma_encode_one, shown_text};
use vstd::prelude::*;
use vstd::utf8::*;

verus! {

/// Bytes without newlines stay as they are.
proof fn lemma_normalized_plain(bytes: Seq<u8>, ending: Seq<u8>, n: int)
    requires
        0 <= n <= bytes.len(),
        forall|i: int| 0 <= i < bytes.len() ==> #[trigger] bytes[i] != CR && bytes[i] != LF,
    ensures
        normalized_bytes(bytes, ending, n) == bytes.take(n),
    decreases n,
{
    if n > 0 {
        lemma_normalized_plain(bytes, ending, n - 1);
        assert(bytes[n - 1] != CR && bytes[n - 1] != LF);
        assert(normalized_bytes(bytes, ending, n) =~= bytes.take(n));
    } else {
        assert(normalized_bytes(bytes, ending, n) =~= bytes.take(n));
    }
}

/// The bytes of a character are newline bytes only for the newline characters.
proof fn lemma_char_bytes(c: char)
    ensures
        c == '\r' ==> encode_scalar(c as u32) == seq![CR],
        c == '\n' ==> encode_scalar(c as u32) == seq![LF],
        c != '\r' && c != '\n' ==> forall|i: int|
            0 <= i < encode_scalar(c as u32).len() ==> #[trigger] encode_scalar(c as u32)[i] != CR
                && encode_scalar(c as u32)[i] != LF,
        encode_scalar(c as u32).len() > 0,
{
    let v = c as u32;
    char_is_scalar(c);
    char_u32_cast(c, v);
    if v <= 0x7F {
        assert(leading_byte_width_1(v) == v as u8) by (bit_vector)
            requires
                v <= 0x7F,
        ;
        assert(encode_scalar(v) =~= seq![v as u8]);
    } else {
        assert(leading_byte_width_2(v) >= 0x80) by (bit_vector);
        assert(leading_byte_width_3(v) >= 0x80) by (bit_vector);
        assert(leading_byte_width_4(v) >= 0x80) by (bit_vector);
        assert(last_continuation_byte(v) >= 0x80) by (bit_vector);
        assert(second_last_continuation_byte(v) >= 0x80) by (bit_vector);
        assert(third_last_continuation_byte(v) >= 0x80) by (bit_vector);
    }
}

proof fn lemma_encoded_ends_in_cr(text: Seq<char>)
    requires
        text.len() > 0,
    ensures
        ends_in_cr(encode_utf8(text)) == (text.last() == '\r'),
{
    let front = text.drop_last();
    let c = text.last();
    assert(text =~= front + seq![c]);
    lemma_encode_concat(front, seq![c]);
    lemma_encode_one(c);
    lemma_char_bytes(c);
    let bytes = encode_utf8(text);
    let tail = encode_scalar(c as u32);
    assert(bytes.last() == tail.last());
    assert(tail.last() == tail[tail.len() - 1]);
}

/// Normalising the bytes of a text gives the bytes of the normalised text: the
/// files of all encodings get the same line breaks.
pub proof fn law_bytes_and_text_normalise_alike(text: Seq<char>, ending: LineEnding)
    ensures
        normalized_bytes(
            encode_utf8(text),
            ending_bytes(ending),
            encode_utf8(text).len() as int,
        ) == encode_utf8(normalized_chars(text, ending_chars(ending), text.len() as int)),
    decreases text.len(),
{
    let e = ending_bytes(ending);
    let f = ending_chars(ending);
    let bytes = encode_utf8(text);
    if text.len() == 0 {
        assert(bytes =~= Seq::<u8>::empty());
        assert(normalized_bytes(bytes, e, 0) =~= encode_utf8(normalized_chars(text, f, 0)));
    } else {
        let front = text.drop_last();
        let c = text.last();
        let head = encode_utf8(front);
        let tail = encode_scalar(c as u32);
        let n = text.len() as int;
        law_bytes_and_text_normalise_alike(front, ending);
        assert(text =~= front + seq![c]);
        lemma_encode_concat(front, seq![c]);
        lemma_encode_one(c);
        lemma_char_bytes(c);
        assert(bytes == head + tail);
        lemma_normalized_chars_prefix(text, front, f, n - 1);
        let before = normalized_chars(text, f, n - 1);
        lemma_ending_encodes(ending);
        lemma_encode_concat(before, f);
        lemma_encode_concat(before, seq![c]);
        assert(before.push(c) =~= before + seq![c]);
        if front.len() > 0 {
            lemma_encoded_ends_in_cr(front);
        } else {
            assert(head =~= Seq::<u8>::empty());
        }
        if c == '\n' && front.len() > 0 && front.last() == '\r' {
            assert(bytes[bytes.len() - 1] == LF);
            assert(bytes[bytes.len() - 2] == head.last());
            assert(bytes.drop_last() =~= head);
            lemma_prefix_of_bytes(bytes, head, e);
            assert(text[n - 2] == '\r');
        } else {
            lemma_normalized_concat(head, tail, e, tail.len() as int);
            if c == '\r' {
                assert(normalized_bytes(tail, e, 0) =~= Seq::<u8>::empty());
                assert(normalized_bytes(tail, e, 1) =~= e);
            } else if c == '\n' {
                assert(normalized_bytes(tail, e, 0) =~= Seq::<u8>::empty());
                assert(normalized_bytes(tail, e, 1) =~= e);
                if n > 1 {
                    assert(text[n - 2] == front.last());
                }
            } else {
                lemma_normalized_plain(tail, e, tail.len() as int);
                assert(tail.take(tail.len() as int) =~= tail);
            }
        }
    }
}

proof fn lemma_prefix_of_bytes(bytes: Seq<u8>, head: Seq<u8>, e: Seq<u8>)
    requires
        bytes.len() == head.len() + 1,
        bytes.drop_last() == head,
        bytes.last() == LF,
        ends_in_cr(head),
    ensures
        normalized_bytes(bytes, e, bytes.len() as int) == normalized_bytes(
            head,
            e,
            head.len() as int,
        ),
{
    let tail = seq![0u8];
    lemma_normalized_concat(head, tail, e, 0);
    let other = head + tail;
    lemma_same_normalized(bytes, other, e, head.len() as int);
    assert(normalized_bytes(tail, e, 0) =~= Seq::<u8>::empty());
    assert(normalized_bytes(other, e, head.len() as int) =~= normalized_bytes(
        head,
        e,
        head.len() as int,
    ));
    assert(bytes[bytes.len() - 2] == head.last());
}

proof fn lemma_same_normalized(a: Seq<u8>, b: Seq<u8>, e: Seq<u8>, n: int)
    requires
        n <= a.len(),
        n <= b.len(),
        forall|i: int| 0 <= i < n ==> a[i] == #[trigger] b[i],
    ensures
        normalized_bytes(a, e, n) == normalized_bytes(b, e, n),
    decreases n,
{
    if n > 0 {
        lemma_same_normalized(a, b, e, n - 1);
        assert(a[n - 1] == b[n - 1]);
        if n > 1 {
            assert(a[n - 2] == b[n - 2]);
        }
    }
}

proof fn lemma_normalized_chars_prefix(a: Seq<char>, b: Seq<char>, e: Seq<char>, n: int)
    requires
        n <= a.len(),
        n <= b.len(),
        forall|i: int| 0 <= i < n ==> a[i] == #[trigger] b[i],
    ensures
        normalized_chars(a, e, n) == normalized_chars(b, e, n),
    decreases n,
{
    if n > 0 {
        lemma_normalized_chars_prefix(a, b, e, n - 1);
        assert(a[n - 1] == b[n - 1]);
        if n > 1 {
            assert(a[n - 2] == b[n - 2]);
        }
    }
}

proof fn lemma_ending_encodes(ending: LineEnding)
    ensures
        encode_utf8(ending_chars(ending)) == ending_bytes(ending),
{
    lemma_char_bytes('\r');
    lemma_char_bytes('\n');
    lemma_encode_one('\r');
    lemma_encode_one('\n');
    lemma_encode_concat(seq!['\r'], seq!['\n']);
    assert(seq!['\r'] + seq!['\n'] =~= seq!['\r', '\n']);
    assert(seq![CR] + seq![LF] =~= seq![CR, LF]);
}

/// Line breaks that are normalised to one kind and then to another are as if they
/// had been normalised to the other at once.
pub proof fn law_last_normalising_decides(bytes: Seq<u8>, first: LineEnding, last: LineEnding)
    ensures
        ({
            let once = normalized_bytes(bytes, ending_bytes(first), bytes.len() as int);
            normalized_bytes(once, ending_bytes(last), once.len() as int) == normalized_bytes(
                bytes,
                ending_bytes(last),
                bytes.len() as int,
            )
        }),
{
    lemma_normalised_anew(bytes, first, last, bytes.len() as int);
}

proof fn lemma_normalised_anew(bytes: Seq<u8>, first: LineEnding, last: LineEnding, n: int)
    requires
        0 <= n <= bytes.len(),
    ensures
        ({
            let once = normalized_bytes(bytes, ending_bytes(first), n);
            &&& normalized_bytes(once, ending_bytes(last), once.len() as int) == normalized_bytes(
                bytes,
                ending_bytes(last),
                n,
            )
            &&& first == LineEnding::Lf ==> !ends_in_cr(once)
        }),
    decreases n,
{
    let e = ending_bytes(first);
    let f = ending_bytes(last);
    let once = normalized_bytes(bytes, e, n);
    if n > 0 {
        lemma_normalised_anew(bytes, first, last, n - 1);
        let before = normalized_bytes(bytes, e, n - 1);
        let byte = bytes[n - 1];
        if byte == CR || (byte == LF && !(n > 1 && bytes[n - 2] == CR)) {
            lemma_normalized_concat(before, e, f, e.len() as int);
            assert(normalized_bytes(e, f, e.len() as int) =~= f) by {
                reveal_with_fuel(normalized_bytes, 3);
                assert(normalized_bytes(e, f, 0) =~= Seq::<u8>::empty());
                assert(normalized_bytes(e, f, 1) =~= f);
            }
            assert(once == before + e);
            assert(once.last() == e.last());
        } else if byte == LF {
            assert(once == before);
        } else {
            let one = seq![byte];
            lemma_normalized_concat(before, one, f, 1);
            lemma_normalized_plain(one, f, 1);
            assert(one.take(1) =~= one);
            assert(once =~= before + one);
        }
    }
}

/// Line breaks that are normalised stay as they are when normalised again.
pub proof fn law_normalising_twice_changes_nothing(bytes: Seq<u8>, ending: LineEnding)
    ensures
        ({
            let e = ending_bytes(ending);
            let once = normalized_bytes(bytes, e, bytes.len() as int);
            normalized_bytes(once, e, once.len() as int) == once
        }),
{
    law_last_normalising_decides(bytes, ending, ending);
}

/// So it is of a text: the last normalising decides.
pub proof fn law_last_normalising_of_text_decides(
    text: Seq<char>,
    first: LineEnding,
    last: LineEnding,
)
    ensures
        ({
            let once = normalized_chars(text, ending_chars(first), text.len() as int);
            normalized_chars(once, ending_chars(last), once.len() as int) == normalized_chars(
                text,
                ending_chars(last),
                text.len() as int,
            )
        }),
{
    let once = normalized_chars(text, ending_chars(first), text.len() as int);
    let twice = normalized_chars(once, ending_chars(last), once.len() as int);
    let at_once = normalized_chars(text, ending_chars(last), text.len() as int);
    law_bytes_and_text_normalise_alike(text, first);
    law_bytes_and_text_normalise_alike(text, last);
    law_bytes_and_text_normalise_alike(once, last);
    law_last_normalising_decides(encode_utf8(text), first, last);
    encode_utf8_decode_utf8(twice);
    encode_utf8_decode_utf8(at_once);
}

/// A text that is saved and opened again is the same text, up to the line breaks
/// that it was saved with. For UTF-8 without a mark this holds where the file is
/// taken for UTF-8.
pub proof fn law_saved_file_reopens(bytes: Seq<u8>, encoding: TextEncoding, ending: LineEnding)
    requires
        valid_utf8(bytes),
        encoding != TextEncoding::Ansi,
        encoding == TextEncoding::Utf8 ==> detected_encoding(saved_bytes(bytes, encoding, ending))
            == TextEncoding::Utf8,
    ensures
        open_error(saved_bytes(bytes, encoding, ending)) is None,
        file_text(saved_bytes(bytes, encoding, ending)) == normalized_bytes(
            bytes,
            ending_bytes(ending),
            bytes.len() as int,
        ),
        detected_encoding(saved_bytes(bytes, encoding, ending)) == encoding,
{
    let body = normalized_bytes(bytes, ending_bytes(ending), bytes.len() as int);
    let file = saved_bytes(bytes, encoding, ending);
    let text = shown_text(bytes);
    let saved = saved_text(bytes, ending);
    law_bytes_and_text_normalise_alike(text, ending);
    decode_utf8_encode_utf8(bytes);
    assert(encode_utf8(saved) == body);
    law_unicode_round_trip(saved, encoding);
    match encoding {
        TextEncoding::Utf8 => {
            assert(body_of(file, encoding) =~= file);
        },
        TextEncoding::Utf8Bom => {
            law_marked_files_are_recognised(saved, encoding);
            assert(file == encoded_bytes(saved, encoding));
            assert(file.take(3) =~= utf8_bom());
            assert(body_of(file, encoding) =~= body);
        },
        _ => {
            law_marked_files_are_recognised(saved, encoding);
        },
    }
}

/// The newlines of normalised bytes: none but the one kind, and no half of a
/// pair.
proof fn lemma_normalised_newlines(bytes: Seq<u8>, ending: LineEnding, n: int)
    requires
        0 <= n <= bytes.len(),
    ensures
        ({
            let text = normalized_bytes(bytes, ending_bytes(ending), n);
            forall|i: int|
                0 <= i < text.len() ==> match ending {
                    LineEnding::Lf => #[trigger] text[i] != CR,
                    LineEnding::Cr => text[i] != LF,
                    LineEnding::CrLf => (text[i] == CR ==> i + 1 < text.len() && text[i + 1] == LF)
                        && (text[i] == LF ==> i > 0 && text[i - 1] == CR),
                }
        }),
    decreases n,
{
    if n > 0 {
        lemma_normalised_newlines(bytes, ending, n - 1);
        let before = normalized_bytes(bytes, ending_bytes(ending), n - 1);
        let text = normalized_bytes(bytes, ending_bytes(ending), n);
        assert forall|i: int| 0 <= i < text.len() implies match ending {
            LineEnding::Lf => #[trigger] text[i] != CR,
            LineEnding::Cr => text[i] != LF,
            LineEnding::CrLf => (text[i] == CR ==> i + 1 < text.len() && text[i + 1] == LF) && (
            text[i] == LF ==> i > 0 && text[i - 1] == CR),
        } by {
            if i < before.len() {
                assert(text[i] == before[i]);
                if i + 1 < before.len() {
                    assert(text[i + 1] == before[i + 1]);
                }
                if i > 0 {
                    assert(text[i - 1] == before[i - 1]);
                }
            }
        }
    }
}

pub open spec fn is_newline(c: char) -> bool {
    c == '\r' || c == '\n'
}

/// A text without its newline characters.
pub open spec fn without_newlines(text: Seq<char>) -> Seq<char>
    decreases text.len(),
{
    if text.len() == 0 {
        Seq::empty()
    } else if is_newline(text.last()) {
        without_newlines(text.drop_last())
    } else {
        without_newlines(text.drop_last()).push(text.last())
    }
}

/// `part` stands in `text` from `at` on, and covers position `k`.
pub open spec fn covers(text: Seq<char>, part: Seq<char>, at: int, k: int) -> bool {
    0 <= at <= k < at + part.len() <= text.len() && text.subrange(at, at + part.len()) == part
}

proof fn lemma_without_newlines_joins(text: Seq<char>, ending: LineEnding)
    ensures
        without_newlines(text + ending_chars(ending)) == without_newlines(text),
{
    let e = ending_chars(ending);
    assert((text + e).drop_last() =~= text + e.drop_last());
    if ending == LineEnding::CrLf {
        assert((text + e).drop_last().drop_last() =~= text);
    } else {
        assert((text + e).drop_last() =~= text);
    }
    reveal_with_fuel(without_newlines, 3);
}

proof fn lemma_only_newlines_change(text: Seq<char>, ending: LineEnding, n: int)
    requires
        0 <= n <= text.len(),
    ensures
        ({
            let out = normalized_chars(text, ending_chars(ending), n);
            &&& without_newlines(out) == without_newlines(text.take(n))
            &&& forall|k: int|
                0 <= k < out.len() && is_newline(#[trigger] out[k]) ==> exists|at: int|
                    covers(out, ending_chars(ending), at, k)
        }),
    decreases n,
{
    let e = ending_chars(ending);
    let out = normalized_chars(text, e, n);
    if n > 0 {
        lemma_only_newlines_change(text, ending, n - 1);
        let before = normalized_chars(text, e, n - 1);
        let c = text[n - 1];
        assert(text.take(n).drop_last() =~= text.take(n - 1));
        assert(text.take(n).last() == c);
        lemma_without_newlines_joins(before, ending);
        assert(before.push(c).drop_last() =~= before);
        assert forall|k: int| 0 <= k < out.len() && is_newline(#[trigger] out[k]) implies exists|
            at: int,
        |
            covers(out, e, at, k) by {
            if k < before.len() {
                assert(is_newline(before[k]));
                let at = choose|at: int| covers(before, e, at, k);
                assert(out.subrange(at, at + e.len()) =~= before.subrange(at, at + e.len()));
                assert(covers(out, e, at, k));
            } else {
                assert(out == before + e);
                assert(out.subrange(before.len() as int, out.len() as int) =~= e);
                assert(covers(out, e, before.len() as int, k));
            }
        }
    }
}

/// One more byte begins one more line, where it is a newline that completes no
/// pair.
proof fn lemma_lines_of_one_more(bytes: Seq<u8>, byte: u8)
    ensures
        line_starts(bytes.push(byte)).len() == line_starts(bytes).len() + (if byte == CR || (byte
            == LF && !ends_in_cr(bytes)) {
            1int
        } else {
            0
        }),
{
    let more = bytes.push(byte);
    let n = bytes.len() as int;
    assert forall|p: int| 0 < p <= n - 1 implies #[trigger] ends_line(bytes, p) == ends_line(
        more,
        p + 0,
    ) by {
        assert(more[p - 1] == bytes[p - 1] && more[p] == bytes[p]);
    }
    lemma_line_breaks_shift(bytes, more, 0, n - 1, 0);
    reveal_with_fuel(line_breaks, 3);
    if n > 0 {
        assert(more[n - 1] == bytes[n - 1]);
    }
    assert(more[n] == byte);
}

proof fn lemma_normalising_keeps_lines(bytes: Seq<u8>, ending: LineEnding, n: int)
    requires
        0 <= n <= bytes.len(),
    ensures
        line_starts(normalized_bytes(bytes, ending_bytes(ending), n)).len() == line_starts(
            bytes.take(n),
        ).len(),
    decreases n,
{
    let e = ending_bytes(ending);
    if n > 0 {
        lemma_normalising_keeps_lines(bytes, ending, n - 1);
        lemma_normalised_newlines(bytes, ending, n - 1);
        let before = normalized_bytes(bytes, e, n - 1);
        let byte = bytes[n - 1];
        assert(bytes.take(n) =~= bytes.take(n - 1).push(byte));
        lemma_lines_of_one_more(bytes.take(n - 1), byte);
        if n > 1 {
            assert(bytes.take(n - 1).last() == bytes[n - 2]);
        }
        lemma_lines_of_one_more(before, byte);
        lemma_lines_of_one_more(before, e[0]);
        if before.len() > 0 {
            assert(before.last() == before[before.len() - 1]);
        }
        assert(before + e.take(1) =~= before.push(e[0]));
        if ending == LineEnding::CrLf {
            lemma_lines_of_one_more(before.push(CR), LF);
            assert(before + e =~= before.push(CR).push(LF));
        } else {
            assert(before + e =~= before.push(e[0]));
        }
    } else {
        assert(bytes.take(0) =~= normalized_bytes(bytes, e, 0));
    }
}

/// Normalising a text changes its line breaks and nothing else: the other
/// characters stay as they are and where they are, every newline that is left
/// belongs to a line break of the wanted kind, and there are as many lines as
/// before.
pub proof fn law_normalising_changes_only_line_breaks(text: Seq<char>, ending: LineEnding)
    ensures
        ({
            let out = normalized_chars(text, ending_chars(ending), text.len() as int);
            &&& without_newlines(out) == without_newlines(text)
            &&& forall|k: int|
                0 <= k < out.len() && is_newline(#[trigger] out[k]) ==> exists|at: int|
                    covers(out, ending_chars(ending), at, k)
            &&& line_starts(encode_utf8(out)).len() == line_starts(encode_utf8(text)).len()
        }),
{
    let bytes = encode_utf8(text);
    let n = bytes.len() as int;
    lemma_only_newlines_change(text, ending, text.len() as int);
    assert(text.take(text.len() as int) =~= text);
    law_bytes_and_text_normalise_alike(text, ending);
    lemma_normalising_keeps_lines(bytes, ending, n);
    assert(bytes.take(n) =~= bytes);
}

proof fn lemma_no_ending(text: Seq<u8>, ending: LineEnding, n: int)
    requires
        0 <= n <= text.len(),
        forall|i: int| 0 <= i < n ==> #[trigger] ending_at(text, i) != Some(ending),
    ensures
        ending_count(text, ending, n) == 0,
    decreases n,
{
    if n > 0 {
        assert(ending_at(text, n - 1) != Some(ending));
        lemma_no_ending(text, ending, n - 1);
    }
}

/// A text in which the newline that it was saved with occurs among the first
/// bytes is recognised by it when it is opened.
pub proof fn law_saved_ending_is_recognised(bytes: Seq<u8>, ending: LineEnding)
    requires
        ({
            let text = normalized_bytes(bytes, ending_bytes(ending), bytes.len() as int);
            let n = min(text.len() as int, LINE_ENDING_SAMPLE_LIMIT as int);
            ending_count(text.take(n), ending, n) > 0
        }),
    ensures
        detected_ending(normalized_bytes(bytes, ending_bytes(ending), bytes.len() as int))
            == ending,
{
    let text = normalized_bytes(bytes, ending_bytes(ending), bytes.len() as int);
    let n = min(text.len() as int, LINE_ENDING_SAMPLE_LIMIT as int);
    let sample = text.take(n);
    lemma_normalised_newlines(bytes, ending, bytes.len() as int);
    assert forall|i: int| 0 <= i < n implies sample[i] == #[trigger] text[i] by {}
    match ending {
        LineEnding::Lf => {
            assert forall|i: int| 0 <= i < n implies #[trigger] ending_at(sample, i) != Some(
                LineEnding::CrLf,
            ) && ending_at(sample, i) != Some(LineEnding::Cr) by {
                assert(text[i] != CR);
            }
            lemma_no_ending(sample, LineEnding::CrLf, n);
            lemma_no_ending(sample, LineEnding::Cr, n);
        },
        LineEnding::Cr => {
            assert forall|i: int| 0 <= i < n implies #[trigger] ending_at(sample, i) != Some(
                LineEnding::CrLf,
            ) && ending_at(sample, i) != Some(LineEnding::Lf) by {
                assert(text[i] != LF);
                if i + 1 < n {
                    assert(text[i + 1] != LF);
                }
            }
            lemma_no_ending(sample, LineEnding::CrLf, n);
            lemma_no_ending(sample, LineEnding::Lf, n);
        },
        LineEnding::CrLf => {
            assert forall|i: int| 0 <= i < n implies #[trigger] ending_at(sample, i) != Some(
                LineEnding::Lf,
            ) by {
                if text[i] == LF {
                    assert(text[i - 1] == CR);
                    assert(sample[i - 1] == CR);
                }
            }
            lemma_no_ending(sample, LineEnding::Lf, n);
            // A pair that the sample cuts in two counts once as a single CR.
            assert forall|i: int| 0 <= i < n - 1 implies #[trigger] ending_at(sample, i) != Some(
                LineEnding::Cr,
            ) by {
                if text[i] == CR {
                    assert(text[i + 1] == LF);
                    assert(sample[i + 1] == LF);
                }
            }
            if n > 0 {
                lemma_no_ending(sample, LineEnding::Cr, n - 1);
            }
        },
    }
}

} // verus!

//! Text split into the units that are drawn as one: a character, or an emoji
//! with what belongs to it.

use crate::text::{char_width, lemma_encode_concat, lemma_encode_one};
use vstd::prelude::*;
use vstd::utf8::*;

verus! {

#[derive(Clone, Copy, Debug, PartialEq, Eq, Structural)]
pub enum TextUnitKind {
    Character,
    EmojiCluster,
    Ignorable,
}

/// A unit of a text. `start` and `end` are byte offsets; `first_char` and
/// `end_char` count characters.
#[derive(Clone, Copy, Debug, PartialEq, Eq, Structural)]
pub struct TextUnit {
    pub first: char,
    pub start: usize,
    pub end: usize,
    pub first_char: usize,
    pub end_char: usize,
    pub kind: TextUnitKind,
}

// ---------------------------------------------------------------------------
// Characters
// ---------------------------------------------------------------------------

pub open spec fn emoji_candidate(c: char) -> bool {
    let v = c as u32;
    0x1F000 <= v <= 0x1FFFF || 0x2600 <= v <= 0x27BF || 0x2300 <= v <= 0x23FF
}

pub fn is_color_emoji_candidate(character: char) -> (is: bool)
    ensures
        is == emoji_candidate(character),
{
    let v: u32 = character as u32;
    (0x1F000 <= v && v <= 0x1FFFF) || (0x2600 <= v && v <= 0x27BF) || (0x2300 <= v && v <= 0x23FF)
}

/// A character that an emoji can begin with, the signs for male and female
/// among them.
pub open spec fn starts_emoji(c: char) -> bool {
    emoji_candidate(c) || c as u32 == 0x2642 || c as u32 == 0x2640
}

pub fn is_emoji_cluster_start(character: char) -> (is: bool)
    ensures
        is == starts_emoji(character),
{
    let v: u32 = character as u32;
    is_color_emoji_candidate(character) || v == 0x2642 || v == 0x2640
}

/// A skin tone.
pub open spec fn modifies_emoji(c: char) -> bool {
    0x1F3FB <= c as u32 <= 0x1F3FF
}

pub fn is_emoji_modifier(character: char) -> (is: bool)
    ensures
        is == modifies_emoji(character),
{
    let v: u32 = character as u32;
    0x1F3FB <= v && v <= 0x1F3FF
}

pub open spec fn selects_variation(c: char) -> bool {
    0xFE00 <= c as u32 <= 0xFE0F || 0xE0100 <= c as u32 <= 0xE01EF
}

pub fn is_variation_selector(character: char) -> (is: bool)
    ensures
        is == selects_variation(character),
{
    let v: u32 = character as u32;
    (0xFE00 <= v && v <= 0xFE0F) || (0xE0100 <= v && v <= 0xE01EF)
}

/// A character that nothing is drawn for.
pub open spec fn ignorable(c: char) -> bool {
    c as u32 == 0x200d || c as u32 == 0x200c || selects_variation(c)
}

pub fn is_default_ignorable_for_display(character: char) -> (is: bool)
    ensures
        is == ignorable(character),
{
    let v: u32 = character as u32;
    v == 0x200d || v == 0x200c || is_variation_selector(character)
}

// ---------------------------------------------------------------------------
// Units
// ---------------------------------------------------------------------------

pub open spec fn follows_emoji(c: char) -> bool {
    modifies_emoji(c) || selects_variation(c)
}

/// The end of the modifiers and variation selectors from `i` on.
pub open spec fn suffix_end(text: Seq<char>, i: int) -> int
    decreases text.len() - i,
{
    if 0 <= i < text.len() && follows_emoji(text[i]) {
        suffix_end(text, i + 1)
    } else {
        i
    }
}

/// Another emoji is joined on at `i`.
pub open spec fn joined_on(text: Seq<char>, i: int) -> bool {
    0 <= i && i + 1 < text.len() && text[i] as u32 == 0x200d && starts_emoji(text[i + 1])
}

proof fn lemma_suffix_end(text: Seq<char>, i: int)
    ensures
        i <= suffix_end(text, i),
        0 <= i <= text.len() ==> suffix_end(text, i) <= text.len(),
    decreases text.len() - i,
{
    if 0 <= i < text.len() && follows_emoji(text[i]) {
        lemma_suffix_end(text, i + 1);
    }
}

/// The end of an emoji whose suffix ends at `i`, with all that is joined on.
pub open spec fn cluster_end(text: Seq<char>, i: int) -> int
    decreases text.len() - i,
    via cluster_end_decreases
{
    if joined_on(text, i) {
        cluster_end(text, suffix_end(text, i + 2))
    } else {
        i
    }
}

#[via_fn]
proof fn cluster_end_decreases(text: Seq<char>, i: int) {
    lemma_suffix_end(text, i + 2);
}

/// The kind of a unit, from its first character.
pub open spec fn unit_kind(first: char) -> TextUnitKind {
    if ignorable(first) {
        TextUnitKind::Ignorable
    } else if starts_emoji(first) {
        TextUnitKind::EmojiCluster
    } else {
        TextUnitKind::Character
    }
}

/// The end of the unit that begins with the character at `i`.
pub open spec fn unit_end(text: Seq<char>, i: int) -> int {
    if unit_kind(text[i]) == TextUnitKind::EmojiCluster {
        cluster_end(text, suffix_end(text, i + 1))
    } else {
        i + 1
    }
}

proof fn lemma_cluster_end(text: Seq<char>, i: int)
    ensures
        i <= cluster_end(text, i),
        0 <= i <= text.len() ==> cluster_end(text, i) <= text.len(),
    decreases text.len() - i,
{
    if joined_on(text, i) {
        lemma_suffix_end(text, i + 2);
        lemma_cluster_end(text, suffix_end(text, i + 2));
    }
}

/// A unit is not empty and ends within the text.
pub proof fn lemma_unit_end(text: Seq<char>, i: int)
    requires
        0 <= i < text.len(),
    ensures
        i < unit_end(text, i) <= text.len(),
{
    lemma_suffix_end(text, i + 1);
    lemma_cluster_end(text, suffix_end(text, i + 1));
}

/// How many bytes the first `count` characters take.
pub open spec fn bytes_before(text: Seq<char>, count: int) -> int {
    encode_utf8(text.take(count)).len() as int
}

/// More characters take more bytes.
pub proof fn lemma_bytes_before(text: Seq<char>, i: int, j: int)
    requires
        0 <= i <= j <= text.len(),
    ensures
        0 <= bytes_before(text, i) <= bytes_before(text, j) <= encode_utf8(text).len(),
        bytes_before(text, text.len() as int) == encode_utf8(text).len(),
        bytes_before(text, 0) == 0,
        i < j ==> bytes_before(text, i + 1) == bytes_before(text, i) + encode_scalar(
            text[i] as u32,
        ).len(),
{
    lemma_encode_concat(text.take(i), text.subrange(i, j));
    assert(text.take(i) + text.subrange(i, j) =~= text.take(j));
    lemma_encode_concat(text.take(j), text.skip(j));
    assert(text.take(j) + text.skip(j) =~= text);
    assert(text.take(text.len() as int) =~= text);
    assert(text.take(0) =~= Seq::empty());
    if i < j {
        lemma_encode_concat(text.take(i), seq![text[i]]);
        assert(text.take(i) + seq![text[i]] =~= text.take(i + 1));
        lemma_encode_one(text[i]);
    }
}

/// A unit as a mathematical value, for the character that it begins with.
pub open spec fn is_unit_at(unit: TextUnit, text: Seq<char>, i: int) -> bool {
    &&& 0 <= i < text.len()
    &&& unit.first == text[i]
    &&& unit.first_char == i
    &&& unit.end_char == unit_end(text, i)
    &&& unit.kind == unit_kind(text[i])
    &&& unit.start == bytes_before(text, i)
    &&& unit.end == bytes_before(text, unit_end(text, i))
}

/// The characters at which the units of a text begin, from `i` on.
pub open spec fn unit_starts(text: Seq<char>, i: int) -> Seq<int>
    decreases text.len() - i,
    via unit_starts_decreases
{
    if 0 <= i < text.len() {
        seq![i] + unit_starts(text, unit_end(text, i))
    } else {
        Seq::empty()
    }
}

#[via_fn]
proof fn unit_starts_decreases(text: Seq<char>, i: int) {
    if 0 <= i < text.len() {
        lemma_unit_end(text, i);
    }
}

/// Units that make up a text.
pub open spec fn are_units_of(units: Seq<TextUnit>, text: Seq<char>) -> bool {
    let starts = unit_starts(text, 0);
    &&& units.len() == starts.len()
    &&& forall|k: int| 0 <= k < units.len() ==> is_unit_at(#[trigger] units[k], text, starts[k])
}

/// The characters of a text.
pub fn characters(text: &str) -> (chars: Vec<char>)
    ensures
        chars@ == text@,
{
    let mut chars: Vec<char> = Vec::new();
    for c in iter: text.chars()
        invariant
            chars@ == iter.seq().take(iter.index() as int),
            iter.seq() == text@,
    {
        let ghost before = chars@;
        chars.push(c);
        assert(chars@ =~= iter.seq().take(iter.index() + 1));
    }
    assert(chars@ =~= text@);
    chars
}

pub fn consume_emoji_suffix(text: &Vec<char>, offset: usize) -> (end: usize)
    requires
        offset <= text@.len(),
    ensures
        end == suffix_end(text@, offset as int),
        offset <= end <= text@.len(),
{
    let mut i: usize = offset;
    while i < text.len() && (is_emoji_modifier(text[i]) || is_variation_selector(text[i]))
        invariant
            offset <= i <= text@.len(),
            suffix_end(text@, offset as int) == suffix_end(text@, i as int),
        decreases text@.len() - i,
    {
        i += 1;
    }
    i
}

pub fn consume_emoji_cluster(text: &Vec<char>, offset: usize) -> (end: usize)
    requires
        offset <= text@.len(),
    ensures
        end == cluster_end(text@, suffix_end(text@, offset as int)),
        offset <= end <= text@.len(),
{
    let mut i: usize = consume_emoji_suffix(text, offset);
    while i < text.len() && text.len() - i > 1 && text[i] as u32 == 0x200d
        && is_emoji_cluster_start(text[i + 1])
        invariant
            offset <= i <= text@.len(),
            cluster_end(text@, suffix_end(text@, offset as int)) == cluster_end(text@, i as int),
        decreases text@.len() - i,
    {
        i = consume_emoji_suffix(text, i + 2);
    }
    i
}

pub fn kind_of(first: char) -> (kind: TextUnitKind)
    ensures
        kind == unit_kind(first),
{
    if is_default_ignorable_for_display(first) {
        TextUnitKind::Ignorable
    } else if is_emoji_cluster_start(first) {
        TextUnitKind::EmojiCluster
    } else {
        TextUnitKind::Character
    }
}

/// The end of the unit that begins with the character at `i`, in characters.
pub fn end_of_unit(text: &Vec<char>, i: usize) -> (end: usize)
    requires
        i < text@.len(),
    ensures
        end == unit_end(text@, i as int),
        i < end <= text@.len(),
{
    let count: usize = text.len();
    if kind_of(text[i]) == TextUnitKind::EmojiCluster {
        consume_emoji_cluster(text, i + 1)
    } else {
        i + 1
    }
}

/// The unit that begins with the character at `i`, which stands at byte `start`.
pub fn unit_at(text: &Vec<char>, i: usize, start: usize) -> (unit: TextUnit)
    requires
        i < text@.len(),
        start == bytes_before(text@, i as int),
        encode_utf8(text@).len() <= usize::MAX,
    ensures
        is_unit_at(unit, text@, i as int),
        i < unit.end_char <= text@.len(),
{
    let first: char = text[i];
    let kind = kind_of(first);
    let end_char: usize = end_of_unit(text, i);
    let mut end: usize = start;
    let mut k: usize = i;
    while k < end_char
        invariant
            i <= k <= end_char <= text@.len(),
            end == bytes_before(text@, k as int),
            encode_utf8(text@).len() <= usize::MAX,
        decreases end_char - k,
    {
        proof {
            lemma_bytes_before(text@, k as int, k + 1);
            lemma_bytes_before(text@, k + 1, k + 1);
        }
        end += char_width(text[k]);
        k += 1;
    }
    TextUnit { first, start, end, first_char: i, end_char, kind }
}

/// The units of a text.
pub fn text_units(text: &str) -> (units: Vec<TextUnit>)
    ensures
        are_units_of(units@, text@),
{
    let chars = characters(text);
    let byte_count: usize = text.as_bytes().len();
    let mut units: Vec<TextUnit> = Vec::new();
    let mut i: usize = 0;
    let mut start: usize = 0;
    proof {
        lemma_bytes_before(text@, 0, 0);
    }
    while i < chars.len()
        invariant
            chars@ == text@,
            encode_utf8(text@).len() == byte_count,
            i <= chars@.len(),
            start == bytes_before(text@, i as int),
            unit_starts(text@, 0).len() == units@.len() + unit_starts(text@, i as int).len(),
            unit_starts(text@, 0) == unit_starts(text@, 0).take(units@.len() as int) + unit_starts(
                text@,
                i as int,
            ),
            forall|k: int|
                0 <= k < units@.len() ==> is_unit_at(
                    #[trigger] units@[k],
                    text@,
                    unit_starts(text@, 0)[k],
                ),
        decreases chars@.len() - i,
    {
        let unit = unit_at(&chars, i, start);
        let ghost all = unit_starts(text@, 0);
        let ghost held = units@;
        units.push(unit);
        proof {
            lemma_unit_end(text@, i as int);
            let rest = unit_starts(text@, i as int);
            assert(rest[0] == i);
            assert(all[held.len() as int] == i);
            assert(all =~= all.take(units@.len() as int) + unit_starts(
                text@,
                unit_end(text@, i as int),
            ));
        }
        i = unit.end_char;
        start = unit.end;
    }
    units
}

/// The units of a text follow on each other without a gap, from its start to
/// its end.
pub proof fn law_units_partition_text(text: Seq<char>, i: int)
    requires
        0 <= i < text.len(),
    ensures
        ({
            let starts = unit_starts(text, i);
            &&& starts.len() > 0
            &&& starts[0] == i
            &&& unit_end(text, starts.last()) == text.len()
            &&& forall|k: int|
                #![trigger starts[k]]
                0 <= k < starts.len() ==> 0 <= starts[k] < text.len()
            &&& forall|j: int, k: int|
                0 <= j < starts.len() && k == j + 1 && k < starts.len() ==> #[trigger] starts[k]
                    == unit_end(text, #[trigger] starts[j])
        }),
    decreases text.len() - i,
{
    lemma_unit_end(text, i);
    let next = unit_end(text, i);
    let starts = unit_starts(text, i);
    let rest = unit_starts(text, next);
    assert(starts =~= seq![i] + rest);
    if next < text.len() {
        law_units_partition_text(text, next);
        assert(starts.last() == rest.last());
        assert forall|k: int| #![trigger starts[k]] 0 <= k < starts.len() implies 0 <= starts[k]
            < text.len() by {
            if k > 0 {
                assert(starts[k] == rest[k - 1]);
            }
        }
        assert forall|j: int, k: int|
            0 <= j < starts.len() && k == j + 1 && k < starts.len() implies #[trigger] starts[k]
            == unit_end(text, #[trigger] starts[j]) by {
            assert(starts[k] == rest[k - 1]);
            if j > 0 {
                assert(starts[j] == rest[j - 1]);
                assert(rest[k - 1] == unit_end(text, rest[j - 1]));
            }
        }
    }
}

} // verus!

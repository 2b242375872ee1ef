//! Which glyphs stand for a text: from which font, and where.

use crate::error::{fails_as, BlitzError, ErrorModel, Result};
use crate::ruler::{char_advance, known_cluster, unit_advance, Ruler, RulerModel, TextRole, PIXEL};
use crate::search::opt_int;
use crate::text::{owned, same_text, texts};
use crate::text_units::{
    characters, emoji_candidate, end_of_unit, ignorable, is_color_emoji_candidate,
    is_default_ignorable_for_display, kind_of, lemma_unit_end, unit_end, unit_kind, TextUnitKind,
};
use vstd::prelude::*;

verus! {

// ---------------------------------------------------------------------------
// Fonts
// ---------------------------------------------------------------------------

/// The fonts to look for, the preferred ones first: Aptos and Yu Gothic, then the
/// fonts of the systems.
pub open spec fn preferred_families() -> Seq<&'static str> {
    seq![
        "Aptos",
        "Aptos Display",
        "Aptos Text",
        "Yu Gothic UI",
        "Yu Gothic",
        "YuGothic",
        "Segoe UI",
        "Segoe UI Emoji",
        "Segoe UI Symbol",
        "Segoe Fluent Icons",
        "Segoe UI Historic",
        "Hiragino Sans",
        "Hiragino Kaku Gothic ProN",
        "Apple SD Gothic Neo",
        "Apple Color Emoji",
        "Noto Color Emoji",
        "Noto Emoji",
        "Twemoji Mozilla",
        "Symbola",
        "Helvetica Neue",
        "Arial Unicode MS",
        "Arial",
    ]
}

pub fn font_families() -> (families: Vec<&'static str>)
    ensures
        families@ =~= preferred_families(),
{
    vec![
        "Aptos",
        "Aptos Display",
        "Aptos Text",
        "Yu Gothic UI",
        "Yu Gothic",
        "YuGothic",
        "Segoe UI",
        "Segoe UI Emoji",
        "Segoe UI Symbol",
        "Segoe Fluent Icons",
        "Segoe UI Historic",
        "Hiragino Sans",
        "Hiragino Kaku Gothic ProN",
        "Apple SD Gothic Neo",
        "Apple Color Emoji",
        "Noto Color Emoji",
        "Noto Emoji",
        "Twemoji Mozilla",
        "Symbola",
        "Helvetica Neue",
        "Arial Unicode MS",
        "Arial",
    ]
}

/// Those of the families that can be loaded, in their order.
pub open spec fn loadable(families: Seq<&'static str>, usable: Seq<Seq<char>>) -> Seq<Seq<char>>
    decreases families.len(),
{
    if families.len() == 0 {
        Seq::empty()
    } else if usable.contains(families.last()@) {
        loadable(families.drop_last(), usable).push(families.last()@)
    } else {
        loadable(families.drop_last(), usable)
    }
}

/// The fonts of the editor, in order of preference: the families that can be
/// loaded, or else any font that there is.
pub fn font_stack(usable: &Vec<String>, any: Option<String>) -> (stack: Result<Vec<String>>)
    ensures
        ({
            let found = loadable(preferred_families(), texts(usable@));
            &&& fails_as(
                stack,
                if found.len() == 0 && any is None {
                    Some(ErrorModel::Window("no usable system font found"@))
                } else {
                    None
                },
            )
            &&& stack matches Ok(stack) ==> texts(stack@) == (if found.len() > 0 {
                found
            } else {
                seq![any->0@]
            })
        }),
{
    let families = font_families();
    let ghost list = preferred_families();
    let mut stack: Vec<String> = Vec::new();
    let mut i: usize = 0;
    assert(texts(stack@) =~= loadable(list.take(0), texts(usable@)));
    while i < families.len()
        invariant
            families@ == list,
            i <= list.len(),
            texts(stack@) == loadable(list.take(i as int), texts(usable@)),
        decreases list.len() - i,
    {
        let ghost held = stack@;
        if has_font(usable, families[i]) {
            stack.push(owned(families[i]));
            assert(texts(stack@) =~= texts(held).push(list[i as int]@));
        }
        i += 1;
        assert(list.take(i as int).drop_last() =~= list.take(i - 1));
    }
    assert(list.take(i as int) =~= list);
    assert(texts(stack@).len() == stack@.len());
    if stack.len() > 0 {
        return Ok(stack);
    }
    match any {
        Some(name) => {
            stack.push(name);
            assert(texts(stack@) =~= seq![name@]);
            Ok(stack)
        },
        None => Err(BlitzError::Window(owned("no usable system font found"))),
    }
}

/// A font of this name is among those loaded.
pub fn has_font(names: &Vec<String>, name: &str) -> (has: bool)
    ensures
        has == texts(names@).contains(name@),
{
    let mut i: usize = 0;
    while i < names.len()
        invariant
            i <= names@.len(),
            forall|j: int| 0 <= j < i ==> #[trigger] texts(names@)[j] != name@,
        decreases names@.len() - i,
    {
        assert(texts(names@)[i as int] == names@[i as int]@);
        if same_text(names[i].as_str(), name) {
            return true;
        }
        i += 1;
    }
    false
}

/// The names of the first two fonts.
pub open spec fn fonts_text(names: Seq<Seq<char>>) -> Seq<char> {
    if names.len() == 0 {
        Seq::empty()
    } else if names.len() == 1 {
        names[0]
    } else {
        names[0] + " / "@ + names[1]
    }
}

/// Names the fonts in use.
pub fn description(names: &Vec<String>) -> (text: String)
    ensures
        text@ == fonts_text(texts(names@)),
{
    if names.len() == 0 {
        return String::new();
    }
    let mut text = owned(names[0].as_str());
    if names.len() > 1 {
        text.append(" / ");
        text.append(names[1].as_str());
    }
    text
}

/// What a font has for a character: the number of its glyph, that of its glyph
/// in colour, none being 0, and whether either can be drawn.
#[derive(Clone, Copy, Debug, PartialEq, Eq, Structural)]
pub struct FontGlyph {
    pub glyph_id: u16,
    pub color_glyph_id: u16,
    pub has_color_image: bool,
    pub has_outline: bool,
}

pub open spec fn supports(font: FontGlyph) -> bool {
    font.glyph_id != 0 || font.color_glyph_id != 0
}

/// A font that has a character can draw it, in colour where that is wanted, or
/// in outline.
pub open spec fn draws(font: FontGlyph, c: char) -> bool {
    &&& supports(font)
    &&& (emoji_candidate(c) && font.color_glyph_id != 0 && font.has_color_image)
        || font.has_outline
}

/// The first font from `i` on that has the character.
pub open spec fn first_supporting(fonts: Seq<FontGlyph>, i: int) -> Option<int>
    decreases fonts.len() - i,
{
    if i >= fonts.len() {
        None
    } else if supports(fonts[i]) {
        Some(i)
    } else {
        first_supporting(fonts, i + 1)
    }
}

/// The first font from `i` on that can draw the character.
pub open spec fn first_drawing(fonts: Seq<FontGlyph>, c: char, i: int) -> Option<int>
    decreases fonts.len() - i,
{
    if i >= fonts.len() {
        None
    } else if draws(fonts[i], c) {
        Some(i)
    } else {
        first_drawing(fonts, c, i + 1)
    }
}

/// A character that leaves a blank.
pub open spec fn white(c: char) -> bool {
    let v = c as u32;
    ||| 0x9 <= v <= 0xd
    ||| v == 0x20 || v == 0x85 || v == 0xa0 || v == 0x1680
    ||| 0x2000 <= v <= 0x200a
    ||| v == 0x2028 || v == 0x2029 || v == 0x202f || v == 0x205f || v == 0x3000
}

pub fn is_white(c: char) -> (is: bool)
    ensures
        is == white(c),
{
    let v: u32 = c as u32;
    (0x9 <= v && v <= 0xd) || v == 0x20 || v == 0x85 || v == 0xa0 || v == 0x1680 || (0x2000 <= v
        && v <= 0x200a) || v == 0x2028 || v == 0x2029 || v == 0x202f || v == 0x205f || v == 0x3000
}

/// The font for a character: one that can draw it before one that only has it,
/// and the first font where none has it. A blank needs no drawing.
pub open spec fn font_for(fonts: Seq<FontGlyph>, c: char) -> int {
    let drawing = if white(c) {
        None
    } else {
        first_drawing(fonts, c, 0)
    };
    match drawing {
        Some(i) => i,
        None => match first_supporting(fonts, 0) {
            Some(i) => i,
            None => 0,
        },
    }
}

fn find_supporting(fonts: &Vec<FontGlyph>) -> (index: Option<usize>)
    ensures
        opt_int(index) == first_supporting(fonts@, 0),
        index matches Some(i) ==> i < fonts@.len(),
{
    let mut i: usize = 0;
    while i < fonts.len()
        invariant
            i <= fonts@.len(),
            first_supporting(fonts@, 0) == first_supporting(fonts@, i as int),
        decreases fonts@.len() - i,
    {
        if fonts[i].glyph_id != 0 || fonts[i].color_glyph_id != 0 {
            return Some(i);
        }
        i += 1;
    }
    None
}

/// The font for a character, and the numbers of its glyphs there.
pub fn font_index_for(character: char, fonts: &Vec<FontGlyph>) -> (chosen: (usize, u16, u16))
    requires
        fonts@.len() > 0,
    ensures
        chosen.0 == font_for(fonts@, character),
        chosen.0 < fonts@.len(),
        chosen.1 == fonts@[chosen.0 as int].glyph_id,
        chosen.2 == fonts@[chosen.0 as int].color_glyph_id,
{
    if !is_white(character) {
        let mut i: usize = 0;
        while i < fonts.len()
            invariant
                i <= fonts@.len(),
                !white(character),
                first_drawing(fonts@, character, 0) == first_drawing(
                    fonts@,
                    character,
                    i as int,
                ),
            decreases fonts@.len() - i,
        {
            let font = fonts[i];
            if font.glyph_id != 0 || font.color_glyph_id != 0 {
                let colored = is_color_emoji_candidate(character) && font.color_glyph_id != 0
                    && font.has_color_image;
                if colored || font.has_outline {
                    return (i, font.glyph_id, font.color_glyph_id);
                }
            }
            i += 1;
        }
    }
    let index: usize = match find_supporting(fonts) {
        Some(index) => index,
        None => 0,
    };
    (index, fonts[index].glyph_id, fonts[index].color_glyph_id)
}

/// What a font makes of an emoji: how many glyphs, and whether one has colour.
#[derive(Clone, Copy, Debug, PartialEq, Eq, Structural)]
pub struct ClusterShape {
    pub glyphs: usize,
    pub has_color: bool,
}

/// A shape stands for an emoji: it has colour, and what is joined is one glyph.
pub open spec fn shape_stands(text: Seq<char>, shape: ClusterShape) -> bool {
    &&& shape.glyphs > 0
    &&& text.contains('\u{200d}') ==> shape.glyphs == 1
    &&& shape.has_color
}

/// The first font from `i` on with a shape for an emoji. A font that cannot be
/// read has none.
pub open spec fn cluster_font_from(text: Seq<char>, shapes: Seq<Option<ClusterShape>>, i: int) -> Option<
    int,
>
    decreases shapes.len() - i,
{
    if i >= shapes.len() {
        None
    } else if shapes[i] matches Some(shape) && shape_stands(text, shape) {
        Some(i)
    } else {
        cluster_font_from(text, shapes, i + 1)
    }
}

fn has_joiner(text: &str) -> (has: bool)
    ensures
        has == text@.contains('\u{200d}'),
{
    let chars = characters(text);
    let mut i: usize = 0;
    while i < chars.len()
        invariant
            chars@ == text@,
            i <= chars@.len(),
            forall|j: int| 0 <= j < i ==> text@[j] != '\u{200d}',
        decreases chars@.len() - i,
    {
        if chars[i] == '\u{200d}' {
            assert(text@[i as int] == '\u{200d}');
            return true;
        }
        i += 1;
    }
    false
}

/// The font that an emoji is drawn with; none where it is drawn character by
/// character.
pub fn shape_emoji_cluster(text: &str, shapes: &Vec<Option<ClusterShape>>) -> (font: Option<usize>)
    ensures
        opt_int(font) == cluster_font_from(text@, shapes@, 0),
{
    let joined = has_joiner(text);
    let mut i: usize = 0;
    while i < shapes.len()
        invariant
            joined == text@.contains('\u{200d}'),
            i <= shapes@.len(),
            cluster_font_from(text@, shapes@, 0) == cluster_font_from(text@, shapes@, i as int),
        decreases shapes@.len() - i,
    {
        if let Some(shape) = shapes[i] {
            if shape.glyphs > 0 && (!joined || shape.glyphs == 1) && shape.has_color {
                return Some(i);
            }
        }
        i += 1;
    }
    None
}

// ---------------------------------------------------------------------------
// Places
// ---------------------------------------------------------------------------

/// What is drawn of a text, and how many parts of a pixel from its left.
#[derive(Clone, Copy, Debug, PartialEq, Eq, Structural)]
pub enum Placed {
    /// The emoji of the characters from `start` to `end`.
    Cluster { start: usize, end: usize, x: u128 },
    Glyph { character: char, x: u128 },
}

pub enum PlacedModel {
    Cluster { start: int, end: int, x: int },
    Glyph { character: char, x: int },
}

impl View for Placed {
    type V = PlacedModel;

    open spec fn view(&self) -> PlacedModel {
        match *self {
            Placed::Cluster { start, end, x } => PlacedModel::Cluster {
                start: start as int,
                end: end as int,
                x: x as int,
            },
            Placed::Glyph { character, x } => PlacedModel::Glyph { character, x: x as int },
        }
    }
}

pub open spec fn places(list: Seq<Placed>) -> Seq<PlacedModel> {
    Seq::new(list.len(), |i: int| list[i]@)
}

/// A character at `x`; a tab and what is not shown leave no glyph.
pub open spec fn char_placed(s: Seq<PlacedModel>, c: char, x: int) -> Seq<PlacedModel> {
    if c == '\t' || ignorable(c) {
        s
    } else {
        s.push(PlacedModel::Glyph { character: c, x })
    }
}

/// The characters from `i` to `end`, each for itself.
pub open spec fn chars_placed(
    s: Seq<PlacedModel>,
    m: RulerModel,
    role: TextRole,
    text: Seq<char>,
    i: int,
    end: int,
    x: int,
) -> Seq<PlacedModel>
    decreases end - i,
{
    if i < end {
        chars_placed(
            char_placed(s, text[i], x),
            m,
            role,
            text,
            i + 1,
            end,
            x + char_advance(m, role, text[i]),
        )
    } else {
        s
    }
}

/// The unit that begins at `i`.
pub open spec fn unit_placed(
    s: Seq<PlacedModel>,
    m: RulerModel,
    role: TextRole,
    text: Seq<char>,
    i: int,
    x: int,
) -> Seq<PlacedModel> {
    let end = unit_end(text, i);
    match unit_kind(text[i]) {
        TextUnitKind::Ignorable => s,
        TextUnitKind::Character => char_placed(s, text[i], x),
        TextUnitKind::EmojiCluster => if known_cluster(
            m.clusters,
            role,
            text.subrange(i, end),
        ) is Some {
            s.push(PlacedModel::Cluster { start: i, end, x })
        } else {
            chars_placed(s, m, role, text, i, end, x)
        },
    }
}

/// The units from `i` on, as long as they end within the limit.
pub open spec fn units_placed(
    s: Seq<PlacedModel>,
    m: RulerModel,
    role: TextRole,
    text: Seq<char>,
    i: int,
    x: int,
    limit: Option<int>,
) -> Seq<PlacedModel>
    decreases text.len() - i,
    via units_placed_decreases
{
    if 0 <= i < text.len() {
        let next = x + unit_advance(m, role, text, i);
        if limit matches Some(limit) && next > limit {
            s
        } else {
            units_placed(
                unit_placed(s, m, role, text, i, x),
                m,
                role,
                text,
                unit_end(text, i),
                next,
                limit,
            )
        }
    } else {
        s
    }
}

#[via_fn]
proof fn units_placed_decreases(
    s: Seq<PlacedModel>,
    m: RulerModel,
    role: TextRole,
    text: Seq<char>,
    i: int,
    x: int,
    limit: Option<int>,
) {
    if 0 <= i < text.len() {
        lemma_unit_end(text, i);
    }
}

fn place(placed: &mut Vec<Placed>, item: Placed)
    ensures
        places(final(placed)@) == places(old(placed)@).push(item@),
{
    placed.push(item);
    assert(places(placed@) =~= places(old(placed)@).push(item@));
}

fn place_char(placed: &mut Vec<Placed>, character: char, x: u128)
    ensures
        places(final(placed)@) == char_placed(places(old(placed)@), character, x as int),
{
    if character != '\t' && !is_default_ignorable_for_display(character) {
        place(placed, Placed::Glyph { character, x });
    }
}

/// Places the characters from `start` to `end`, each for itself.
fn draw_text_by_char(
    placed: &mut Vec<Placed>,
    ruler: &Ruler,
    text: &Vec<char>,
    start: usize,
    end: usize,
    left: u128,
    role: TextRole,
)
    requires
        start <= end <= text@.len(),
        left <= 0x4_0000_0000 * start,
    ensures
        places(final(placed)@) == chars_placed(
            places(old(placed)@),
            ruler@,
            role,
            text@,
            start as int,
            end as int,
            left as int,
        ),
{
    let ghost whole = chars_placed(
        places(placed@),
        ruler@,
        role,
        text@,
        start as int,
        end as int,
        left as int,
    );
    let mut x: u128 = left;
    let mut i: usize = start;
    while i < end
        invariant
            i <= end <= text@.len(),
            x <= 0x4_0000_0000 * i,
            chars_placed(
                places(placed@),
                ruler@,
                role,
                text@,
                i as int,
                end as int,
                x as int,
            ) == whole,
        decreases end - i,
    {
        place_char(placed, text[i], x);
        x += ruler.measure_char(text[i], role) as u128;
        i += 1;
    }
}

fn place_unit(
    placed: &mut Vec<Placed>,
    ruler: &Ruler,
    text: &Vec<char>,
    start: usize,
    end: usize,
    x: u128,
    role: TextRole,
)
    requires
        start < text@.len(),
        end == unit_end(text@, start as int),
        x <= 0x4_0000_0000 * start,
    ensures
        places(final(placed)@) == unit_placed(
            places(old(placed)@),
            ruler@,
            role,
            text@,
            start as int,
            x as int,
        ),
{
    proof {
        lemma_unit_end(text@, start as int);
    }
    match kind_of(text[start]) {
        TextUnitKind::EmojiCluster => {
            if ruler.cluster(text, start, end, role).is_some() {
                place(placed, Placed::Cluster { start, end, x });
            } else {
                draw_text_by_char(placed, ruler, text, start, end, x, role);
            }
        },
        TextUnitKind::Ignorable => {},
        TextUnitKind::Character => {
            place_char(placed, text[start], x);
        },
    }
}

/// Whether a place is behind a limit.
fn is_behind(x: u128, limit: Option<u128>) -> (behind: bool)
    ensures
        behind == (limit matches Some(limit) && x > limit),
{
    match limit {
        Some(limit) => x > limit,
        None => false,
    }
}

/// The limit of a width in parts of a pixel.
pub open spec fn width_limit(max_width: Option<usize>) -> Option<int> {
    match max_width {
        Some(width) => Some(width * PIXEL),
        None => None,
    }
}

/// What is drawn of a text, no wider than `max_width` where that is given.
pub fn place_text(ruler: &Ruler, text: &str, role: TextRole, max_width: Option<usize>) -> (placed:
    Vec<Placed>)
    ensures
        places(placed@) == units_placed(
            Seq::empty(),
            ruler@,
            role,
            text@,
            0,
            0,
            width_limit(max_width),
        ),
{
    let chars = characters(text);
    let limit: Option<u128> = match max_width {
        Some(width) => Some(width as u128 * 64),
        None => None,
    };
    let mut placed: Vec<Placed> = Vec::new();
    assert(places(placed@) =~= Seq::empty());
    let ghost whole = units_placed(
        Seq::empty(),
        ruler@,
        role,
        text@,
        0,
        0,
        width_limit(max_width),
    );
    let mut i: usize = 0;
    let mut x: u128 = 0;
    while i < chars.len()
        invariant_except_break
            units_placed(
                places(placed@),
                ruler@,
                role,
                text@,
                i as int,
                x as int,
                width_limit(max_width),
            ) == whole,
        invariant
            chars@ == text@,
            i <= chars@.len(),
            x <= 0x4_0000_0000 * i,
            match limit {
                Some(limit) => width_limit(max_width) == Some(limit as int),
                None => width_limit(max_width) is None,
            },
        ensures
            places(placed@) == whole,
        decreases chars@.len() - i,
    {
        let end: usize = end_of_unit(&chars, i);
        let advance: u128 = ruler.measure_unit(&chars, i, end, role);
        if is_behind(x + advance, limit) {
            break;
        }
        place_unit(&mut placed, ruler, &chars, i, end, x, role);
        x += advance;
        i = end;
    }
    placed
}

} // verus!

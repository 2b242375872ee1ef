//! How wide text is. A ruler holds what the fonts say of single glyphs, in
//! parts of a pixel, and adds it up.

use crate::text_units::{
    bytes_before, characters, end_of_unit, ignorable, is_default_ignorable_for_display, kind_of,
    lemma_bytes_before, lemma_unit_end, unit_at, unit_end, unit_kind, TextUnitKind,
};
use std::collections::HashMap;
use vstd::prelude::*;
use vstd::utf8::*;

verus! {

/// The parts that a pixel is measured in.
pub const PIXEL: u32 = 64;

/// What text is for, which decides its size.
#[derive(Clone, Copy, Debug, PartialEq, Eq, Structural)]
pub enum TextRole {
    Ui,
    Find,
    Editor,
}

/// What the fonts make of an emoji: its width, or nothing where it is drawn
/// character by character.
#[derive(Debug)]
pub struct ClusterAdvance {
    pub role: TextRole,
    pub text: Vec<char>,
    pub advance: Option<u32>,
}

pub struct ClusterModel {
    pub role: TextRole,
    pub text: Seq<char>,
    pub advance: Option<u32>,
}

impl View for ClusterAdvance {
    type V = ClusterModel;

    open spec fn view(&self) -> ClusterModel {
        ClusterModel { role: self.role, text: self.text@, advance: self.advance }
    }
}

/// A ruler as a mathematical value.
pub struct RulerModel {
    pub glyphs: Map<u64, u32>,
    pub clusters: Seq<ClusterModel>,
}

#[derive(Debug)]
pub struct Ruler {
    glyphs: HashMap<u64, u32>,
    clusters: Vec<ClusterAdvance>,
}

impl View for Ruler {
    type V = RulerModel;

    closed spec fn view(&self) -> RulerModel {
        RulerModel {
            glyphs: self.glyphs@,
            clusters: Seq::new(self.clusters@.len(), |i: int| self.clusters@[i]@),
        }
    }
}

// ---------------------------------------------------------------------------
// Model
// ---------------------------------------------------------------------------

pub open spec fn role_number(role: TextRole) -> int {
    match role {
        TextRole::Ui => 0,
        TextRole::Find => 1,
        TextRole::Editor => 2,
    }
}

/// The key of a glyph: its character and its role.
pub open spec fn glyph_key(role: TextRole, c: char) -> u64 {
    (role_number(role) * 0x1_0000_0000 + c as u32) as u64
}

/// The width of a glyph; none is known to be no width.
pub open spec fn glyph_advance(m: RulerModel, role: TextRole, c: char) -> int {
    if m.glyphs.dom().contains(glyph_key(role, c)) {
        m.glyphs[glyph_key(role, c)] as int
    } else {
        0
    }
}

/// The width of a character: a tab is four spaces wide.
pub open spec fn char_advance(m: RulerModel, role: TextRole, c: char) -> int {
    if c == '\t' {
        4 * glyph_advance(m, role, ' ')
    } else if ignorable(c) {
        0
    } else {
        glyph_advance(m, role, c)
    }
}

/// The width of the characters from `i` to `end`, each for itself.
pub open spec fn chars_advance(m: RulerModel, role: TextRole, text: Seq<char>, i: int, end: int) -> int
    decreases end - i,
{
    if i < end {
        char_advance(m, role, text[i]) + chars_advance(m, role, text, i + 1, end)
    } else {
        0
    }
}

/// What is known of an emoji.
pub open spec fn known_cluster(
    clusters: Seq<ClusterModel>,
    role: TextRole,
    text: Seq<char>,
) -> Option<u32>
    decreases clusters.len(),
{
    if clusters.len() == 0 {
        None
    } else if clusters[0].role == role && clusters[0].text == text {
        clusters[0].advance
    } else {
        known_cluster(clusters.skip(1), role, text)
    }
}

/// The width of the unit that begins at `i`.
pub open spec fn unit_advance(m: RulerModel, role: TextRole, text: Seq<char>, i: int) -> int {
    let end = unit_end(text, i);
    match unit_kind(text[i]) {
        TextUnitKind::Ignorable => 0,
        TextUnitKind::Character => char_advance(m, role, text[i]),
        TextUnitKind::EmojiCluster => match known_cluster(
            m.clusters,
            role,
            text.subrange(i, end),
        ) {
            Some(advance) => advance as int,
            None => chars_advance(m, role, text, i, end),
        },
    }
}

/// The width of a text from the unit at `i` on.
pub open spec fn text_advance(m: RulerModel, role: TextRole, text: Seq<char>, i: int) -> int
    decreases text.len() - i,
    via text_advance_decreases
{
    if 0 <= i < text.len() {
        unit_advance(m, role, text, i) + text_advance(m, role, text, unit_end(text, i))
    } else {
        0
    }
}

#[via_fn]
proof fn text_advance_decreases(m: RulerModel, role: TextRole, text: Seq<char>, i: int) {
    if 0 <= i < text.len() {
        lemma_unit_end(text, i);
    }
}

/// The width of a text in whole pixels, rounded.
pub open spec fn measured(m: RulerModel, role: TextRole, text: Seq<char>) -> int {
    saturated((text_advance(m, role, text, 0) + PIXEL / 2) / (PIXEL as int))
}

/// The largest number of this machine where `n` is greater.
pub open spec fn saturated(n: int) -> int {
    if n > usize::MAX {
        usize::MAX as int
    } else {
        n
    }
}

/// The end of the units from `i` on that fit into `limit`, of which `used` are
/// taken.
pub open spec fn fit_end(
    m: RulerModel,
    role: TextRole,
    text: Seq<char>,
    i: int,
    used: int,
    limit: int,
) -> int
    decreases text.len() - i,
    via fit_end_decreases
{
    if 0 <= i < text.len() {
        if used + unit_advance(m, role, text, i) > limit {
            i
        } else {
            fit_end(
                m,
                role,
                text,
                unit_end(text, i),
                used + unit_advance(m, role, text, i),
                limit,
            )
        }
    } else {
        i
    }
}

#[via_fn]
proof fn fit_end_decreases(
    m: RulerModel,
    role: TextRole,
    text: Seq<char>,
    i: int,
    used: int,
    limit: int,
) {
    if 0 <= i < text.len() {
        lemma_unit_end(text, i);
    }
}

/// The part of a text from its front that fits into a width.
pub open spec fn fitting(m: RulerModel, role: TextRole, text: Seq<char>, max_width: int) -> Seq<
    char,
> {
    text.take(fit_end(m, role, text, 0, 0, max_width * PIXEL))
}

/// The end of the row that begins at character `start`: as many units as fit,
/// and one at least.
pub open spec fn segment_end(m: RulerModel, text: Seq<char>, start: int, max_width: int) -> int {
    let width = if max_width < 1 {
        1
    } else {
        max_width
    };
    let end = fit_end(m, TextRole::Editor, text, start, 0, width * PIXEL);
    if end == start {
        unit_end(text, start)
    } else {
        end
    }
}

/// The character before or after which a point lies: in the left half of a unit
/// before it, in the right half after it.
pub open spec fn char_at_x(m: RulerModel, text: Seq<char>, i: int, cursor: int, x: int) -> int
    decreases text.len() - i,
    via char_at_x_decreases
{
    if 0 <= i < text.len() {
        let advance = unit_advance(m, TextRole::Editor, text, i);
        if 2 * x * PIXEL < 2 * cursor + advance {
            i
        } else if x * PIXEL < cursor + advance {
            unit_end(text, i)
        } else {
            char_at_x(m, text, unit_end(text, i), cursor + advance, x)
        }
    } else {
        i
    }
}

#[via_fn]
proof fn char_at_x_decreases(m: RulerModel, text: Seq<char>, i: int, cursor: int, x: int) {
    if 0 <= i < text.len() {
        lemma_unit_end(text, i);
    }
}

pub proof fn lemma_fit_end(
    m: RulerModel,
    role: TextRole,
    text: Seq<char>,
    i: int,
    used: int,
    limit: int,
)
    requires
        0 <= i <= text.len(),
    ensures
        i <= fit_end(m, role, text, i, used, limit) <= text.len(),
    decreases text.len() - i,
{
    if i < text.len() && used + unit_advance(m, role, text, i) <= limit {
        lemma_unit_end(text, i);
        lemma_fit_end(
            m,
            role,
            text,
            unit_end(text, i),
            used + unit_advance(m, role, text, i),
            limit,
        );
    }
}

/// A row is not empty and ends within the text.
pub proof fn lemma_segment_end(m: RulerModel, text: Seq<char>, start: int, max_width: int)
    requires
        0 <= start < text.len(),
    ensures
        start < segment_end(m, text, start, max_width) <= text.len(),
{
    let width = if max_width < 1 {
        1
    } else {
        max_width
    };
    lemma_unit_end(text, start);
    lemma_fit_end(m, TextRole::Editor, text, start, 0, width * PIXEL);
}

// ---------------------------------------------------------------------------
// The ruler
// ---------------------------------------------------------------------------

impl Ruler {
    /// A ruler that knows of no glyph.
    pub fn new() -> (ruler: Self)
        ensures
            ruler@.glyphs == Map::<u64, u32>::empty(),
            ruler@.clusters == Seq::<ClusterModel>::empty(),
    {
        broadcast use vstd::std_specs::hash::group_hash_axioms;

        let ruler = Ruler { glyphs: HashMap::new(), clusters: Vec::new() };
        assert(ruler@.clusters =~= Seq::empty());
        ruler
    }

    /// Notes the width of a glyph.
    pub fn set_glyph(&mut self, role: TextRole, character: char, advance: u32)
        ensures
            final(self)@ == (RulerModel {
                glyphs: old(self)@.glyphs.insert(glyph_key(role, character), advance),
                ..old(self)@
            }),
    {
        broadcast use vstd::std_specs::hash::group_hash_axioms;

        let key: u64 = key_of(role, character);
        self.glyphs.insert(key, advance);
        assert(self@.clusters =~= old(self)@.clusters);
    }

    /// Notes the width of an emoji that is not known yet, or that there is none.
    pub fn set_cluster(&mut self, role: TextRole, text: &str, advance: Option<u32>)
        ensures
            final(self)@ == (RulerModel {
                clusters: old(self)@.clusters.push(ClusterModel { role, text: text@, advance }),
                ..old(self)@
            }),
    {
        self.clusters.push(ClusterAdvance { role, text: characters(text), advance });
        assert(self@.clusters =~= old(self)@.clusters.push(
            ClusterModel { role, text: text@, advance },
        ));
    }

    /// Whether the width of a glyph is known.
    pub fn knows_glyph(&self, role: TextRole, character: char) -> (known: bool)
        ensures
            known == self@.glyphs.dom().contains(glyph_key(role, character)),
    {
        broadcast use vstd::std_specs::hash::group_hash_axioms;

        self.glyphs.contains_key(&key_of(role, character))
    }

    fn glyph(&self, role: TextRole, character: char) -> (advance: u32)
        ensures
            advance == glyph_advance(self@, role, character),
    {
        broadcast use vstd::std_specs::hash::group_hash_axioms;

        match self.glyphs.get(&key_of(role, character)) {
            Some(advance) => *advance,
            None => 0,
        }
    }

    pub fn measure_char(&self, character: char, role: TextRole) -> (advance: u64)
        ensures
            advance == char_advance(self@, role, character),
            advance <= 0x4_0000_0000,
    {
        if character == '\t' {
            self.glyph(role, ' ') as u64 * 4
        } else if is_default_ignorable_for_display(character) {
            0
        } else {
            self.glyph(role, character) as u64
        }
    }

    /// The width of the characters from `start` to `end`.
    pub fn measure_text_by_char(
        &self,
        text: &Vec<char>,
        start: usize,
        end: usize,
        role: TextRole,
    ) -> (advance: u128)
        requires
            start <= end <= text@.len(),
        ensures
            advance == chars_advance(self@, role, text@, start as int, end as int),
            advance <= 0x4_0000_0000 * (end - start),
    {
        let mut advance: u128 = 0;
        let mut i: usize = end;
        while i > start
            invariant
                start <= i <= end <= text@.len(),
                advance == chars_advance(self@, role, text@, i as int, end as int),
                advance <= 0x4_0000_0000 * (end - i),
            decreases i,
        {
            i -= 1;
            advance += self.measure_char(text[i], role) as u128;
        }
        advance
    }

    pub(crate) fn cluster(&self, text: &Vec<char>, start: usize, end: usize, role: TextRole) -> (advance:
        Option<u32>)
        requires
            start <= end <= text@.len(),
        ensures
            advance == known_cluster(self@.clusters, role, text@.subrange(start as int, end as int)),
    {
        let mut i: usize = 0;
        assert(self@.clusters.skip(0) =~= self@.clusters);
        while i < self.clusters.len()
            invariant
                start <= end <= text@.len(),
                i <= self.clusters@.len(),
                known_cluster(self@.clusters, role, text@.subrange(start as int, end as int))
                    == known_cluster(
                    self@.clusters.skip(i as int),
                    role,
                    text@.subrange(start as int, end as int),
                ),
            decreases self.clusters@.len() - i,
        {
            let ghost rest = self@.clusters.skip(i as int);
            assert(rest[0] == self.clusters@[i as int]@);
            assert(rest.skip(1) =~= self@.clusters.skip(i + 1));
            if self.clusters[i].role == role && same_chars(&self.clusters[i].text, text, start, end) {
                return self.clusters[i].advance;
            }
            i += 1;
        }
        None
    }

    /// The width of the unit of the characters from `start` to `end`.
    pub fn measure_unit(&self, text: &Vec<char>, start: usize, end: usize, role: TextRole) -> (advance:
        u128)
        requires
            start < text@.len(),
            end == unit_end(text@, start as int),
        ensures
            advance == unit_advance(self@, role, text@, start as int),
            advance <= 0x4_0000_0000 * (end - start),
    {
        proof {
            lemma_unit_end(text@, start as int);
        }
        match kind_of(text[start]) {
            TextUnitKind::EmojiCluster => match self.cluster(text, start, end, role) {
                Some(advance) => advance as u128,
                None => self.measure_text_by_char(text, start, end, role),
            },
            TextUnitKind::Ignorable => 0,
            TextUnitKind::Character => self.measure_char(text[start], role) as u128,
        }
    }

    /// The width of a text in whole pixels.
    pub fn measure(&self, text: &str, role: TextRole) -> (width: usize)
        ensures
            width == measured(self@, role, text@),
    {
        let chars = characters(text);
        let mut i: usize = 0;
        let mut sum: u128 = 0;
        while i < chars.len()
            invariant
                chars@ == text@,
                i <= chars@.len(),
                sum <= 0x4_0000_0000 * i,
                sum + text_advance(self@, role, text@, i as int) == text_advance(
                    self@,
                    role,
                    text@,
                    0,
                ),
            decreases chars@.len() - i,
        {
            let end: usize = end_of_unit(&chars, i);
            sum += self.measure_unit(&chars, i, end, role);
            i = end;
        }
        let pixels: u128 = (sum + 32) / 64;
        if pixels > usize::MAX as u128 {
            usize::MAX
        } else {
            pixels as usize
        }
    }

    /// The end of the units from `start` on that fit into `limit` parts of a
    /// pixel, in characters.
    fn fitting_end(&self, text: &Vec<char>, start: usize, limit: u128, role: TextRole) -> (end:
        usize)
        requires
            start <= text@.len(),
        ensures
            end == fit_end(self@, role, text@, start as int, 0, limit as int),
            start <= end <= text@.len(),
    {
        let mut i: usize = start;
        let mut used: u128 = 0;
        while i < text.len()
            invariant
                start <= i <= text@.len(),
                used <= 0x4_0000_0000 * i,
                fit_end(self@, role, text@, start as int, 0, limit as int) == fit_end(
                    self@,
                    role,
                    text@,
                    i as int,
                    used as int,
                    limit as int,
                ),
            decreases text@.len() - i,
        {
            let end: usize = end_of_unit(text, i);
            let advance: u128 = self.measure_unit(text, i, end, role);
            if used + advance > limit {
                return i;
            }
            used += advance;
            i = end;
        }
        i
    }

    /// The end of the row that begins at `start`, in characters.
    pub fn wrapped_segment_end(&self, text: &Vec<char>, start: usize, max_width: usize) -> (end:
        usize)
        requires
            start < text@.len(),
        ensures
            end == segment_end(self@, text@, start as int, max_width as int),
            start < end <= text@.len(),
    {
        let width: usize = if max_width < 1 {
            1
        } else {
            max_width
        };
        proof {
            lemma_segment_end(self@, text@, start as int, max_width as int);
        }
        let end: usize = self.fitting_end(text, start, width as u128 * 64, TextRole::Editor);
        if end > start {
            end
        } else {
            end_of_unit(text, start)
        }
    }

    /// The part of a text from its front that fits into a width.
    pub fn text_prefix_for_width(&self, text: &str, role: TextRole, max_width: usize) -> (prefix:
        String)
        ensures
            prefix@ == fitting(self@, role, text@, max_width as int),
    {
        let chars = characters(text);
        let end: usize = self.fitting_end(&chars, 0, max_width as u128 * 64, role);
        string_of(&chars, 0, end)
    }

    /// The offset in a line that a point `target_x` pixels into it belongs to.
    pub fn offset_for_x(&self, line: &str, line_start: usize, target_x: usize) -> (offset: usize)
        ensures
            offset == saturated(
                line_start + bytes_before(line@, char_at_x(self@, line@, 0, 0, target_x as int)),
            ),
    {
        let chars = characters(line);
        let byte_count: usize = line.as_bytes().len();
        let mut i: usize = 0;
        let mut start: usize = 0;
        let mut cursor: u128 = 0;
        let target: u128 = target_x as u128 * 64;
        proof {
            lemma_bytes_before(line@, 0, 0);
        }
        while i < chars.len()
            invariant
                chars@ == line@,
                encode_utf8(line@).len() == byte_count,
                target == target_x * 64,
                i <= chars@.len(),
                start == bytes_before(line@, i as int),
                cursor <= 0x4_0000_0000 * i,
                char_at_x(self@, line@, 0, 0, target_x as int) == char_at_x(
                    self@,
                    line@,
                    i as int,
                    cursor as int,
                    target_x as int,
                ),
            decreases chars@.len() - i,
        {
            let unit = unit_at(&chars, i, start);
            let advance: u128 = self.measure_unit(&chars, i, unit.end_char, TextRole::Editor);
            if 2 * target < 2 * cursor + advance {
                return line_start.saturating_add(unit.start);
            }
            if target < cursor + advance {
                return line_start.saturating_add(unit.end);
            }
            cursor += advance;
            i = unit.end_char;
            start = unit.end;
        }
        line_start.saturating_add(start)
    }
}

fn key_of(role: TextRole, character: char) -> (key: u64)
    ensures
        key == glyph_key(role, character),
{
    let base: u64 = match role {
        TextRole::Ui => 0,
        TextRole::Find => 0x1_0000_0000,
        TextRole::Editor => 0x2_0000_0000,
    };
    base + character as u32 as u64
}

/// Whether `a` is the characters of `text` from `start` to `end`.
fn same_chars(a: &Vec<char>, text: &Vec<char>, start: usize, end: usize) -> (same: bool)
    requires
        start <= end <= text@.len(),
    ensures
        same == (a@ == text@.subrange(start as int, end as int)),
{
    if a.len() != end - start {
        return false;
    }
    let mut i: usize = 0;
    while i < a.len()
        invariant
            start <= end <= text@.len(),
            a@.len() == end - start,
            i <= a@.len(),
            forall|k: int| 0 <= k < i ==> a@[k] == text@[start + k],
        decreases a@.len() - i,
    {
        if a[i] != text[start + i] {
            assert(a@[i as int] != text@.subrange(start as int, end as int)[i as int]);
            return false;
        }
        i += 1;
    }
    assert(a@ =~= text@.subrange(start as int, end as int));
    true
}

/// The characters from `start` to `end` as text.
pub fn string_of(text: &Vec<char>, start: usize, end: usize) -> (part: String)
    requires
        start <= end <= text@.len(),
    ensures
        part@ == text@.subrange(start as int, end as int),
{
    let mut part = String::new();
    let mut i: usize = start;
    while i < end
        invariant
            start <= i <= end <= text@.len(),
            part@ == text@.subrange(start as int, i as int),
        decreases end - i,
    {
        part.push(text[i]);
        i += 1;
        assert(part@ =~= text@.subrange(start as int, i as int));
    }
    part
}

// ---------------------------------------------------------------------------
// Laws
// ---------------------------------------------------------------------------

/// The units that fit into a width are no wider, and one more would be.
pub proof fn law_fitting_is_longest(
    m: RulerModel,
    role: TextRole,
    text: Seq<char>,
    i: int,
    used: int,
    limit: int,
)
    requires
        0 <= i <= text.len(),
        used <= limit,
    ensures
        ({
            let end = fit_end(m, role, text, i, used, limit);
            let rest = text_advance(m, role, text, i) - text_advance(m, role, text, end);
            &&& i <= end <= text.len()
            &&& used + rest <= limit
            &&& end < text.len() ==> used + rest + unit_advance(m, role, text, end) > limit
        }),
    decreases text.len() - i,
{
    if i < text.len() && used + unit_advance(m, role, text, i) <= limit {
        lemma_unit_end(text, i);
        law_fitting_is_longest(
            m,
            role,
            text,
            unit_end(text, i),
            used + unit_advance(m, role, text, i),
            limit,
        );
    }
}

} // verus!

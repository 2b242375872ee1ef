//! Keeping line starts up to date when a range of the text is replaced.

use crate::line_index::{
    ends_line, ints, is_newline_byte, lemma_line_at, lemma_line_breaks_bounds, lemma_line_breaks_shift,
    lemma_line_breaks_split, line_at, line_breaks, ordered_starts, shifted, splits_crlf, IndexState,
    LineIndex,
};
use crate::piece_table::{spliced, PieceTable};
use std::ops::Range;
use vstd::prelude::*;

verus! {

/// Where the lines touched by an edit begin.
pub open spec fn rebuild_start(starts: Seq<int>, start: int) -> int {
    starts[line_at(starts, start)]
}

/// The last line touched by an edit that ends at `end`.
pub open spec fn rebuild_end_line(starts: Seq<int>, len: int, end: int) -> int {
    if end == len {
        starts.len() - 1
    } else {
        line_at(starts, end)
    }
}

/// Where the lines touched by an edit end.
pub open spec fn rebuild_end(starts: Seq<int>, len: int, end: int) -> int {
    let line = rebuild_end_line(starts, len, end);
    if line + 1 < starts.len() {
        starts[line + 1]
    } else {
        len
    }
}

/// The touched lines after the edit.
pub open spec fn rebuilt_segment(
    starts: Seq<int>,
    bytes: Seq<u8>,
    start: int,
    end: int,
    text: Seq<u8>,
) -> Seq<u8> {
    bytes.subrange(rebuild_start(starts, start), start) + text + bytes.subrange(
        end,
        rebuild_end(starts, bytes.len() as int, end),
    )
}

/// The line starts after an edit: those up to the touched lines, those found in
/// the touched lines, and the later ones, moved.
pub open spec fn starts_after_replace(
    starts: Seq<int>,
    bytes: Seq<u8>,
    start: int,
    end: int,
    text: Seq<u8>,
) -> Seq<int> {
    let from = rebuild_start(starts, start);
    let to = rebuild_end(starts, bytes.len() as int, end);
    let segment = rebuilt_segment(starts, bytes, start, end, text);
    let kept = starts.take(line_at(starts, start) + 1);
    if to < bytes.len() {
        kept + shifted(line_breaks(segment, 0, segment.len() - 1), from) + shifted(
            starts.skip(rebuild_end_line(starts, bytes.len() as int, end) + 1),
            text.len() - (end - start),
        )
    } else {
        kept + shifted(line_breaks(segment, 0, segment.len() as int), from)
    }
}

/// The index after an edit. It counts as complete whatever it was before.
pub open spec fn index_after_replace(
    state: IndexState,
    bytes: Seq<u8>,
    start: int,
    end: int,
    text: Seq<u8>,
) -> IndexState {
    IndexState {
        starts: starts_after_replace(state.starts, bytes, start, end, text),
        indexed_len: bytes.len() - (end - start) + text.len(),
        complete: true,
    }
}

pub proof fn lemma_rebuild_bounds(starts: Seq<int>, len: int, start: int, end: int)
    requires
        ordered_starts(starts),
        starts.last() <= len,
        0 <= start <= end <= len,
    ensures
        0 <= line_at(starts, start) < starts.len(),
        0 <= rebuild_start(starts, start) <= start,
        0 <= rebuild_end_line(starts, len, end) < starts.len(),
        end <= rebuild_end(starts, len, end) <= len,
        rebuild_end(starts, len, end) < len ==> end < rebuild_end(starts, len, end)
            && rebuild_end_line(starts, len, end) + 1 < starts.len(),
{
    lemma_line_at(starts, start);
    lemma_line_at(starts, end);
    let line = rebuild_end_line(starts, len, end);
    if line + 1 < starts.len() {
        assert(starts[line + 1] <= starts.last());
    }
}

/// The starts after an edit are in order and lie within the new text.
pub proof fn lemma_starts_after_replace_ordered(
    starts: Seq<int>,
    bytes: Seq<u8>,
    start: int,
    end: int,
    text: Seq<u8>,
)
    requires
        ordered_starts(starts),
        starts.last() <= bytes.len(),
        0 <= start <= end <= bytes.len(),
    ensures
        ordered_starts(starts_after_replace(starts, bytes, start, end, text)),
        starts_after_replace(starts, bytes, start, end, text).last() <= bytes.len() - (end - start)
            + text.len(),
{
    let len = bytes.len() as int;
    lemma_rebuild_bounds(starts, len, start, end);
    let from = rebuild_start(starts, start);
    let to = rebuild_end(starts, len, end);
    let segment = rebuilt_segment(starts, bytes, start, end, text);
    let line = line_at(starts, start);
    let kept = starts.take(line + 1);
    let delta = text.len() - (end - start);
    let result = starts_after_replace(starts, bytes, start, end, text);
    assert(segment.len() == (start - from) + text.len() + (to - end));
    assert(from + segment.len() == to + delta);
    if to < len {
        let found = line_breaks(segment, 0, segment.len() - 1);
        lemma_line_breaks_bounds(segment, 0, segment.len() - 1);
        let middle = shifted(found, from);
        let last_line = rebuild_end_line(starts, len, end);
        let later = starts.skip(last_line + 1);
        let tail = shifted(later, delta);
        assert(result == kept + middle + tail);
        assert forall|i: int| 0 <= i < middle.len() implies from < #[trigger] middle[i] <= from
            + segment.len() - 1 by {
            assert(0 < found[i] <= segment.len() - 1);
        }
        assert forall|i: int| 0 <= i < tail.len() implies to + delta <= #[trigger] tail[i] <= len
            + delta by {
            assert(later[i] == starts[last_line + 1 + i]);
            assert(starts[last_line + 1] <= starts[last_line + 1 + i]);
            assert(starts[last_line + 1 + i] <= starts.last());
        }
        assert forall|i: int, j: int| 0 <= i < j < result.len() implies result[i] < result[j] by {
            let a = kept.len() as int;
            let b = a + middle.len();
            if j < a {
                assert(starts[i] < starts[j]);
            } else if i < a {
                assert(starts[i] <= starts[line]);
                if j < b {
                    assert(result[j] == middle[j - a]);
                } else {
                    assert(result[j] == tail[j - b]);
                }
            } else if j < b {
                assert(found[i - a] < found[j - a]);
            } else if i < b {
                assert(result[i] == middle[i - a]);
                assert(result[j] == tail[j - b]);
            } else {
                assert(later[i - b] == starts[last_line + 1 + (i - b)]);
                assert(later[j - b] == starts[last_line + 1 + (j - b)]);
                assert(starts[last_line + 1 + (i - b)] < starts[last_line + 1 + (j - b)]);
            }
        }
        assert(result.last() == tail.last());
        assert(tail[tail.len() - 1] <= len + delta);
        assert(result[0] == starts[0]);
    } else {
        let found = line_breaks(segment, 0, segment.len() as int);
        lemma_line_breaks_bounds(segment, 0, segment.len() as int);
        let middle = shifted(found, from);
        assert(result == kept + middle);
        assert forall|i: int| 0 <= i < middle.len() implies from < #[trigger] middle[i] <= from
            + segment.len() by {
            assert(0 < found[i] <= segment.len());
        }
        assert forall|i: int, j: int| 0 <= i < j < result.len() implies result[i] < result[j] by {
            let a = kept.len() as int;
            if j < a {
                assert(starts[i] < starts[j]);
            } else if i < a {
                assert(starts[i] <= starts[line]);
                assert(result[j] == middle[j - a]);
            } else {
                assert(found[i - a] < found[j - a]);
            }
        }
        if middle.len() > 0 {
            assert(middle[middle.len() - 1] <= from + segment.len());
            assert(result.last() == middle.last());
        } else {
            assert(result.last() == starts[line]);
        }
        assert(result[0] == starts[0]);
    }
}

/// Every start but the first stands behind a newline byte.
pub open spec fn behind_newlines(starts: Seq<int>, bytes: Seq<u8>) -> bool {
    forall|i: int|
        0 < i < starts.len() ==> 0 < #[trigger] starts[i] <= bytes.len() && is_newline_byte(
            bytes[starts[i] - 1],
        )
}

pub proof fn lemma_breaks_behind_newlines(bytes: Seq<u8>, k: int)
    requires
        0 <= k <= bytes.len(),
    ensures
        behind_newlines(seq![0int] + line_breaks(bytes, 0, k), bytes),
{
    let breaks = line_breaks(bytes, 0, k);
    let starts = seq![0int] + breaks;
    lemma_line_breaks_bounds(bytes, 0, k);
    assert forall|i: int| 0 < i < starts.len() implies 0 < #[trigger] starts[i] <= bytes.len()
        && is_newline_byte(bytes[starts[i] - 1]) by {
        assert(starts[i] == breaks[i - 1]);
    }
}

/// The starts after an edit stand behind newline bytes, too.
pub proof fn lemma_starts_stay_behind_newlines(
    starts: Seq<int>,
    bytes: Seq<u8>,
    start: int,
    end: int,
    text: Seq<u8>,
)
    requires
        ordered_starts(starts),
        starts.last() <= bytes.len(),
        behind_newlines(starts, bytes),
        0 <= start <= end <= bytes.len(),
    ensures
        behind_newlines(
            starts_after_replace(starts, bytes, start, end, text),
            spliced(bytes, start, end, text),
        ),
{
    let len = bytes.len() as int;
    lemma_rebuild_bounds(starts, len, start, end);
    lemma_line_at(starts, start);
    let from = rebuild_start(starts, start);
    let to = rebuild_end(starts, len, end);
    let segment = rebuilt_segment(starts, bytes, start, end, text);
    let new = spliced(bytes, start, end, text);
    let delta = text.len() - (end - start);
    let result = starts_after_replace(starts, bytes, start, end, text);
    let kept = starts.take(line_at(starts, start) + 1);
    let n = if to < len {
        segment.len() - 1
    } else {
        segment.len() as int
    };
    let found = line_breaks(segment, 0, n);
    let last_line = rebuild_end_line(starts, len, end);
    let later = starts.skip(last_line + 1);
    lemma_line_breaks_bounds(segment, 0, n);
    assert(segment =~= new.subrange(from, from + segment.len()));
    assert forall|i: int| 0 < i < result.len() implies 0 < #[trigger] result[i] <= new.len()
        && is_newline_byte(new[result[i] - 1]) by {
        let a = kept.len() as int;
        let b = a + found.len();
        if i < a {
            assert(result[i] == starts[i]);
            assert(starts[i] <= from) by {
                if i < a - 1 {
                    assert(starts[i] < starts[a - 1]);
                }
            }
            assert(new[starts[i] - 1] == bytes[starts[i] - 1]);
        } else if i < b {
            let p = found[i - a];
            assert(result[i] == from + p);
            assert(ends_line(segment, p));
            assert(new[from + p - 1] == segment[p - 1]);
        } else {
            let k = last_line + 1 + (i - b);
            assert(result[i] == later[i - b] + delta);
            assert(later[i - b] == starts[k]);
            assert(to <= starts[k]) by {
                if k > last_line + 1 {
                    assert(starts[last_line + 1] < starts[k]);
                }
            }
            assert(starts[k] <= starts.last());
            assert(new[starts[k] - 1 + delta] == bytes[starts[k] - 1]);
        }
    }
}

/// How far the line starts reach after an edit, when they reached to `covered`
/// before.
pub open spec fn covered_after_replace(
    starts: Seq<int>,
    len: int,
    start: int,
    end: int,
    text_len: int,
    covered: int,
) -> int {
    if rebuild_end(starts, len, end) < len {
        covered + text_len - (end - start)
    } else {
        len + text_len - (end - start)
    }
}

/// The starts before the touched lines, which the edit does not move.
proof fn lemma_breaks_before(bytes: Seq<u8>, new: Seq<u8>, from: int)
    requires
        0 <= from <= bytes.len(),
        from <= new.len(),
        forall|p: int| 0 <= p < from ==> #[trigger] new[p] == bytes[p],
        from > 0 ==> ends_line(bytes, from),
        !splits_crlf(new, from),
    ensures
        line_breaks(new, 0, from) == line_breaks(bytes, 0, from),
{
    assert forall|p: int| 0 < p <= from implies #[trigger] ends_line(bytes, p) == ends_line(
        new,
        p + 0,
    ) by {
        assert(new[p - 1] == bytes[p - 1]);
        if p < from {
            assert(new[p] == bytes[p]);
        }
    }
    lemma_line_breaks_shift(bytes, new, 0, from, 0);
    assert(shifted(line_breaks(bytes, 0, from), 0) =~= line_breaks(bytes, 0, from));
}

/// The starts within the touched lines.
proof fn lemma_breaks_within(segment: Seq<u8>, new: Seq<u8>, from: int, m: int)
    requires
        0 <= from,
        from + segment.len() <= new.len(),
        segment == new.subrange(from, from + segment.len()),
        0 <= m <= segment.len(),
        m == segment.len() ==> from + segment.len() == new.len(),
    ensures
        shifted(line_breaks(segment, 0, m), from) == line_breaks(new, from, from + m),
{
    assert forall|p: int| 0 < p <= m implies #[trigger] ends_line(segment, p) == ends_line(
        new,
        p + from,
    ) by {
        assert(segment[p - 1] == new[p + from - 1]);
        if p < segment.len() {
            assert(segment[p] == new[p + from]);
        }
    }
    lemma_line_breaks_shift(segment, new, 0, m, from);
}

/// The starts after the touched lines, which move with the text.
proof fn lemma_breaks_after(
    bytes: Seq<u8>,
    new: Seq<u8>,
    starts: Seq<int>,
    covered: int,
    line: int,
    delta: int,
)
    requires
        0 <= covered <= bytes.len(),
        starts == seq![0int] + line_breaks(bytes, 0, covered),
        0 < line < starts.len(),
        new.len() == bytes.len() + delta,
        starts[line] - 1 + delta >= 0,
        forall|p: int|
            starts[line] - 1 <= p < bytes.len() ==> #[trigger] bytes[p] == new[p + delta],
    ensures
        shifted(starts.skip(line), delta) == line_breaks(
            new,
            starts[line] - 1 + delta,
            covered + delta,
        ),
        starts[line] <= covered,
{
    let to = starts[line];
    let breaks = line_breaks(bytes, 0, covered);
    lemma_line_breaks_bounds(bytes, 0, covered);
    assert(to == breaks[line - 1]);
    lemma_cut_starts(bytes, covered, starts, line);
    lemma_line_breaks_split(bytes, 0, to - 1, covered);
    assert(starts.skip(line) =~= line_breaks(bytes, to - 1, covered)) by {
        assert(starts.take(line + 1) == seq![0int] + line_breaks(bytes, 0, to));
        assert(line_breaks(bytes, 0, to) == line_breaks(bytes, 0, to - 1).push(to));
        assert(starts.take(line + 1).len() == line + 1);
        assert(line_breaks(bytes, 0, to - 1).len() == line - 1);
        assert(starts =~= (seq![0int] + line_breaks(bytes, 0, to - 1)) + line_breaks(
            bytes,
            to - 1,
            covered,
        ));
    }
    assert forall|p: int| to - 1 < p <= covered implies #[trigger] ends_line(bytes, p)
        == ends_line(new, p + delta) by {
        assert(bytes[p - 1] == new[p - 1 + delta]);
        if p < bytes.len() {
            assert(bytes[p] == new[p + delta]);
        }
    }
    lemma_line_breaks_shift(bytes, new, to - 1, covered, delta);
}

/// An edit keeps line starts exact: where the starts of the first `covered`
/// bytes were right, those of the corresponding bytes are right afterwards. Left
/// out are edits that put a line feed directly behind a carriage return that
/// ends the line before the touched ones.
pub proof fn law_edit_keeps_line_starts_exact(
    starts: Seq<int>,
    bytes: Seq<u8>,
    start: int,
    end: int,
    text: Seq<u8>,
    covered: int,
)
    requires
        0 <= covered <= bytes.len(),
        starts == seq![0int] + line_breaks(bytes, 0, covered),
        0 <= start <= end <= bytes.len(),
        !splits_crlf(spliced(bytes, start, end, text), rebuild_start(starts, start)),
    ensures
        starts_after_replace(starts, bytes, start, end, text) == seq![0int] + line_breaks(
            spliced(bytes, start, end, text),
            0,
            covered_after_replace(
                starts,
                bytes.len() as int,
                start,
                end,
                text.len() as int,
                covered,
            ),
        ),
{
    let len = bytes.len() as int;
    let new = spliced(bytes, start, end, text);
    lemma_exact_starts_ordered(bytes, covered, starts);
    lemma_rebuild_bounds(starts, len, start, end);
    lemma_line_at(starts, start);
    let from = rebuild_start(starts, start);
    let to = rebuild_end(starts, len, end);
    let line = line_at(starts, start);
    let segment = rebuilt_segment(starts, bytes, start, end, text);
    let delta = text.len() - (end - start);
    assert(from + segment.len() == to + delta);
    assert(segment =~= new.subrange(from, from + segment.len()));
    lemma_cut_starts(bytes, covered, starts, line);
    assert(from > 0 ==> ends_line(bytes, from)) by {
        lemma_line_breaks_bounds(bytes, 0, covered);
        if line > 0 {
            assert(starts[line] == line_breaks(bytes, 0, covered)[line - 1]);
        }
    }
    lemma_breaks_before(bytes, new, from);
    let m = if to < len {
        segment.len() - 1
    } else {
        segment.len() as int
    };
    lemma_breaks_within(segment, new, from, m);
    lemma_line_breaks_split(new, 0, from, from + m);
    if to < len {
        let last_line = rebuild_end_line(starts, len, end);
        assert forall|p: int| to - 1 <= p < bytes.len() implies #[trigger] bytes[p] == new[p
            + delta] by {}
        lemma_breaks_after(bytes, new, starts, covered, last_line + 1, delta);
        lemma_line_breaks_split(new, 0, to - 1 + delta, covered + delta);
        assert(starts_after_replace(starts, bytes, start, end, text) =~= seq![0int] + line_breaks(
            new,
            0,
            covered + delta,
        ));
    } else {
        assert(starts_after_replace(starts, bytes, start, end, text) =~= seq![0int] + line_breaks(
            new,
            0,
            len + delta,
        ));
    }
}

proof fn lemma_exact_starts_ordered(bytes: Seq<u8>, covered: int, starts: Seq<int>)
    requires
        0 <= covered <= bytes.len(),
        starts == seq![0int] + line_breaks(bytes, 0, covered),
    ensures
        ordered_starts(starts),
        starts.last() <= covered,
{
    lemma_line_breaks_bounds(bytes, 0, covered);
    let breaks = line_breaks(bytes, 0, covered);
    assert forall|i: int, j: int| 0 <= i < j < starts.len() implies starts[i] < starts[j] by {
        assert(starts[j] == breaks[j - 1]);
        if i > 0 {
            assert(starts[i] == breaks[i - 1]);
        }
    }
    if breaks.len() > 0 {
        assert(starts.last() == breaks[breaks.len() - 1]);
    }
}

/// The starts up to line `line` are those of the bytes before its start.
proof fn lemma_cut_starts(bytes: Seq<u8>, covered: int, starts: Seq<int>, line: int)
    requires
        0 <= covered <= bytes.len(),
        starts == seq![0int] + line_breaks(bytes, 0, covered),
        0 <= line < starts.len(),
    ensures
        starts.take(line + 1) == seq![0int] + line_breaks(bytes, 0, starts[line]),
{
    let at = starts[line];
    let breaks = line_breaks(bytes, 0, covered);
    lemma_line_breaks_bounds(bytes, 0, covered);
    if line > 0 {
        assert(at == breaks[line - 1]);
    }
    lemma_line_breaks_split(bytes, 0, at, covered);
    let before = line_breaks(bytes, 0, at);
    let after = line_breaks(bytes, at, covered);
    lemma_line_breaks_bounds(bytes, 0, at);
    lemma_line_breaks_bounds(bytes, at, covered);
    if line == 0 {
        assert(before.len() == 0);
    } else {
        if before.len() > line {
            assert(breaks[line] == before[line]);
            assert(before[line] <= at);
            assert(breaks[line - 1] < breaks[line]);
        }
        if before.len() < line {
            assert(breaks[line - 1] == after[line - 1 - before.len()]);
            assert(after[line - 1 - before.len()] > at);
        }
    }
    assert(starts.take(line + 1) =~= seq![0int] + before);
}

/// Brings `index` up to date with the replacement of `range` by `text` in a
/// buffer that holds `new_len` bytes afterwards.
pub(crate) fn update_index(
    index: &LineIndex,
    previous: &PieceTable,
    range: Range<usize>,
    text: &str,
    new_len: usize,
) -> (updated: LineIndex)
    requires
        index.wf(),
        previous.wf(),
        index@.indexed_len <= previous@.len(),
        range.start <= range.end <= previous@.len(),
        new_len == previous@.len() - (range.end - range.start) + vstd::utf8::encode_utf8(
            text@,
        ).len(),
    ensures
        updated.wf(),
        updated@ == index_after_replace(
            index@,
            previous@,
            range.start as int,
            range.end as int,
            vstd::utf8::encode_utf8(text@),
        ),
{
    let added = text.as_bytes();
    let old_len: usize = previous.len();
    let start: usize = range.start;
    let end: usize = range.end;
    let ghost starts = index@.starts;
    let ghost bytes = previous@;
    proof {
        lemma_rebuild_bounds(starts, bytes.len() as int, start as int, end as int);
    }
    let first_line: usize = index.line_for_offset(start);
    let old_starts = index.starts();
    let from: usize = old_starts[first_line];
    let last_line: usize = if end == old_len {
        old_starts.len() - 1
    } else {
        index.line_for_offset(end)
    };
    let to: usize = if last_line + 1 < old_starts.len() {
        old_starts[last_line + 1]
    } else {
        old_len
    };
    assert(from == rebuild_start(starts, start as int));
    assert(last_line == rebuild_end_line(starts, old_len as int, end as int));
    assert(to == rebuild_end(starts, old_len as int, end as int));
    let mut segment = match previous.bytes_range(from..start) {
        Ok(prefix) => prefix,
        Err(_) => Vec::new(),
    };
    segment.extend_from_slice(added);
    match previous.bytes_range(end..to) {
        Ok(suffix) => segment.extend_from_slice(suffix.as_slice()),
        Err(_) => {},
    }
    assert(segment@ =~= rebuilt_segment(starts, bytes, start as int, end as int, added@));
    let segment_len: usize = segment.len();
    let segment_index = LineIndex::build(segment.as_slice());
    let found = segment_index.starts();
    let mut updated: Vec<usize> = Vec::new();
    let mut i: usize = 0;
    while i <= first_line
        invariant
            i <= first_line + 1 <= old_starts@.len(),
            updated@ == old_starts@.take(i as int),
        decreases first_line + 1 - i,
    {
        updated.push(old_starts[i]);
        i += 1;
        assert(updated@ =~= old_starts@.take(i as int));
    }
    let ghost kept = starts.take(first_line + 1);
    assert(ints(updated@) =~= kept);
    let ghost all_found = line_breaks(segment@, 0, segment_len as int);
    proof {
        lemma_line_breaks_bounds(segment@, 0, segment_len as int);
        assert(ints(found@) =~= seq![0int] + all_found);
        assert(found@.len() == ints(found@).len());
        assert forall|k: int| 0 <= k < all_found.len() implies found@[k + 1]
            == #[trigger] all_found[k] by {
            assert(ints(found@)[k + 1] == (seq![0int] + all_found)[k + 1]);
        }
    }
    let mut i: usize = 1;
    assert(ints(updated@) =~= kept + shifted(all_found.take(0), from as int));
    while i < found.len() && !(to < old_len && found[i] == segment_len)
        invariant
            1 <= i <= found@.len(),
            found@.len() == all_found.len() + 1,
            forall|k: int| 0 <= k < all_found.len() ==> found@[k + 1] == #[trigger] all_found[k],
            to < old_len ==> forall|k: int|
                0 <= k < i - 1 ==> #[trigger] all_found[k] < segment_len,
            forall|k: int| 0 <= k < all_found.len() ==> 0 < #[trigger] all_found[k] <= segment_len,
            from + segment_len <= usize::MAX,
            ints(updated@) == kept + shifted(all_found.take(i - 1), from as int),
        decreases found@.len() - i,
    {
        proof {
            assert(found@[(i - 1) + 1] == all_found[i - 1]);
        }
        let ghost held = ints(updated@);
        updated.push(from + found[i]);
        i += 1;
        proof {
            let n = i - 1;
            assert(all_found.take(n) =~= all_found.take(n - 1).push(all_found[n - 1]));
            assert(shifted(all_found.take(n), from as int) =~= shifted(
                all_found.take(n - 1),
                from as int,
            ).push(all_found[n - 1] + from));
            assert(ints(updated@) =~= held.push(all_found[n - 1] + from));
            assert(ints(updated@) =~= kept + shifted(all_found.take(n), from as int));
        }
    }
    let ghost delta = added@.len() - (end - start);
    if to < old_len {
        proof {
            // The segment ends in the line break before the next line, which
            // the later starts already hold.
            assert(all_found.take(i - 1) =~= line_breaks(segment@, 0, segment_len - 1)) by {
                if i - 1 < all_found.len() {
                    assert(found@[(i - 1) + 1] == all_found[i - 1]);
                }
                lemma_found_without_end(segment@, i - 1, all_found);
            }
        }
        let ghost head = ints(updated@);
        let mut j: usize = last_line + 1;
        assert(ints(updated@) =~= head + shifted(
            starts.skip(last_line + 1).take(0),
            delta,
        ));
        while j < old_starts.len()
            invariant
                last_line + 1 <= j <= old_starts@.len(),
                starts == ints(old_starts@),
                ordered_starts(starts),
                starts.last() <= old_len,
                to == starts[last_line + 1],
                end < to,
                start <= end,
                delta == added@.len() - (end - start),
                old_len + delta <= usize::MAX,
                ints(updated@) == head + shifted(
                    starts.skip(last_line + 1).take(j - (last_line + 1)),
                    delta,
                ),
            decreases old_starts@.len() - j,
        {
            proof {
                assert(starts[j as int] == old_starts@[j as int]);
                assert(starts[last_line + 1] <= starts[j as int]);
                assert(starts[j as int] <= starts.last());
            }
            let moved: usize = (old_starts[j] - end) + start + added.len();
            let ghost held = ints(updated@);
            updated.push(moved);
            j += 1;
            proof {
                let later = starts.skip(last_line + 1);
                let n = j - (last_line + 1);
                assert(later[n - 1] == starts[j - 1]);
                assert(moved == later[n - 1] + delta);
                assert(later.take(n) =~= later.take(n - 1).push(later[n - 1]));
                assert(shifted(later.take(n), delta) =~= shifted(later.take(n - 1), delta).push(
                    moved as int,
                ));
                assert(ints(updated@) =~= held.push(moved as int));
                assert(ints(updated@) =~= head + shifted(later.take(n), delta));
            }
        }
        proof {
            assert(starts.skip(last_line + 1).take(j - (last_line + 1)) =~= starts.skip(
                last_line + 1,
            ));
        }
    } else {
        assert(all_found.take(i - 1) =~= all_found);
    }
    proof {
        assert(ints(updated@) =~= starts_after_replace(
            starts,
            bytes,
            start as int,
            end as int,
            added@,
        ));
        lemma_starts_after_replace_ordered(starts, bytes, start as int, end as int, added@);
    }
    LineIndex::replace_with_starts(updated, new_len, true)
}

/// Line breaks without the one at the very end of the segment.
proof fn lemma_found_without_end(segment: Seq<u8>, n: int, found: Seq<int>)
    requires
        found == line_breaks(segment, 0, segment.len() as int),
        segment.len() > 0,
        0 <= n <= found.len(),
        forall|k: int| 0 <= k < n ==> found[k] < segment.len(),
        n < found.len() ==> found[n] == segment.len(),
    ensures
        found.take(n) == line_breaks(segment, 0, segment.len() - 1),
{
    let shorter = line_breaks(segment, 0, segment.len() - 1);
    lemma_line_breaks_bounds(segment, 0, segment.len() - 1);
    lemma_line_breaks_bounds(segment, 0, segment.len() as int);
    if ends_line(segment, segment.len() as int) {
        assert(found == shorter.push(segment.len() as int));
        if n < shorter.len() {
            assert(found[n] == shorter[n]);
        }
        if n > shorter.len() {
            assert(found[n - 1] == segment.len());
        }
        assert(found.take(n) =~= shorter);
    } else {
        assert(found == shorter);
        if n < found.len() {
            assert(shorter[n] <= segment.len() - 1);
        }
        assert(found.take(n) =~= shorter);
    }
}

} // verus!

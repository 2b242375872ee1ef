//! Line starts of a byte buffer, line-ending detection and normalisation.

use crate::scan::memchr2_positions;
use std::ops::Range;
use vstd::prelude::*;
use vstd::slice::slice_subrange;

verus! {

pub const LF: u8 = 10;

pub const CR: u8 = 13;

/// How much of a buffer decides which line ending it uses.
pub const LINE_ENDING_SAMPLE_LIMIT: usize = 4_096;

/// Buffers shorter than this are indexed in one piece.
pub const PARALLEL_LINE_INDEX_MIN_BYTES: usize = 67_108_864;

/// The least work handed to one indexing worker.
pub const PARALLEL_LINE_INDEX_CHUNK_BYTES: usize = 67_108_864;

// ---------------------------------------------------------------------------
// Model
// ---------------------------------------------------------------------------

/// A line break ends just before offset `p`: after a line feed, or after a
/// carriage return that no line feed follows.
pub open spec fn ends_line(bytes: Seq<u8>, p: int) -> bool {
    0 < p <= bytes.len() && (bytes[p - 1] == LF || (bytes[p - 1] == CR && !(p < bytes.len()
        && bytes[p] == LF)))
}

/// The offsets `p` with `lo < p <= hi` at which a line break ends, ascending.
pub open spec fn line_breaks(bytes: Seq<u8>, lo: int, hi: int) -> Seq<int>
    decreases hi - lo,
{
    if hi <= lo {
        Seq::empty()
    } else if ends_line(bytes, hi) {
        line_breaks(bytes, lo, hi - 1).push(hi)
    } else {
        line_breaks(bytes, lo, hi - 1)
    }
}

/// The starts of all lines of `bytes`: offset zero and every end of a line break.
pub open spec fn line_starts(bytes: Seq<u8>) -> Seq<int> {
    seq![0int] + line_breaks(bytes, 0, bytes.len() as int)
}

/// `offset` lies between the two bytes of a CR LF pair.
pub open spec fn splits_crlf(bytes: Seq<u8>, offset: int) -> bool {
    0 < offset < bytes.len() && bytes[offset - 1] == CR && bytes[offset] == LF
}

pub open spec fn is_newline_byte(byte: u8) -> bool {
    byte == CR || byte == LF
}

pub open spec fn ints(s: Seq<usize>) -> Seq<int> {
    Seq::new(s.len(), |i: int| s[i] as int)
}

pub open spec fn shifted(s: Seq<int>, by: int) -> Seq<int> {
    Seq::new(s.len(), |i: int| s[i] + by)
}

/// Where the scan of `bytes[..k]` has got to in terms of finished line breaks:
/// a CR LF pair is finished as soon as its first byte has been seen.
pub open spec fn scan_frontier(bytes: Seq<u8>, k: int) -> int {
    if splits_crlf(bytes, k) {
        k + 1
    } else {
        k
    }
}

// ---------------------------------------------------------------------------
// Lemmas on line breaks
// ---------------------------------------------------------------------------

pub proof fn lemma_line_breaks_bounds(bytes: Seq<u8>, lo: int, hi: int)
    ensures
        forall|i: int|
            0 <= i < line_breaks(bytes, lo, hi).len() ==> lo < (#[trigger] line_breaks(
                bytes,
                lo,
                hi,
            )[i]) <= hi && ends_line(bytes, line_breaks(bytes, lo, hi)[i]),
        forall|i: int, j: int|
            0 <= i < j < line_breaks(bytes, lo, hi).len() ==> line_breaks(bytes, lo, hi)[i]
                < line_breaks(bytes, lo, hi)[j],
    decreases hi - lo,
{
    let breaks = line_breaks(bytes, lo, hi);
    if hi > lo {
        let earlier = line_breaks(bytes, lo, hi - 1);
        lemma_line_breaks_bounds(bytes, lo, hi - 1);
        assert forall|i: int| 0 <= i < breaks.len() implies lo < (#[trigger] breaks[i]) <= hi
            && ends_line(bytes, breaks[i]) by {
            if i < earlier.len() {
                assert(breaks[i] == earlier[i]);
            }
        }
        assert forall|i: int, j: int| 0 <= i < j < breaks.len() implies breaks[i]
            < breaks[j] by {
            assert(breaks[i] == earlier[i]);
            if j < earlier.len() {
                assert(breaks[j] == earlier[j]);
            }
        }
    }
}

pub proof fn lemma_line_breaks_split(bytes: Seq<u8>, lo: int, mid: int, hi: int)
    requires
        lo <= mid <= hi,
    ensures
        line_breaks(bytes, lo, hi) == line_breaks(bytes, lo, mid) + line_breaks(bytes, mid, hi),
    decreases hi - mid,
{
    if mid < hi {
        lemma_line_breaks_split(bytes, lo, mid, hi - 1);
        assert(line_breaks(bytes, lo, hi) =~= line_breaks(bytes, lo, mid) + line_breaks(
            bytes,
            mid,
            hi,
        ));
    } else {
        assert(line_breaks(bytes, lo, hi) =~= line_breaks(bytes, lo, mid) + line_breaks(
            bytes,
            mid,
            hi,
        ));
    }
}

/// Two buffers whose line breaks agree, up to a shift, have the same line
/// breaks, up to that shift.
pub proof fn lemma_line_breaks_shift(
    a: Seq<u8>,
    b: Seq<u8>,
    lo: int,
    hi: int,
    by: int,
)
    requires
        forall|p: int| lo < p <= hi ==> #[trigger] ends_line(a, p) == ends_line(b, p + by),
    ensures
        line_breaks(b, lo + by, hi + by) == shifted(line_breaks(a, lo, hi), by),
    decreases hi - lo,
{
    if hi > lo {
        lemma_line_breaks_shift(a, b, lo, hi - 1, by);
        assert(ends_line(a, hi) == ends_line(b, hi + by));
        assert(hi + by - 1 == hi - 1 + by);
    }
    assert(line_breaks(b, lo + by, hi + by) =~= shifted(line_breaks(a, lo, hi), by));
}

pub proof fn lemma_no_line_breaks(bytes: Seq<u8>, lo: int, hi: int)
    requires
        forall|p: int| lo < p <= hi ==> !#[trigger] ends_line(bytes, p),
    ensures
        line_breaks(bytes, lo, hi) == Seq::<int>::empty(),
    decreases hi - lo,
{
    if hi > lo {
        lemma_no_line_breaks(bytes, lo, hi - 1);
        assert(!ends_line(bytes, hi));
    }
}

// ---------------------------------------------------------------------------
// Scanning
// ---------------------------------------------------------------------------

/// The offsets of all carriage returns and line feeds of `bytes`, counted from
/// `base_offset`.
pub fn newline_positions(base_offset: usize, bytes: &[u8]) -> (positions: Vec<usize>)
    requires
        base_offset + bytes@.len() <= usize::MAX,
    ensures
        is_newline_scan(bytes@, 0, bytes@.len() as int, base_offset as int, positions@),
{
    let found: Vec<usize> = memchr2_positions(CR, LF, bytes);
    let mut positions: Vec<usize> = Vec::new();
    let mut i: usize = 0;
    while i < found.len()
        invariant
            i <= found@.len(),
            base_offset + bytes@.len() <= usize::MAX,
            positions@.len() == i,
            forall|j: int| 0 <= j < found@.len() ==> (#[trigger] found@[j]) < bytes@.len(),
            forall|j: int| 0 <= j < i ==> #[trigger] positions@[j] == found@[j] + base_offset,
        decreases found@.len() - i,
    {
        positions.push(base_offset + found[i]);
        i += 1;
    }
    proof {
        assert forall|k: int|
            0 <= k < bytes@.len() && is_newline_byte(#[trigger] bytes@[k]) implies exists|j: int|
            0 <= j < positions@.len() && #[trigger] positions@[j] == k + base_offset by {
            assert(found@.contains(k as usize));
            let j = choose|j: int| 0 <= j < found@.len() && found@[j] == k as usize;
            assert(positions@[j] == k + base_offset);
        }
    }
    positions
}

/// `positions` lists, ascending and counted from `base`, all newline bytes of
/// `bytes` at offsets from `lo` up to but not including `hi`.
pub open spec fn is_newline_scan(
    bytes: Seq<u8>,
    lo: int,
    hi: int,
    base: int,
    positions: Seq<usize>,
) -> bool {
    &&& forall|i: int, j: int| 0 <= i < j < positions.len() ==> positions[i] < positions[j]
    &&& forall|i: int|
        0 <= i < positions.len() ==> base + lo <= #[trigger] positions[i] < base + hi
            && is_newline_byte(bytes[positions[i] - base])
    &&& forall|k: int|
        lo <= k < hi && is_newline_byte(#[trigger] bytes[k]) ==> exists|j: int|
            0 <= j < positions.len() && #[trigger] positions[j] == k + base
}

/// Continues a scan of `bytes` over the newline bytes at `newline_positions`,
/// which run from offset `lo` to offset `hi`. `skip_lf_at` remembers the line
/// feed of a pair whose carriage return was the last newline byte seen.
fn append_newline_starts(
    starts: &mut Vec<usize>,
    base_offset: usize,
    bytes: &[u8],
    newline_positions: &Vec<usize>,
    skip_lf_at: &mut Option<usize>,
    lo: Ghost<int>,
    hi: Ghost<int>,
)
    requires
        base_offset + bytes@.len() <= usize::MAX,
        0 <= lo@ <= hi@ <= bytes@.len(),
        is_newline_scan(bytes@, lo@, hi@, base_offset as int, newline_positions@),
        *old(skip_lf_at) == (if splits_crlf(bytes@, lo@) {
            Some((base_offset + lo@) as usize)
        } else {
            None
        }),
    ensures
        *final(skip_lf_at) == (if splits_crlf(bytes@, hi@) {
            Some((base_offset + hi@) as usize)
        } else {
            None
        }),
        ints(final(starts)@) == ints(old(starts)@) + shifted(
            line_breaks(bytes@, scan_frontier(bytes@, lo@), scan_frontier(bytes@, hi@)),
            base_offset as int,
        ),
{
    let mut i: usize = 0;
    let ghost mut k: int = lo@;
    let ghost from = scan_frontier(bytes@, lo@);
    let ghost base = base_offset as int;
    let ghost before = starts@;
    assert(shifted(line_breaks(bytes@, from, from), base) =~= Seq::<int>::empty());
    while i < newline_positions.len()
        invariant
            i <= newline_positions@.len(),
            base == base_offset,
            base_offset + bytes@.len() <= usize::MAX,
            0 <= lo@ <= k <= hi@ <= bytes@.len(),
            from == scan_frontier(bytes@, lo@),
            from <= scan_frontier(bytes@, k),
            is_newline_scan(bytes@, lo@, hi@, base, newline_positions@),
            i == 0 ==> k == lo@,
            i > 0 ==> k == newline_positions@[i - 1] - base + 1,
            *skip_lf_at == (if splits_crlf(bytes@, k) {
                Some((base + k) as usize)
            } else {
                None
            }),
            ints(starts@) == ints(before) + shifted(
                line_breaks(bytes@, from, scan_frontier(bytes@, k)),
                base,
            ),
        decreases newline_positions@.len() - i,
    {
        let newline_index: usize = newline_positions[i];
        let ghost next = newline_index - base;
        proof {
            lemma_gap_has_no_newline(bytes@, lo@, hi@, base, newline_positions@, i as int, k);
        }
        let skipped = match skip_lf_at {
            Some(at) => *at == newline_index,
            None => false,
        };
        if skipped {
            *skip_lf_at = None;
            proof {
                assert(next == k);
                assert(bytes@[k] == LF);
                assert(scan_frontier(bytes@, k) == k + 1);
                assert(scan_frontier(bytes@, k + 1) == k + 1);
            }
        } else {
            let local_index: usize = newline_index - base_offset;
            proof {
                // A pending line feed would be the next newline byte.
                assert(!splits_crlf(bytes@, k)) by {
                    if splits_crlf(bytes@, k) {
                        assert(is_newline_byte(bytes@[k]));
                        if next > k {
                            assert(!is_newline_byte(bytes@[k]));
                        }
                    }
                }
                assert forall|p: int| k < p <= next implies !#[trigger] ends_line(bytes@, p) by {
                    assert(!is_newline_byte(bytes@[p - 1]));
                }
                lemma_no_line_breaks(bytes@, k, next);
                lemma_line_breaks_split(bytes@, from, k, next);
                assert(line_breaks(bytes@, from, next) =~= line_breaks(bytes@, from, k));
            }
            let ghost held = starts@;
            if bytes[local_index] == CR && local_index + 1 < bytes.len() && bytes[local_index + 1]
                == LF {
                starts.push(newline_index + 2);
                *skip_lf_at = Some(newline_index + 1);
                proof {
                    assert(splits_crlf(bytes@, next + 1));
                    assert(!ends_line(bytes@, next + 1));
                    assert(ends_line(bytes@, next + 2));
                    assert(line_breaks(bytes@, from, next + 1) == line_breaks(bytes@, from, next));
                    assert(line_breaks(bytes@, from, next + 2) == line_breaks(
                        bytes@,
                        from,
                        next,
                    ).push(next + 2));
                    assert(ints(starts@) =~= ints(held).push(next + 2 + base));
                    assert(ints(starts@) =~= ints(before) + shifted(
                        line_breaks(bytes@, from, next + 2),
                        base,
                    ));
                }
            } else {
                starts.push(newline_index + 1);
                *skip_lf_at = None;
                proof {
                    assert(!splits_crlf(bytes@, next + 1));
                    assert(ends_line(bytes@, next + 1));
                    assert(line_breaks(bytes@, from, next + 1) == line_breaks(
                        bytes@,
                        from,
                        next,
                    ).push(next + 1));
                    assert(ints(starts@) =~= ints(held).push(next + 1 + base));
                    assert(ints(starts@) =~= ints(before) + shifted(
                        line_breaks(bytes@, from, next + 1),
                        base,
                    ));
                }
            }
        }
        proof {
            k = next + 1;
        }
        i += 1;
    }
    proof {
        lemma_gap_has_no_newline(
            bytes@,
            lo@,
            hi@,
            base,
            newline_positions@,
            newline_positions@.len() as int,
            k,
        );
        if splits_crlf(bytes@, k) && k < hi@ {
            assert(is_newline_byte(bytes@[k]));
        }
        if k < hi@ {
            assert forall|p: int| k < p <= hi@ implies !#[trigger] ends_line(bytes@, p) by {
                assert(!is_newline_byte(bytes@[p - 1]));
            }
            lemma_no_line_breaks(bytes@, k, hi@);
            lemma_line_breaks_split(bytes@, from, k, hi@);
            assert(line_breaks(bytes@, from, hi@) =~= line_breaks(bytes@, from, k));
            assert(!is_newline_byte(bytes@[hi@ - 1]));
        }
    }
}

proof fn lemma_gap_has_no_newline(
    bytes: Seq<u8>,
    lo: int,
    hi: int,
    base: int,
    positions: Seq<usize>,
    i: int,
    k: int,
)
    requires
        is_newline_scan(bytes, lo, hi, base, positions),
        0 <= i <= positions.len(),
        lo <= hi,
        i == 0 ==> k == lo,
        i > 0 ==> k == positions[i - 1] - base + 1,
    ensures
        lo <= k <= hi,
        i < positions.len() ==> k <= positions[i] - base < hi && is_newline_byte(
            bytes[positions[i] - base],
        ),
        forall|q: int|
            k <= q < (if i < positions.len() {
                positions[i] - base
            } else {
                hi
            }) ==> !is_newline_byte(#[trigger] bytes[q]),
{
    let stop = if i < positions.len() {
        positions[i] - base
    } else {
        hi
    };
    assert forall|q: int| k <= q < stop implies !is_newline_byte(#[trigger] bytes[q]) by {
        if is_newline_byte(bytes[q]) {
            assert(lo <= q < hi);
            let j = choose|j: int| 0 <= j < positions.len() && positions[j] == q + base;
            if j < i {
                assert(positions[j] <= positions[i - 1]);
            } else {
                assert(positions[i] <= positions[j]);
            }
        }
    }
}

/// The ends of the line breaks of `bytes`, counted from `base_offset`.
fn newline_starts(base_offset: usize, bytes: &[u8]) -> (starts: Vec<usize>)
    requires
        base_offset + bytes@.len() <= usize::MAX,
    ensures
        ints(starts@) == shifted(
            line_breaks(bytes@, 0, bytes@.len() as int),
            base_offset as int,
        ),
{
    let mut starts: Vec<usize> = Vec::new();
    let mut skip_lf_at: Option<usize> = None;
    let positions = newline_positions(base_offset, bytes);
    append_newline_starts(
        &mut starts,
        base_offset,
        bytes,
        &positions,
        &mut skip_lf_at,
        Ghost(0),
        Ghost(bytes@.len() as int),
    );
    assert(ints(starts@) =~= shifted(
        line_breaks(bytes@, 0, bytes@.len() as int),
        base_offset as int,
    ));
    starts
}

// ---------------------------------------------------------------------------
// The index
// ---------------------------------------------------------------------------

/// What a [`LineIndex`] records: the known line starts, how many bytes they
/// cover, and whether that is the whole buffer.
pub struct IndexState {
    pub starts: Seq<int>,
    pub indexed_len: int,
    pub complete: bool,
}

/// The index of the first `k` bytes.
pub open spec fn prefix_index(bytes: Seq<u8>, k: int) -> IndexState {
    IndexState {
        starts: seq![0int] + line_breaks(bytes, 0, k),
        indexed_len: k,
        complete: k == bytes.len(),
    }
}

/// The index of the whole buffer.
pub open spec fn full_index(bytes: Seq<u8>) -> IndexState {
    prefix_index(bytes, bytes.len() as int)
}

/// The longest prefix of at most `requested` bytes that does not end in a
/// carriage return whose line feed may still follow.
pub open spec fn safe_prefix(bytes: Seq<u8>, requested: int) -> int {
    if requested >= bytes.len() {
        bytes.len() as int
    } else if requested > 0 && bytes[requested - 1] == CR {
        requested - 1
    } else {
        requested
    }
}

pub open spec fn min(a: int, b: int) -> int {
    if a <= b {
        a
    } else {
        b
    }
}

/// A partial index after reading up to `additional` more bytes of `bytes`.
pub open spec fn extended(state: IndexState, bytes: Seq<u8>, additional: int) -> IndexState {
    let target = min(state.indexed_len + additional, bytes.len() as int);
    let end = safe_prefix(bytes, target);
    if state.complete {
        state
    } else if end > state.indexed_len {
        IndexState {
            starts: state.starts + line_breaks(bytes, state.indexed_len, end),
            indexed_len: end,
            complete: end == bytes.len(),
        }
    } else if target == bytes.len() {
        IndexState { complete: state.indexed_len == bytes.len(), ..state }
    } else {
        state
    }
}

/// How many bytes of `chunk` a partial index takes in when the chunk follows
/// the indexed bytes in a document of `document_len` bytes.
pub open spec fn chunk_scan_len(state: IndexState, chunk: Seq<u8>, document_len: int) -> int {
    let room = if document_len > state.indexed_len {
        document_len - state.indexed_len
    } else {
        0
    };
    let len = min(chunk.len() as int, room);
    if state.indexed_len + len < document_len && len > 0 && chunk[len - 1] == CR {
        len - 1
    } else {
        len
    }
}

/// A partial index after taking in `chunk`, the bytes that follow it.
pub open spec fn extended_by_chunk(
    state: IndexState,
    chunk: Seq<u8>,
    document_len: int,
) -> IndexState {
    let len = chunk_scan_len(state, chunk, document_len);
    if state.complete || len == 0 {
        state
    } else {
        IndexState {
            starts: state.starts + shifted(line_breaks(chunk.take(len), 0, len), state.indexed_len),
            indexed_len: state.indexed_len + len,
            complete: state.indexed_len + len == document_len,
        }
    }
}

/// The line that holds `offset`: the last one that starts at or before it.
pub open spec fn is_line_of(starts: Seq<int>, offset: int, line: int) -> bool {
    &&& 0 <= line < starts.len()
    &&& starts[line] <= offset
    &&& forall|i: int| line < i < starts.len() ==> offset < #[trigger] starts[i]
}

/// The line that holds `offset`, as a function.
pub open spec fn line_at(starts: Seq<int>, offset: int) -> int
    decreases starts.len(),
{
    if starts.len() <= 1 {
        0
    } else if starts.last() <= offset {
        starts.len() - 1
    } else {
        line_at(starts.drop_last(), offset)
    }
}

/// Line starts in order, the first at zero.
pub open spec fn ordered_starts(starts: Seq<int>) -> bool {
    &&& starts.len() > 0
    &&& starts[0] == 0
    &&& forall|i: int, j: int| 0 <= i < j < starts.len() ==> starts[i] < starts[j]
}

pub open spec fn index_well_formed(state: IndexState) -> bool {
    &&& ordered_starts(state.starts)
    &&& state.starts.last() <= state.indexed_len
}

#[derive(Clone, Debug, Eq, PartialEq)]
pub struct LineIndex {
    starts: Vec<usize>,
    indexed_len: usize,
    complete: bool,
}

impl View for LineIndex {
    type V = IndexState;

    closed spec fn view(&self) -> IndexState {
        IndexState {
            starts: ints(self.starts@),
            indexed_len: self.indexed_len as int,
            complete: self.complete,
        }
    }
}

impl LineIndex {
    /// Line starts begin at zero, ascend, and lie within the indexed bytes.
    pub open spec fn wf(&self) -> bool {
        index_well_formed(self@)
    }

    /// Indexes all of `bytes`.
    pub fn build(bytes: &[u8]) -> (index: Self)
        ensures
            index.wf(),
            index@ == full_index(bytes@),
    {
        let starts = prefix_starts(bytes);
        LineIndex { starts, indexed_len: bytes.len(), complete: true }
    }

    /// Indexes all of `bytes` in as many chunks as there are workers to scan
    /// them, where the buffer is long enough to share.
    pub fn build_parallel(bytes: &[u8], available_workers: usize) -> (index: Self)
        ensures
            index.wf(),
            index@ == full_index(bytes@),
    {
        let worker_count = indexing_workers(bytes.len(), available_workers);
        if worker_count <= 1 {
            return LineIndex::build(bytes);
        }
        build_parallel_with_chunk_len(bytes, div_ceil(bytes.len(), worker_count))
    }

    /// Indexes at most `max_indexed_len` bytes from the front.
    pub fn build_prefix(bytes: &[u8], max_indexed_len: usize) -> (index: Self)
        ensures
            index.wf(),
            index@ == prefix_index(
                bytes@,
                safe_prefix(bytes@, min(max_indexed_len as int, bytes@.len() as int)),
            ),
    {
        let requested: usize = if max_indexed_len < bytes.len() {
            max_indexed_len
        } else {
            bytes.len()
        };
        let indexed_len: usize = safe_prefix_len(bytes, requested);
        let prefix = slice_subrange(bytes, 0, indexed_len);
        let starts = prefix_starts(prefix);
        proof {
            lemma_prefix_breaks(bytes@, 0, indexed_len as int);
        }
        LineIndex { starts, indexed_len, complete: indexed_len == bytes.len() }
    }

    /// An index over the given starts.
    pub(crate) fn replace_with_starts(
        starts: Vec<usize>,
        indexed_len: usize,
        complete: bool,
    ) -> (index: Self)
        requires
            ordered_starts(ints(starts@)),
            ints(starts@).last() <= indexed_len,
        ensures
            index.wf(),
            index@ == (IndexState { starts: ints(starts@), indexed_len: indexed_len as int, complete }),
    {
        LineIndex { starts, indexed_len, complete }
    }

    pub fn starts(&self) -> (starts: &[usize])
        ensures
            ints(starts@) == self@.starts,
    {
        self.starts.as_slice()
    }

    pub fn line_count(&self) -> (count: usize)
        ensures
            count == self@.starts.len(),
    {
        self.starts.len()
    }

    pub fn indexed_len(&self) -> (len: usize)
        ensures
            len == self@.indexed_len,
    {
        self.indexed_len
    }

    pub fn is_complete(&self) -> (complete: bool)
        ensures
            complete == self@.complete,
    {
        self.complete
    }

    /// Reads up to `additional_len` more bytes of the indexed buffer.
    pub fn extend(&mut self, bytes: &[u8], additional_len: usize)
        requires
            old(self).wf(),
        ensures
            final(self).wf(),
            final(self)@ == extended(old(self)@, bytes@, additional_len as int),
    {
        if self.complete {
            return ;
        }
        let ghost before = self@;
        let wanted: usize = self.indexed_len.saturating_add(additional_len);
        let target_len: usize = if wanted < bytes.len() {
            wanted
        } else {
            bytes.len()
        };
        let end: usize = safe_prefix_len(bytes, target_len);
        if end <= self.indexed_len && target_len < bytes.len() {
            return ;
        }
        if end > self.indexed_len {
            let chunk = slice_subrange(bytes, self.indexed_len, end);
            let mut found = newline_starts(self.indexed_len, chunk);
            proof {
                lemma_chunk_breaks(bytes@, self.indexed_len as int, end as int);
                lemma_appended_starts_ordered(before, bytes@, end as int);
            }
            let ghost held = self.starts@;
            let ghost more = found@;
            self.starts.append(&mut found);
            proof {
                assert(ints(self.starts@) =~= ints(held) + ints(more));
            }
            self.indexed_len = end;
        }
        self.complete = self.indexed_len == bytes.len();
    }

    /// Takes in `chunk`, the bytes of a document of `document_len` bytes that
    /// follow the indexed ones.
    pub fn extend_from_chunk(&mut self, chunk: &[u8], document_len: usize)
        requires
            old(self).wf(),
        ensures
            final(self).wf(),
            final(self)@ == extended_by_chunk(old(self)@, chunk@, document_len as int),
    {
        if self.complete || chunk.len() == 0 {
            return ;
        }
        let ghost before = self@;
        let room: usize = document_len.saturating_sub(self.indexed_len);
        let mut scan_len: usize = if chunk.len() < room {
            chunk.len()
        } else {
            room
        };
        if scan_len > 0 && self.indexed_len + scan_len < document_len && chunk[scan_len - 1] == CR {
            scan_len -= 1;
        }
        if scan_len == 0 {
            return ;
        }
        let scanned = slice_subrange(chunk, 0, scan_len);
        assert(scanned@ =~= chunk@.take(scan_len as int));
        let mut found = newline_starts(self.indexed_len, scanned);
        proof {
            lemma_line_breaks_bounds(scanned@, 0, scan_len as int);
        }
        let ghost held = self.starts@;
        let ghost more = found@;
        self.starts.append(&mut found);
        proof {
            assert(ints(self.starts@) =~= ints(held) + ints(more));
        }
        self.indexed_len = self.indexed_len + scan_len;
        self.complete = self.indexed_len == document_len;
    }

    /// The line that holds `offset`.
    pub fn line_for_offset(&self, offset: usize) -> (line: usize)
        requires
            self.wf(),
        ensures
            line == line_at(self@.starts, offset as int),
            is_line_of(self@.starts, offset as int, line as int),
    {
        let mut low: usize = 0;
        let mut high: usize = self.starts.len();
        while high - low > 1
            invariant
                self.wf(),
                0 <= low < high <= self.starts@.len(),
                self@.starts[low as int] <= offset,
                forall|i: int|
                    high <= i < self@.starts.len() ==> offset < #[trigger] self@.starts[i],
            decreases high - low,
        {
            let mid: usize = low + (high - low) / 2;
            assert(self@.starts[mid as int] == self.starts@[mid as int]);
            if self.starts[mid] <= offset {
                low = mid;
            } else {
                assert forall|i: int| mid <= i < self@.starts.len() implies offset
                    < #[trigger] self@.starts[i] by {
                    assert(self@.starts[mid as int] <= self@.starts[i]);
                }
                high = mid;
            }
        }
        proof {
            lemma_line_at(self@.starts, offset as int);
            lemma_line_of_unique(
                self@.starts,
                offset as int,
                low as int,
                line_at(self@.starts, offset as int),
            );
        }
        low
    }

    pub fn line_start(&self, zero_based_line: usize) -> (start: Option<usize>)
        ensures
            start is Some <==> zero_based_line < self@.starts.len(),
            start matches Some(offset) ==> offset == self@.starts[zero_based_line as int],
    {
        if zero_based_line < self.starts.len() {
            Some(self.starts[zero_based_line])
        } else {
            None
        }
    }

    /// The bytes of a line, its line break included: up to the next start or,
    /// for the last known line, up to the end of what is known.
    pub fn line_range(&self, zero_based_line: usize, document_len: usize) -> (range: Option<
        Range<usize>,
    >)
        ensures
            range is Some <==> zero_based_line < self@.starts.len(),
            range matches Some(span) ==> {
                &&& span.start == self@.starts[zero_based_line as int]
                &&& span.end == line_end(self@, zero_based_line as int, document_len as int)
            },
    {
        if zero_based_line >= self.starts.len() {
            return None;
        }
        let start: usize = self.starts[zero_based_line];
        let end: usize = if zero_based_line + 1 < self.starts.len() {
            self.starts[zero_based_line + 1]
        } else if self.complete {
            document_len
        } else {
            self.indexed_len
        };
        let end: usize = if end < document_len {
            end
        } else {
            document_len
        };
        Some(start..end)
    }

    /// A copy of the index.
    pub fn duplicate(&self) -> (copy: Self)
        ensures
            copy@ == self@,
    {
        let starts = self.starts.clone();
        assert(ints(starts@) =~= ints(self.starts@));
        LineIndex { starts, indexed_len: self.indexed_len, complete: self.complete }
    }
}

/// Where line `line` ends in a document of `document_len` bytes.
pub open spec fn line_end(state: IndexState, line: int, document_len: int) -> int {
    min(
        if line + 1 < state.starts.len() {
            state.starts[line + 1]
        } else if state.complete {
            document_len
        } else {
            state.indexed_len
        },
        document_len,
    )
}

pub proof fn lemma_line_at(starts: Seq<int>, offset: int)
    requires
        ordered_starts(starts),
        offset >= 0,
    ensures
        is_line_of(starts, offset, line_at(starts, offset)),
    decreases starts.len(),
{
    if starts.len() > 1 && starts.last() > offset {
        let rest = starts.drop_last();
        assert(ordered_starts(rest)) by {
            assert forall|i: int, j: int| 0 <= i < j < rest.len() implies rest[i] < rest[j] by {
                assert(starts[i] < starts[j]);
            }
        }
        lemma_line_at(rest, offset);
        let line = line_at(rest, offset);
        assert forall|i: int| line < i < starts.len() implies offset < #[trigger] starts[i] by {
            if i < rest.len() {
                assert(starts[i] == rest[i]);
            }
        }
    }
}

/// `offset` has exactly one line.
pub proof fn lemma_line_of_unique(starts: Seq<int>, offset: int, a: int, b: int)
    requires
        is_line_of(starts, offset, a),
        is_line_of(starts, offset, b),
    ensures
        a == b,
{
}

/// The breaks of a prefix that ends safely are those of the whole buffer.
proof fn lemma_prefix_breaks(bytes: Seq<u8>, lo: int, end: int)
    requires
        0 <= lo <= end <= bytes.len(),
        !splits_crlf(bytes, end),
    ensures
        line_breaks(bytes.subrange(0, end), lo, end) == line_breaks(bytes, lo, end),
{
    let prefix = bytes.subrange(0, end);
    assert forall|p: int| lo < p <= end implies #[trigger] ends_line(prefix, p) == ends_line(
        bytes,
        p + 0,
    ) by {
        assert(prefix[p - 1] == bytes[p - 1]);
        if p < end {
            assert(prefix[p] == bytes[p]);
        }
    }
    lemma_line_breaks_shift(prefix, bytes, lo, end, 0);
    assert(shifted(line_breaks(prefix, lo, end), 0) =~= line_breaks(prefix, lo, end));
}

/// The breaks of a chunk that ends safely are those of its place in the buffer.
pub proof fn lemma_chunk_breaks(bytes: Seq<u8>, start: int, end: int)
    requires
        0 <= start <= end <= bytes.len(),
        !splits_crlf(bytes, end),
    ensures
        shifted(line_breaks(bytes.subrange(start, end), 0, end - start), start) == line_breaks(
            bytes,
            start,
            end,
        ),
{
    let chunk = bytes.subrange(start, end);
    assert forall|p: int| 0 < p <= end - start implies #[trigger] ends_line(chunk, p) == ends_line(
        bytes,
        p + start,
    ) by {
        assert(chunk[p - 1] == bytes[p + start - 1]);
        if p < end - start {
            assert(chunk[p] == bytes[p + start]);
        }
    }
    lemma_line_breaks_shift(chunk, bytes, 0, end - start, start);
}

/// A safe prefix does not end inside a CR LF pair.
pub proof fn lemma_safe_prefix(bytes: Seq<u8>, requested: int)
    requires
        0 <= requested,
    ensures
        0 <= safe_prefix(bytes, requested) <= bytes.len(),
        !splits_crlf(bytes, safe_prefix(bytes, requested)),
{
}

/// Taking in the bytes that follow a partial index gives the index of the
/// longer prefix, whatever the chunks.
pub proof fn law_chunk_extends_prefix_index(bytes: Seq<u8>, k: int, n: int)
    requires
        0 <= k < n <= bytes.len(),
        safe_prefix(bytes, n) >= k,
    ensures
        extended_by_chunk(prefix_index(bytes, k), bytes.subrange(k, n), bytes.len() as int)
            == prefix_index(bytes, safe_prefix(bytes, n)),
{
    let state = prefix_index(bytes, k);
    let chunk = bytes.subrange(k, n);
    let end = safe_prefix(bytes, n);
    let len = chunk_scan_len(state, chunk, bytes.len() as int);
    assert(chunk[n - k - 1] == bytes[n - 1]);
    assert(len == end - k);
    lemma_safe_prefix(bytes, n);
    lemma_chunk_breaks(bytes, k, end);
    assert(chunk.take(len) =~= bytes.subrange(k, end));
    lemma_line_breaks_split(bytes, 0, k, end);
    assert(extended_by_chunk(state, chunk, bytes.len() as int).starts =~= prefix_index(
        bytes,
        end,
    ).starts);
}

/// Reading on in the buffer gives the index of the longer prefix; an index of a
/// prefix, extended until it is complete, is the index of the whole buffer.
pub proof fn law_extend_reads_on(bytes: Seq<u8>, k: int, additional: int)
    requires
        0 <= k < bytes.len(),
        additional >= 0,
    ensures
        ({
            let end = safe_prefix(bytes, min(k + additional, bytes.len() as int));
            extended(prefix_index(bytes, k), bytes, additional) == (if end > k {
                prefix_index(bytes, end)
            } else {
                prefix_index(bytes, k)
            })
        }),
        prefix_index(bytes, bytes.len() as int) == full_index(bytes),
{
    let end = safe_prefix(bytes, min(k + additional, bytes.len() as int));
    if end > k {
        lemma_line_breaks_split(bytes, 0, k, end);
        assert(extended(prefix_index(bytes, k), bytes, additional).starts =~= prefix_index(
            bytes,
            end,
        ).starts);
    }
}

proof fn lemma_appended_starts_ordered(state: IndexState, bytes: Seq<u8>, end: int)
    requires
        index_well_formed(state),
        state.indexed_len <= end,
    ensures
        ordered_starts(state.starts + line_breaks(bytes, state.indexed_len, end)),
        (state.starts + line_breaks(bytes, state.indexed_len, end)).last() <= end,
{
    lemma_line_breaks_bounds(bytes, state.indexed_len, end);
}

fn prefix_starts(bytes: &[u8]) -> (starts: Vec<usize>)
    ensures
        ints(starts@) == line_starts(bytes@),
        ordered_starts(ints(starts@)),
        ints(starts@).last() <= bytes@.len(),
{
    let mut starts: Vec<usize> = Vec::new();
    starts.push(0);
    let len: usize = bytes.len();
    let mut found = newline_starts(0, bytes);
    let ghost more = found@;
    starts.append(&mut found);
    proof {
        assert(ints(starts@) =~= seq![0int] + ints(more));
        assert(ints(more) =~= line_breaks(bytes@, 0, len as int));
        lemma_line_breaks_bounds(bytes@, 0, bytes@.len() as int);
    }
    starts
}

fn safe_prefix_len(bytes: &[u8], requested_len: usize) -> (len: usize)
    ensures
        len == safe_prefix(bytes@, requested_len as int),
        len <= bytes@.len(),
{
    if requested_len >= bytes.len() {
        bytes.len()
    } else if requested_len > 0 && bytes[requested_len - 1] == CR {
        requested_len - 1
    } else {
        requested_len
    }
}

/// `a / b`, rounded up.
pub(crate) fn div_ceil(a: usize, b: usize) -> (quotient: usize)
    requires
        b > 0,
    ensures
        quotient == (a + b - 1) / (b as int),
        a > 0 ==> quotient > 0,
        quotient <= a,
{
    let whole: usize = a / b;
    proof {
        vstd::arithmetic::div_mod::lemma_fundamental_div_mod(a as int, b as int);
        vstd::arithmetic::div_mod::lemma_div_is_ordered_by_denominator(a as int, 1, b as int);
    }
    if a % b == 0 {
        proof {
            assert(whole == 0 ==> b * whole == 0) by (nonlinear_arith);
            assert(b * whole == whole * b) by (nonlinear_arith);
            vstd::arithmetic::div_mod::lemma_fundamental_div_mod_converse(
                a + b - 1,
                b as int,
                whole as int,
                b - 1,
            );
        }
        whole
    } else {
        proof {
            assert(b * whole + b == b * (whole + 1)) by (nonlinear_arith);
            assert(b == 1 ==> a as int % (b as int) == 0);
            assert(whole < a) by (nonlinear_arith)
                requires
                    a as int == b * whole + a as int % (b as int),
                    a as int % (b as int) > 0,
                    b >= 1,
                    whole >= 0,
            ;
            vstd::arithmetic::div_mod::lemma_fundamental_div_mod_converse(
                a + b - 1,
                b as int,
                whole + 1,
                a as int % (b as int) - 1,
            );
        }
        whole + 1
    }
}

/// How many workers share the indexing of `len` bytes: one for short buffers,
/// else one per full share, up to the number available.
pub open spec fn indexing_worker_count(len: int, available: int) -> int {
    let shares = (len + PARALLEL_LINE_INDEX_CHUNK_BYTES - 1) / (
    PARALLEL_LINE_INDEX_CHUNK_BYTES as int);
    if len < PARALLEL_LINE_INDEX_MIN_BYTES || available < 1 {
        1
    } else {
        min(available, shares)
    }
}

pub fn indexing_workers(len: usize, available_workers: usize) -> (workers: usize)
    ensures
        workers == indexing_worker_count(len as int, available_workers as int),
        workers >= 1,
{
    if len < PARALLEL_LINE_INDEX_MIN_BYTES || available_workers < 1 {
        return 1;
    }
    let target_workers: usize = div_ceil(len, PARALLEL_LINE_INDEX_CHUNK_BYTES);
    if available_workers < target_workers {
        available_workers
    } else {
        target_workers
    }
}

/// `ranges` follow one another without a gap from zero to `len`.
pub open spec fn tiles(ranges: Seq<Range<usize>>, len: int) -> bool {
    &&& ranges.len() > 0
    &&& ranges[0].start == 0
    &&& ranges.last().end == len
    &&& forall|i: int| 0 <= i < ranges.len() ==> (#[trigger] ranges[i]).start <= ranges[i].end
    &&& forall|i: int, j: int|
        0 <= i < ranges.len() && j == i + 1 && j < ranges.len() ==> (#[trigger] ranges[i]).end == (
        #[trigger] ranges[j]).start
}

/// Cuts `len` bytes into ranges of `chunk_len` bytes; the last one is shorter
/// where they do not come out even.
pub fn chunk_ranges(len: usize, chunk_len: usize) -> (ranges: Vec<Range<usize>>)
    requires
        len > 0,
        chunk_len > 0,
    ensures
        tiles(ranges@, len as int),
        forall|i: int|
            0 <= i < ranges@.len() ==> 0 < (#[trigger] ranges@[i]).end - ranges@[i].start
                <= chunk_len,
        forall|i: int|
            0 <= i < ranges@.len() - 1 ==> (#[trigger] ranges@[i]).end - ranges@[i].start
                == chunk_len,
{
    let mut ranges: Vec<Range<usize>> = Vec::new();
    let mut start: usize = 0;
    while start < len
        invariant
            len > 0,
            chunk_len > 0,
            start <= len,
            ranges@.len() == 0 <==> start == 0,
            ranges@.len() > 0 ==> tiles(ranges@, start as int),
            forall|i: int|
                0 <= i < ranges@.len() ==> 0 < (#[trigger] ranges@[i]).end - ranges@[i].start
                    <= chunk_len,
            forall|i: int|
                0 <= i < ranges@.len() - 1 ==> (#[trigger] ranges@[i]).end - ranges@[i].start
                    == chunk_len,
            start < len && ranges@.len() > 0 ==> ranges@.last().end - ranges@.last().start
                == chunk_len,
        decreases len - start,
    {
        let end: usize = if len - start <= chunk_len {
            len
        } else {
            start + chunk_len
        };
        ranges.push(start..end);
        start = end;
    }
    ranges
}

/// Joins the newline scans of consecutive ranges of `bytes` into one index.
pub fn merge_newline_scans(
    bytes: &[u8],
    ranges: &Vec<Range<usize>>,
    scans: &Vec<Vec<usize>>,
) -> (index: LineIndex)
    requires
        tiles(ranges@, bytes@.len() as int),
        scans@.len() == ranges@.len(),
        forall|i: int|
            0 <= i < scans@.len() ==> is_newline_scan(
                bytes@,
                ranges@[i].start as int,
                ranges@[i].end as int,
                0,
                (#[trigger] scans@[i])@,
            ),
    ensures
        index.wf(),
        index@ == full_index(bytes@),
{
    let mut starts: Vec<usize> = Vec::new();
    starts.push(0);
    let mut skip_lf_at: Option<usize> = None;
    let mut i: usize = 0;
    let ghost mut done: int = 0;
    assert(ints(starts@) =~= seq![0int] + line_breaks(bytes@, 0, scan_frontier(bytes@, 0)));
    while i < scans.len()
        invariant
            i <= scans@.len() == ranges@.len(),
            tiles(ranges@, bytes@.len() as int),
            forall|j: int|
                0 <= j < scans@.len() ==> is_newline_scan(
                    bytes@,
                    ranges@[j].start as int,
                    ranges@[j].end as int,
                    0,
                    (#[trigger] scans@[j])@,
                ),
            0 <= done <= bytes@.len(),
            i < scans@.len() ==> done == ranges@[i as int].start,
            i == scans@.len() ==> done == bytes@.len(),
            skip_lf_at == (if splits_crlf(bytes@, done) {
                Some(done as usize)
            } else {
                None
            }),
            ints(starts@) == seq![0int] + line_breaks(bytes@, 0, scan_frontier(bytes@, done)),
        decreases scans@.len() - i,
    {
        let ghost next = ranges@[i as int].end as int;
        proof {
            assert(is_newline_scan(bytes@, done, next, 0, scans@[i as int]@));
            lemma_tile_bounds(ranges@, bytes@.len() as int, i as int);
            if i + 1 < ranges@.len() {
                assert(ranges@[i as int].end == ranges@[i + 1].start);
            }
        }
        append_newline_starts(
            &mut starts,
            0,
            bytes,
            &scans[i],
            &mut skip_lf_at,
            Ghost(done),
            Ghost(next),
        );
        proof {
            let from = scan_frontier(bytes@, done);
            let to = scan_frontier(bytes@, next);
            if from <= to {
                lemma_line_breaks_split(bytes@, 0, from, to);
            }
            assert(shifted(line_breaks(bytes@, from, to), 0) =~= line_breaks(bytes@, from, to));
            assert(ints(starts@) =~= seq![0int] + line_breaks(bytes@, 0, to));
            done = next;
        }
        i += 1;
    }
    proof {
        lemma_line_breaks_bounds(bytes@, 0, bytes@.len() as int);
        assert(full_index(bytes@).starts =~= ints(starts@));
    }
    LineIndex { starts, indexed_len: bytes.len(), complete: true }
}

proof fn lemma_tile_bounds(ranges: Seq<Range<usize>>, len: int, i: int)
    requires
        tiles(ranges, len),
        0 <= i < ranges.len(),
    ensures
        0 <= ranges[i].start <= ranges[i].end <= len,
    decreases ranges.len() - i,
{
    if i + 1 < ranges.len() {
        lemma_tile_bounds(ranges, len, i + 1);
        assert(ranges[i].end == ranges[i + 1].start);
    }
}

/// Indexes `bytes` by scanning chunks of `chunk_len` bytes on their own and
/// joining the results.
pub fn build_parallel_with_chunk_len(bytes: &[u8], chunk_len: usize) -> (index: LineIndex)
    ensures
        index.wf(),
        index@ == full_index(bytes@),
{
    if bytes.len() == 0 || chunk_len == 0 || chunk_len >= bytes.len() {
        return LineIndex::build(bytes);
    }
    let ranges = chunk_ranges(bytes.len(), chunk_len);
    let mut scans: Vec<Vec<usize>> = Vec::new();
    let mut i: usize = 0;
    while i < ranges.len()
        invariant
            i <= ranges@.len(),
            scans@.len() == i,
            tiles(ranges@, bytes@.len() as int),
            forall|j: int|
                0 <= j < scans@.len() ==> is_newline_scan(
                    bytes@,
                    ranges@[j].start as int,
                    ranges@[j].end as int,
                    0,
                    (#[trigger] scans@[j])@,
                ),
        decreases ranges@.len() - i,
    {
        proof {
            lemma_tile_bounds(ranges@, bytes@.len() as int, i as int);
        }
        let start: usize = ranges[i].start;
        let end: usize = ranges[i].end;
        let chunk = slice_subrange(bytes, start, end);
        let positions = newline_positions(start, chunk);
        proof {
            assert forall|k: int|
                start <= k < end && is_newline_byte(#[trigger] bytes@[k]) implies exists|j: int|
                0 <= j < positions@.len() && #[trigger] positions@[j] == k + 0 by {
                assert(chunk@[k - start] == bytes@[k]);
                let j = choose|j: int|
                    0 <= j < positions@.len() && positions@[j] == (k - start) + start;
                assert(positions@[j] == k + 0);
            }
            assert forall|j: int| 0 <= j < positions@.len() implies start <= #[trigger] positions@[j]
                < end && is_newline_byte(bytes@[positions@[j] - 0]) by {
                assert(chunk@[positions@[j] - start] == bytes@[positions@[j] as int]);
            }
        }
        scans.push(positions);
        i += 1;
    }
    merge_newline_scans(bytes, &ranges, &scans)
}

// ---------------------------------------------------------------------------
// Line endings
// ---------------------------------------------------------------------------

#[derive(Clone, Copy, Debug, Eq, PartialEq, Structural)]
pub enum LineEnding {
    CrLf,
    Lf,
    Cr,
}

/// The text that a line ending stands for.
pub open spec fn ending_chars(ending: LineEnding) -> Seq<char> {
    match ending {
        LineEnding::CrLf => seq!['\r', '\n'],
        LineEnding::Lf => seq!['\n'],
        LineEnding::Cr => seq!['\r'],
    }
}

/// The bytes that a line ending stands for.
pub open spec fn ending_bytes(ending: LineEnding) -> Seq<u8> {
    match ending {
        LineEnding::CrLf => seq![CR, LF],
        LineEnding::Lf => seq![LF],
        LineEnding::Cr => seq![CR],
    }
}

pub open spec fn ending_label(ending: LineEnding) -> Seq<char> {
    match ending {
        LineEnding::CrLf => "Windows (CRLF)"@,
        LineEnding::Lf => "Unix (LF)"@,
        LineEnding::Cr => "Macintosh (CR)"@,
    }
}

impl LineEnding {
    pub fn label(self) -> (label: &'static str)
        ensures
            label@ == ending_label(self),
    {
        match self {
            LineEnding::CrLf => "Windows (CRLF)",
            LineEnding::Lf => "Unix (LF)",
            LineEnding::Cr => "Macintosh (CR)",
        }
    }

    pub fn sequence(self) -> (text: &'static str)
        ensures
            text@ == ending_chars(self),
    {
        proof {
            reveal_strlit("\r\n");
            reveal_strlit("\n");
            reveal_strlit("\r");
        }
        match self {
            LineEnding::CrLf => "\r\n",
            LineEnding::Lf => "\n",
            LineEnding::Cr => "\r",
        }
    }
}

/// The newline at `i`, if there is one that counts: a CR LF pair counts once,
/// at its carriage return.
pub open spec fn ending_at(bytes: Seq<u8>, i: int) -> Option<LineEnding> {
    if !(0 <= i < bytes.len()) {
        None
    } else if bytes[i] == CR && i + 1 < bytes.len() && bytes[i + 1] == LF {
        Some(LineEnding::CrLf)
    } else if bytes[i] == CR {
        Some(LineEnding::Cr)
    } else if bytes[i] == LF && !(i > 0 && bytes[i - 1] == CR) {
        Some(LineEnding::Lf)
    } else {
        None
    }
}

/// How many newlines of the kind `ending` begin before offset `n`.
pub open spec fn ending_count(bytes: Seq<u8>, ending: LineEnding, n: int) -> int
    decreases n,
{
    if n <= 0 {
        0
    } else if ending_at(bytes, n - 1) == Some(ending) {
        ending_count(bytes, ending, n - 1) + 1
    } else {
        ending_count(bytes, ending, n - 1)
    }
}

/// The most frequent newline of the first bytes; CR LF wins ties and empty
/// samples, line feeds win over carriage returns.
pub open spec fn detected_ending(bytes: Seq<u8>) -> LineEnding {
    let sample = bytes.take(min(bytes.len() as int, LINE_ENDING_SAMPLE_LIMIT as int));
    let n = sample.len() as int;
    let crlf = ending_count(sample, LineEnding::CrLf, n);
    let lf = ending_count(sample, LineEnding::Lf, n);
    let cr = ending_count(sample, LineEnding::Cr, n);
    if crlf >= lf && crlf >= cr {
        if crlf > 0 || (lf == 0 && cr == 0) {
            LineEnding::CrLf
        } else {
            LineEnding::Lf
        }
    } else if lf >= cr {
        LineEnding::Lf
    } else {
        LineEnding::Cr
    }
}

pub fn detect_line_ending(bytes: &[u8]) -> (ending: LineEnding)
    ensures
        ending == detected_ending(bytes@),
{
    let limit: usize = if bytes.len() < LINE_ENDING_SAMPLE_LIMIT {
        bytes.len()
    } else {
        LINE_ENDING_SAMPLE_LIMIT
    };
    let sample = slice_subrange(bytes, 0, limit);
    assert(sample@ =~= bytes@.take(limit as int));
    let mut crlf_count: usize = 0;
    let mut lf_count: usize = 0;
    let mut cr_count: usize = 0;
    let mut index: usize = 0;
    while index < sample.len()
        invariant
            index <= sample@.len() <= LINE_ENDING_SAMPLE_LIMIT,
            !splits_crlf(sample@, index as int),
            crlf_count == ending_count(sample@, LineEnding::CrLf, index as int),
            lf_count == ending_count(sample@, LineEnding::Lf, index as int),
            cr_count == ending_count(sample@, LineEnding::Cr, index as int),
            crlf_count <= index,
            lf_count <= index,
            cr_count <= index,
        decreases sample@.len() - index,
    {
        let byte: u8 = sample[index];
        proof {
            reveal_with_fuel(ending_count, 3);
        }
        if byte == CR && index + 1 < sample.len() && sample[index + 1] == LF {
            assert(ending_at(sample@, index as int) == Some(LineEnding::CrLf));
            assert(ending_at(sample@, index + 1) is None);
            crlf_count += 1;
            index += 2;
        } else if byte == CR {
            assert(ending_at(sample@, index as int) == Some(LineEnding::Cr));
            cr_count += 1;
            index += 1;
        } else if byte == LF {
            assert(ending_at(sample@, index as int) == Some(LineEnding::Lf));
            lf_count += 1;
            index += 1;
        } else {
            assert(ending_at(sample@, index as int) is None);
            index += 1;
        }
    }
    if crlf_count >= lf_count && crlf_count >= cr_count && crlf_count > 0 {
        LineEnding::CrLf
    } else if lf_count >= cr_count && lf_count > 0 {
        LineEnding::Lf
    } else if cr_count > 0 {
        LineEnding::Cr
    } else {
        LineEnding::CrLf
    }
}

/// The first `n` characters with every newline written as `ending`: a line feed
/// right after a carriage return belongs to it and adds nothing.
pub open spec fn normalized_chars(text: Seq<char>, ending: Seq<char>, n: int) -> Seq<char>
    decreases n,
{
    if n <= 0 {
        Seq::empty()
    } else {
        let before = normalized_chars(text, ending, n - 1);
        let c = text[n - 1];
        if c == '\r' {
            before + ending
        } else if c == '\n' {
            if n > 1 && text[n - 2] == '\r' {
                before
            } else {
                before + ending
            }
        } else {
            before.push(c)
        }
    }
}

/// Rewrites every newline of `text` as `target`.
pub fn normalize_line_endings(text: &str, target: LineEnding) -> (output: String)
    ensures
        output@ == normalized_chars(text@, ending_chars(target), text@.len() as int),
{
    let mut output = String::new();
    let mut previous: char = ' ';
    for character in iter: text.chars()
        invariant
            iter.seq() == text@,
            iter.index() == 0 ==> previous == ' ',
            iter.index() > 0 ==> previous == text@[iter.index() - 1],
            output@ == normalized_chars(text@, ending_chars(target), iter.index() as int),
    {
        if character == '\r' {
            output.append(target.sequence());
        } else if character == '\n' {
            if previous != '\r' {
                output.append(target.sequence());
            }
        } else {
            output.push(character);
        }
        previous = character;
    }
    output
}

} // verus!

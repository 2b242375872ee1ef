//! A text buffer made of pieces of an immutable original and an append-only
//! buffer of inserted text.

use crate::error::{fails_as, BlitzError, ErrorModel, Result};
use crate::text::{
    byte_len, decode_str, lemma_boundary, on_boundary, owned, shown_text, text_of, utf8_bytes,
    utf8_error_text,
};
use std::ops::Range;
use std::sync::Arc;
use vstd::prelude::*;
use vstd::slice::slice_subrange;
use vstd::utf8::*;

verus! {

/// The most bytes that a chunk of the buffer holds.
pub const STREAM_CHUNK_BYTES: usize = 1_048_576;

// ---------------------------------------------------------------------------
// The original bytes
// ---------------------------------------------------------------------------

#[verifier::external_type_specification]
#[verifier::external_body]
pub struct ExMmap(memmap2::Mmap);

/// The bytes of a memory map.
pub uninterp spec fn mapped_bytes(map: memmap2::Mmap) -> Seq<u8>;

/// The bytes of a memory map as a slice.
///
/// Trusted: dereferencing a `memmap2::Mmap` gives its bytes, the same each time.
/// Whoever made the map has promised that the file behind it does not change.
#[verifier::external_body]
fn mmap_slice(map: &memmap2::Mmap) -> (bytes: &[u8])
    ensures
        bytes@ == mapped_bytes(*map),
{
    &map[..]
}

/// Another handle on a shared value.
///
/// Trusted: `Arc::clone` gives a handle on the same value.
#[verifier::external_body]
fn share<T>(shared: &Arc<T>) -> (other: Arc<T>)
    ensures
        other == *shared,
{
    Arc::clone(shared)
}

/// Whether two handles are on one allocation.
///
/// Trusted: where `Arc::ptr_eq` says so, both handles lead to the same value.
#[verifier::external_body]
fn same_allocation<T>(a: &Arc<T>, b: &Arc<T>) -> (same: bool)
    ensures
        same ==> *a == *b,
{
    Arc::ptr_eq(a, b)
}

/// The bytes that a document was opened from: read into memory, or mapped.
#[derive(Debug)]
pub enum SourceBytes {
    Heap(Arc<Vec<u8>>),
    Mapped(Arc<memmap2::Mmap>),
}

impl View for SourceBytes {
    type V = Seq<u8>;

    open spec fn view(&self) -> Seq<u8> {
        match *self {
            SourceBytes::Heap(bytes) => bytes@,
            SourceBytes::Mapped(map) => mapped_bytes(*map),
        }
    }
}

impl Clone for SourceBytes {
    fn clone(&self) -> (copy: Self)
        ensures
            copy == *self,
    {
        match self {
            SourceBytes::Heap(bytes) => SourceBytes::Heap(share(bytes)),
            SourceBytes::Mapped(map) => SourceBytes::Mapped(share(map)),
        }
    }
}

impl SourceBytes {
    pub fn from_vec(bytes: Vec<u8>) -> (source: Self)
        ensures
            source@ == bytes@,
            source is Heap,
    {
        SourceBytes::Heap(Arc::new(bytes))
    }

    pub fn from_mmap(mmap: memmap2::Mmap) -> (source: Self)
        ensures
            source@ == mapped_bytes(mmap),
            source is Mapped,
    {
        SourceBytes::Mapped(Arc::new(mmap))
    }

    pub fn as_slice(&self) -> (bytes: &[u8])
        ensures
            bytes@ == self@,
    {
        match self {
            SourceBytes::Heap(bytes) => bytes.as_slice(),
            SourceBytes::Mapped(map) => mmap_slice(map),
        }
    }

    pub fn len(&self) -> (len: usize)
        ensures
            len == self@.len(),
            len <= isize::MAX,
    {
        byte_len(self.as_slice())
    }

    pub fn is_empty(&self) -> (empty: bool)
        ensures
            empty == (self@.len() == 0),
    {
        self.len() == 0
    }

    pub fn is_mapped(&self) -> (mapped: bool)
        ensures
            mapped == (self is Mapped),
    {
        matches!(self, SourceBytes::Mapped(_))
    }

    /// Whether both are handles on the same bytes. The answer is `true` only
    /// for one allocation, so it may be `false` for equal bytes.
    pub(crate) fn same_source(&self, other: &SourceBytes) -> (same: bool)
        ensures
            same ==> self@ == other@,
    {
        match (self, other) {
            (SourceBytes::Heap(a), SourceBytes::Heap(b)) => same_allocation(a, b),
            (SourceBytes::Mapped(a), SourceBytes::Mapped(b)) => same_allocation(a, b),
            _ => false,
        }
    }
}

// ---------------------------------------------------------------------------
// Pieces
// ---------------------------------------------------------------------------

#[derive(Clone, Copy, Debug, Eq, PartialEq, Structural)]
enum BufferKind {
    Original,
    Add,
}

#[derive(Clone, Copy, Debug, Eq, PartialEq, Structural)]
struct Piece {
    source: BufferKind,
    start: usize,
    len: usize,
}

spec fn piece_source(original: Seq<u8>, add: Seq<u8>, piece: Piece) -> Seq<u8> {
    match piece.source {
        BufferKind::Original => original,
        BufferKind::Add => add,
    }
}

spec fn piece_content(original: Seq<u8>, add: Seq<u8>, piece: Piece) -> Seq<u8> {
    piece_source(original, add, piece).subrange(piece.start as int, piece.start + piece.len)
}

spec fn piece_ok(original: Seq<u8>, add: Seq<u8>, piece: Piece) -> bool {
    piece.len > 0 && piece.start + piece.len <= piece_source(original, add, piece).len()
}

spec fn pieces_ok(original: Seq<u8>, add: Seq<u8>, pieces: Seq<Piece>) -> bool {
    forall|i: int| 0 <= i < pieces.len() ==> piece_ok(original, add, #[trigger] pieces[i])
}

/// The text that a list of pieces stands for.
spec fn content(original: Seq<u8>, add: Seq<u8>, pieces: Seq<Piece>) -> Seq<u8>
    decreases pieces.len(),
{
    if pieces.len() == 0 {
        Seq::empty()
    } else {
        content(original, add, pieces.drop_last()) + piece_content(original, add, pieces.last())
    }
}

/// Where piece `i` begins in the text.
spec fn piece_offset(original: Seq<u8>, add: Seq<u8>, pieces: Seq<Piece>, i: int) -> int {
    content(original, add, pieces.take(i)).len() as int
}

proof fn lemma_content_push(original: Seq<u8>, add: Seq<u8>, pieces: Seq<Piece>, piece: Piece)
    ensures
        content(original, add, pieces.push(piece)) == content(original, add, pieces)
            + piece_content(original, add, piece),
{
    assert(pieces.push(piece).drop_last() =~= pieces);
}

proof fn lemma_content_concat(original: Seq<u8>, add: Seq<u8>, a: Seq<Piece>, b: Seq<Piece>)
    ensures
        content(original, add, a + b) == content(original, add, a) + content(original, add, b),
    decreases b.len(),
{
    if b.len() == 0 {
        assert(a + b =~= a);
        assert(content(original, add, a) + content(original, add, b) =~= content(original, add, a));
    } else {
        lemma_content_concat(original, add, a, b.drop_last());
        assert((a + b).drop_last() =~= a + b.drop_last());
        assert((a + b).last() == b.last());
        assert(content(original, add, a + b) =~= content(original, add, a) + content(
            original,
            add,
            b,
        ));
    }
}

/// Piece `i` is the part of the text from its offset to the next one's.
proof fn lemma_piece_at(original: Seq<u8>, add: Seq<u8>, pieces: Seq<Piece>, i: int)
    requires
        pieces_ok(original, add, pieces),
        0 <= i < pieces.len(),
    ensures
        ({
            let from = piece_offset(original, add, pieces, i);
            let to = piece_offset(original, add, pieces, i + 1);
            let text = content(original, add, pieces);
            &&& to == from + pieces[i].len
            &&& 0 <= from <= to <= text.len()
            &&& text.subrange(from, to) == piece_content(original, add, pieces[i])
            &&& text.take(from) == content(original, add, pieces.take(i))
            &&& text.take(to) == content(original, add, pieces.take(i + 1))
        }),
{
    let before = pieces.take(i);
    let after = pieces.skip(i + 1);
    assert(pieces.take(i + 1) =~= before.push(pieces[i]));
    assert(pieces =~= before.push(pieces[i]) + after);
    lemma_content_push(original, add, before, pieces[i]);
    lemma_content_concat(original, add, before.push(pieces[i]), after);
    let text = content(original, add, pieces);
    let from = piece_offset(original, add, pieces, i);
    let to = piece_offset(original, add, pieces, i + 1);
    assert(piece_ok(original, add, pieces[i]));
    assert(text.subrange(from, to) =~= piece_content(original, add, pieces[i]));
    assert(text.take(from) =~= content(original, add, before));
    assert(text.take(to) =~= content(original, add, pieces.take(i + 1)));
}

proof fn lemma_piece_ends(original: Seq<u8>, add: Seq<u8>, pieces: Seq<Piece>)
    ensures
        piece_offset(original, add, pieces, 0) == 0,
        piece_offset(original, add, pieces, pieces.len() as int) == content(
            original,
            add,
            pieces,
        ).len(),
{
    assert(pieces.take(0).len() == 0);
    assert(pieces.take(pieces.len() as int) =~= pieces);
}

/// Text appended to the buffer of insertions changes no piece.
proof fn lemma_content_grown(original: Seq<u8>, add: Seq<u8>, more: Seq<u8>, pieces: Seq<Piece>)
    requires
        pieces_ok(original, add, pieces),
    ensures
        pieces_ok(original, add + more, pieces),
        content(original, add + more, pieces) == content(original, add, pieces),
    decreases pieces.len(),
{
    assert forall|i: int| 0 <= i < pieces.len() implies piece_ok(
        original,
        add + more,
        #[trigger] pieces[i],
    ) by {
        assert(piece_ok(original, add, pieces[i]));
    }
    if pieces.len() > 0 {
        let rest = pieces.drop_last();
        assert forall|i: int| 0 <= i < rest.len() implies piece_ok(
            original,
            add,
            #[trigger] rest[i],
        ) by {
            assert(piece_ok(original, add, pieces[i]));
        }
        lemma_content_grown(original, add, more, rest);
        let last = pieces.last();
        assert(piece_ok(original, add, pieces[pieces.len() - 1]));
        assert(piece_content(original, add + more, last) =~= piece_content(original, add, last));
    }
}

// ---------------------------------------------------------------------------
// Chunks
// ---------------------------------------------------------------------------

/// `bytes` in order, in parts of at most `STREAM_CHUNK_BYTES`.
pub open spec fn split_chunks(bytes: Seq<u8>) -> Seq<Seq<u8>>
    decreases bytes.len(),
{
    if bytes.len() == 0 {
        Seq::empty()
    } else if bytes.len() <= STREAM_CHUNK_BYTES {
        seq![bytes]
    } else {
        seq![bytes.take(STREAM_CHUNK_BYTES as int)] + split_chunks(
            bytes.skip(STREAM_CHUNK_BYTES as int),
        )
    }
}

spec fn piece_chunks(original: Seq<u8>, add: Seq<u8>, pieces: Seq<Piece>) -> Seq<Seq<u8>>
    decreases pieces.len(),
{
    if pieces.len() == 0 {
        Seq::empty()
    } else {
        piece_chunks(original, add, pieces.drop_last()) + split_chunks(
            piece_content(original, add, pieces.last()),
        )
    }
}

/// Chunks put back together.
pub open spec fn joined(chunks: Seq<Seq<u8>>) -> Seq<u8>
    decreases chunks.len(),
{
    if chunks.len() == 0 {
        Seq::empty()
    } else {
        joined(chunks.drop_last()) + chunks.last()
    }
}

pub open spec fn chunk_views(chunks: Seq<&[u8]>) -> Seq<Seq<u8>> {
    Seq::new(chunks.len(), |i: int| chunks[i]@)
}

pub proof fn lemma_joined_concat(a: Seq<Seq<u8>>, b: Seq<Seq<u8>>)
    ensures
        joined(a + b) == joined(a) + joined(b),
    decreases b.len(),
{
    if b.len() == 0 {
        assert(a + b =~= a);
        assert(joined(a) + joined(b) =~= joined(a));
    } else {
        lemma_joined_concat(a, b.drop_last());
        assert((a + b).drop_last() =~= a + b.drop_last());
        assert(joined(a + b) =~= joined(a) + joined(b));
    }
}

pub proof fn lemma_split_joined(bytes: Seq<u8>)
    ensures
        joined(split_chunks(bytes)) == bytes,
        forall|i: int|
            0 <= i < split_chunks(bytes).len() ==> (#[trigger] split_chunks(bytes)[i]).len() > 0,
    decreases bytes.len(),
{
    reveal_with_fuel(joined, 2);
    if bytes.len() == 0 {
    } else if bytes.len() <= STREAM_CHUNK_BYTES {
        assert(seq![bytes].drop_last() =~= Seq::<Seq<u8>>::empty());
        assert(joined(split_chunks(bytes)) =~= bytes);
    } else {
        let head = bytes.take(STREAM_CHUNK_BYTES as int);
        let tail = bytes.skip(STREAM_CHUNK_BYTES as int);
        lemma_split_joined(tail);
        lemma_joined_concat(seq![head], split_chunks(tail));
        assert(seq![head].drop_last() =~= Seq::<Seq<u8>>::empty());
        assert(joined(seq![head]) =~= head);
        assert(joined(split_chunks(bytes)) =~= bytes);
        assert forall|i: int| 0 <= i < split_chunks(bytes).len() implies (#[trigger] split_chunks(
            bytes,
        )[i]).len() > 0 by {
            if i > 0 {
                assert(split_chunks(bytes)[i] == split_chunks(tail)[i - 1]);
            }
        }
    }
}

proof fn lemma_chunks_joined(original: Seq<u8>, add: Seq<u8>, pieces: Seq<Piece>)
    ensures
        joined(piece_chunks(original, add, pieces)) == content(original, add, pieces),
        forall|i: int|
            0 <= i < piece_chunks(original, add, pieces).len() ==> (#[trigger] piece_chunks(
                original,
                add,
                pieces,
            )[i]).len() > 0,
    decreases pieces.len(),
{
    if pieces.len() > 0 {
        let earlier = piece_chunks(original, add, pieces.drop_last());
        let last = split_chunks(piece_content(original, add, pieces.last()));
        lemma_chunks_joined(original, add, pieces.drop_last());
        lemma_split_joined(piece_content(original, add, pieces.last()));
        lemma_joined_concat(earlier, last);
        let all = piece_chunks(original, add, pieces);
        assert forall|i: int| 0 <= i < all.len() implies (#[trigger] all[i]).len() > 0 by {
            if i < earlier.len() {
                assert(all[i] == earlier[i]);
            } else {
                assert(all[i] == last[i - earlier.len()]);
            }
        }
    }
}

// ---------------------------------------------------------------------------
// The table
// ---------------------------------------------------------------------------

/// Why an offset cannot be edited at, if it cannot.
pub open spec fn offset_error(bytes: Seq<u8>, offset: int) -> Option<ErrorModel> {
    if offset > bytes.len() {
        Some(
            ErrorModel::InvalidRange { start: offset, end: offset, len: bytes.len() as int },
        )
    } else if !valid_utf8(bytes) {
        Some(ErrorModel::Encoding("document is not valid UTF-8: "@ + utf8_error_text(bytes)))
    } else if !on_boundary(bytes, offset) {
        Some(ErrorModel::InvalidCharBoundary { offset })
    } else {
        None
    }
}

/// Why a range lies outside the text, if it does.
pub open spec fn bounds_error(len: int, start: int, end: int) -> Option<ErrorModel> {
    if start > end || end > len {
        Some(ErrorModel::InvalidRange { start, end, len })
    } else {
        None
    }
}

/// Why a range cannot be edited, if it cannot.
pub open spec fn range_error(bytes: Seq<u8>, start: int, end: int) -> Option<ErrorModel> {
    if bounds_error(bytes.len() as int, start, end) is Some {
        bounds_error(bytes.len() as int, start, end)
    } else if offset_error(bytes, start) is Some {
        offset_error(bytes, start)
    } else {
        offset_error(bytes, end)
    }
}

/// `bytes` with the range from `start` to `end` replaced.
pub open spec fn spliced(bytes: Seq<u8>, start: int, end: int, text: Seq<u8>) -> Seq<u8> {
    bytes.take(start) + text + bytes.skip(end)
}

#[derive(Debug)]
pub struct PieceTable {
    original: SourceBytes,
    add: Vec<u8>,
    pieces: Vec<Piece>,
}

impl View for PieceTable {
    type V = Seq<u8>;

    closed spec fn view(&self) -> Seq<u8> {
        content(self.original@, self.add@, self.pieces@)
    }
}

impl Clone for PieceTable {
    fn clone(&self) -> (copy: Self)
        ensures
            copy@ == self@,
            copy.wf() == self.wf(),
            copy.source() == self.source(),
    {
        let add = self.add.clone();
        let pieces = copy_pieces(&self.pieces);
        assert(add@ =~= self.add@);
        PieceTable { original: self.original.clone(), add, pieces }
    }
}

fn copy_pieces(pieces: &Vec<Piece>) -> (copy: Vec<Piece>)
    ensures
        copy@ == pieces@,
{
    let mut copy: Vec<Piece> = Vec::new();
    let mut i: usize = 0;
    while i < pieces.len()
        invariant
            i <= pieces@.len(),
            copy@ == pieces@.take(i as int),
        decreases pieces@.len() - i,
    {
        copy.push(pieces[i]);
        i += 1;
        assert(copy@ =~= pieces@.take(i as int));
    }
    assert(pieces@.take(i as int) =~= pieces@);
    copy
}

impl PieceTable {
    /// Every piece lies within its source and is not empty, and the text is no
    /// longer than the two sources together.
    pub closed spec fn wf(&self) -> bool {
        &&& pieces_ok(self.original@, self.add@, self.pieces@)
        &&& self@.len() <= self.original@.len() + self.add@.len()
        &&& self.original@.len() <= isize::MAX
        &&& self.add@.len() <= isize::MAX
    }

    /// The original bytes, which no edit changes.
    pub closed spec fn source(&self) -> SourceBytes {
        self.original
    }

    /// The text as the chunks that it is streamed in.
    pub closed spec fn chunk_seq(&self) -> Seq<Seq<u8>> {
        piece_chunks(self.original@, self.add@, self.pieces@)
    }

    pub fn new() -> (table: Self)
        ensures
            table.wf(),
            table@ == Seq::<u8>::empty(),
            !(table.source() is Mapped),
    {
        let table = PieceTable::from_text("");
        proof {
            reveal_strlit("");
            assert(""@ =~= Seq::<char>::empty());
        }
        table
    }

    pub fn from_text(text: &str) -> (table: Self)
        ensures
            table.wf(),
            table@ == encode_utf8(text@),
            !(table.source() is Mapped),
    {
        let bytes = utf8_bytes(text);
        let len: usize = bytes.len();
        let source = SourceBytes::from_vec(bytes);
        let source_len: usize = source.len();
        let pieces = single_piece(0, len);
        proof {
            lemma_single_piece(source@, Seq::<u8>::empty(), 0, len);
            assert(source@.subrange(0, len as int) =~= source@);
        }
        PieceTable { original: source, add: Vec::new(), pieces }
    }

    /// A table over `len` bytes of `original` from `start`.
    pub fn from_source(original: SourceBytes, start: usize, len: usize) -> (table: Result<Self>)
        requires
            start + len <= usize::MAX,
        ensures
            fails_as(table, bounds_error(original@.len() as int, start as int, start + len)),
            table matches Ok(table) ==> {
                &&& table.wf()
                &&& table@ == original@.subrange(start as int, start + len)
                &&& table.source() == original
            },
    {
        let original_len: usize = original.len();
        if start + len > original_len {
            return Err(BlitzError::InvalidRange { start, end: start + len, len: original_len });
        }
        let pieces = single_piece(start, len);
        proof {
            lemma_single_piece(original@, Seq::<u8>::empty(), start, len);
        }
        Ok(PieceTable { original, add: Vec::new(), pieces })
    }

    pub fn len(&self) -> (len: usize)
        requires
            self.wf(),
        ensures
            len == self@.len(),
            len < usize::MAX,
    {
        let mut total: usize = 0;
        let mut i: usize = 0;
        proof {
            lemma_piece_ends(self.original@, self.add@, self.pieces@);
        }
        while i < self.pieces.len()
            invariant
                self.wf(),
                i <= self.pieces@.len(),
                total == piece_offset(self.original@, self.add@, self.pieces@, i as int),
            decreases self.pieces@.len() - i,
        {
            proof {
                lemma_piece_at(self.original@, self.add@, self.pieces@, i as int);
            }
            total += self.pieces[i].len;
            i += 1;
        }
        proof {
            lemma_piece_ends(self.original@, self.add@, self.pieces@);
        }
        total
    }

    pub fn is_empty(&self) -> (empty: bool)
        requires
            self.wf(),
        ensures
            empty == (self@.len() == 0),
    {
        self.len() == 0
    }

    pub fn original_is_mapped(&self) -> (mapped: bool)
        ensures
            mapped == (self.source() is Mapped),
    {
        self.original.is_mapped()
    }

    /// The original bytes.
    pub(crate) fn original(&self) -> (original: &SourceBytes)
        ensures
            *original == self.source(),
    {
        &self.original
    }

    pub fn collect_bytes(&self) -> (bytes: Vec<u8>)
        requires
            self.wf(),
        ensures
            bytes@ == self@,
    {
        let len: usize = self.len();
        let bytes = self.copy_range(0, len);
        assert(self@.subrange(0, len as int) =~= self@);
        bytes
    }

    /// The bytes from `start` to `end`.
    pub fn bytes_range(&self, range: Range<usize>) -> (bytes: Result<Vec<u8>>)
        requires
            self.wf(),
        ensures
            fails_as(bytes, bounds_error(self@.len() as int, range.start as int, range.end as int)),
            bytes matches Ok(bytes) ==> bytes@ == self@.subrange(
                range.start as int,
                range.end as int,
            ),
    {
        let len: usize = self.len();
        if range.start > range.end || range.end > len {
            return Err(BlitzError::InvalidRange { start: range.start, end: range.end, len });
        }
        Ok(self.copy_range(range.start, range.end))
    }

    fn copy_range(&self, start: usize, end: usize) -> (bytes: Vec<u8>)
        requires
            self.wf(),
            start <= end <= self@.len(),
        ensures
            bytes@ == self@.subrange(start as int, end as int),
    {
        let mut bytes: Vec<u8> = Vec::new();
        let mut cursor: usize = 0;
        let mut i: usize = 0;
        let ghost text = self@;
        proof {
            lemma_piece_ends(self.original@, self.add@, self.pieces@);
        }
        while i < self.pieces.len()
            invariant
                self.wf(),
                text == self@,
                start <= end <= text.len(),
                i <= self.pieces@.len(),
                cursor == piece_offset(self.original@, self.add@, self.pieces@, i as int),
                cursor <= text.len() <= usize::MAX,
                bytes@ == (if cursor <= start {
                    Seq::empty()
                } else if cursor < end {
                    text.subrange(start as int, cursor as int)
                } else {
                    text.subrange(start as int, end as int)
                }),
            decreases self.pieces@.len() - i,
        {
            proof {
                lemma_piece_at(self.original@, self.add@, self.pieces@, i as int);
            }
            let piece = self.pieces[i];
            let piece_start: usize = cursor;
            let piece_end: usize = cursor + piece.len;
            if piece_end > start && piece_start < end {
                let overlap_start: usize = if start > piece_start {
                    start
                } else {
                    piece_start
                };
                let overlap_end: usize = if end < piece_end {
                    end
                } else {
                    piece_end
                };
                let all = self.piece_bytes(piece);
                let part = slice_subrange(
                    all,
                    overlap_start - piece_start,
                    overlap_end - piece_start,
                );
                let ghost held = bytes@;
                bytes.extend_from_slice(part);
                proof {
                    let piece_text = text.subrange(piece_start as int, piece_end as int);
                    assert(part@ =~= text.subrange(overlap_start as int, overlap_end as int));
                    assert(bytes@ =~= held + part@);
                    assert(bytes@ =~= text.subrange(start as int, overlap_end as int));
                }
            }
            cursor = piece_end;
            i += 1;
        }
        proof {
            lemma_piece_ends(self.original@, self.add@, self.pieces@);
            assert(bytes@ =~= text.subrange(start as int, end as int));
        }
        bytes
    }

    /// The byte at `offset`, or none at the end of the text.
    pub fn byte_at(&self, offset: usize) -> (byte: Result<Option<u8>>)
        requires
            self.wf(),
        ensures
            fails_as(byte, bounds_error(self@.len() as int, offset as int, offset as int)),
            byte matches Ok(byte) ==> byte == (if offset < self@.len() {
                Some(self@[offset as int])
            } else {
                None
            }),
    {
        let len: usize = self.len();
        if offset > len {
            return Err(BlitzError::InvalidRange { start: offset, end: offset, len });
        }
        if offset == len {
            return Ok(None);
        }
        let bytes = self.copy_range(offset, offset + 1);
        Ok(Some(bytes[0]))
    }

    pub fn to_text_lossy(&self) -> (text: String)
        requires
            self.wf(),
        ensures
            text@ == shown_text(self@),
    {
        let bytes = self.collect_bytes();
        text_of(bytes.as_slice())
    }

    /// The text in order, in chunks.
    pub fn chunks(&self) -> (chunks: Vec<&[u8]>)
        requires
            self.wf(),
        ensures
            chunk_views(chunks@) == self.chunk_seq(),
            joined(self.chunk_seq()) == self@,
            forall|i: int|
                0 <= i < self.chunk_seq().len() ==> (#[trigger] self.chunk_seq()[i]).len() > 0,
    {
        let mut chunks: Vec<&[u8]> = Vec::new();
        let mut i: usize = 0;
        let ghost original = self.original@;
        let ghost add = self.add@;
        proof {
            assert(self.pieces@.take(0) =~= Seq::<Piece>::empty());
            assert(chunk_views(chunks@) =~= piece_chunks(original, add, self.pieces@.take(0)));
        }
        while i < self.pieces.len()
            invariant
                self.wf(),
                original == self.original@,
                add == self.add@,
                i <= self.pieces@.len(),
                chunk_views(chunks@) == piece_chunks(original, add, self.pieces@.take(i as int)),
            decreases self.pieces@.len() - i,
        {
            let piece = self.pieces[i];
            proof {
                assert(piece_ok(original, add, self.pieces@[i as int]));
                assert(self.pieces@.take(i + 1).drop_last() =~= self.pieces@.take(i as int));
            }
            let all = self.piece_bytes(piece);
            push_split_chunks(&mut chunks, all);
            i += 1;
        }
        proof {
            assert(self.pieces@.take(i as int) =~= self.pieces@);
            lemma_chunks_joined(original, add, self.pieces@);
        }
        chunks
    }

    /// Inserts `text` at `byte_offset`.
    pub fn insert_str(&mut self, byte_offset: usize, text: &str) -> (result: Result<()>)
        requires
            old(self).wf(),
        ensures
            final(self).wf(),
            final(self).source() == old(self).source(),
            fails_as(result, offset_error(old(self)@, byte_offset as int)),
            result is Err ==> final(self)@ == old(self)@,
            result is Ok ==> final(self)@ == spliced(
                old(self)@,
                byte_offset as int,
                byte_offset as int,
                encode_utf8(text@),
            ),
    {
        self.ensure_char_boundary(byte_offset)?;
        let added = text.as_bytes();
        if added.len() == 0 {
            proof {
                assert(spliced(
                    self@,
                    byte_offset as int,
                    byte_offset as int,
                    encode_utf8(text@),
                ) =~= self@);
            }
            return Ok(());
        }
        let ghost original = self.original@;
        let ghost old_add = self.add@;
        let ghost old_pieces = self.pieces@;
        let add_start: usize = self.add.len();
        let mut pieces = self.pieces_before(byte_offset);
        let mut rest = self.pieces_after(byte_offset);
        let ghost left = pieces@;
        let ghost right = rest@;
        self.add.extend_from_slice(added);
        let new_len: usize = byte_len(self.add.as_slice());
        let inserted = Piece { source: BufferKind::Add, start: add_start, len: added.len() };
        pieces.push(inserted);
        pieces.append(&mut rest);
        proof {
            assert(self.add@ =~= old_add + added@);
            lemma_content_grown(original, old_add, added@, left);
            lemma_content_grown(original, old_add, added@, right);
            assert(pieces@ =~= left.push(inserted) + right);
            lemma_content_push(original, self.add@, left, inserted);
            lemma_content_concat(original, self.add@, left.push(inserted), right);
            assert(piece_content(original, self.add@, inserted) =~= added@);
            assert(pieces_ok(original, self.add@, pieces@)) by {
                assert forall|i: int| 0 <= i < pieces@.len() implies piece_ok(
                    original,
                    self.add@,
                    #[trigger] pieces@[i],
                ) by {
                    if i < left.len() {
                        assert(pieces@[i] == left[i]);
                    } else if i > left.len() {
                        assert(pieces@[i] == right[i - left.len() - 1]);
                    }
                }
            }
        }
        self.pieces = merged(&pieces, Ghost(original), Ghost(self.add@));
        Ok(())
    }

    /// Removes the bytes of `range`.
    pub fn delete_range(&mut self, range: Range<usize>) -> (result: Result<()>)
        requires
            old(self).wf(),
        ensures
            final(self).wf(),
            final(self).source() == old(self).source(),
            fails_as(result, range_error(old(self)@, range.start as int, range.end as int)),
            result is Err ==> final(self)@ == old(self)@,
            result is Ok ==> final(self)@ == spliced(
                old(self)@,
                range.start as int,
                range.end as int,
                Seq::empty(),
            ),
    {
        self.ensure_range(&range)?;
        if range.start >= range.end {
            proof {
                assert(spliced(self@, range.start as int, range.end as int, Seq::empty()) =~= self@);
            }
            return Ok(());
        }
        let mut pieces = self.pieces_before(range.start);
        let mut rest = self.pieces_after(range.end);
        let ghost left = pieces@;
        let ghost right = rest@;
        pieces.append(&mut rest);
        proof {
            assert(pieces@ =~= left + right);
            lemma_content_concat(self.original@, self.add@, left, right);
            assert forall|i: int| 0 <= i < pieces@.len() implies piece_ok(
                self.original@,
                self.add@,
                #[trigger] pieces@[i],
            ) by {
                if i < left.len() {
                    assert(pieces@[i] == left[i]);
                } else {
                    assert(pieces@[i] == right[i - left.len()]);
                }
            }
            assert(spliced(self@, range.start as int, range.end as int, Seq::empty()) =~= self@.take(
                range.start as int,
            ) + self@.skip(range.end as int));
        }
        self.pieces = merged(&pieces, Ghost(self.original@), Ghost(self.add@));
        Ok(())
    }

    /// Replaces the bytes of `range` by `text`.
    pub fn replace_range(&mut self, range: Range<usize>, text: &str) -> (result: Result<()>)
        requires
            old(self).wf(),
        ensures
            final(self).wf(),
            final(self).source() == old(self).source(),
            fails_as(result, range_error(old(self)@, range.start as int, range.end as int)),
            result is Err ==> final(self)@ == old(self)@,
            result is Ok ==> final(self)@ == spliced(
                old(self)@,
                range.start as int,
                range.end as int,
                encode_utf8(text@),
            ),
    {
        let start: usize = range.start;
        let ghost before = self@;
        let ghost end = range.end as int;
        self.delete_range(range)?;
        proof {
            lemma_cut_is_editable(before, start as int, end);
        }
        let result = self.insert_str(start, text);
        proof {
            assert(spliced(
                spliced(before, start as int, end, Seq::empty()),
                start as int,
                start as int,
                encode_utf8(text@),
            ) =~= spliced(before, start as int, end, encode_utf8(text@)));
        }
        result
    }

    fn piece_bytes(&self, piece: Piece) -> (bytes: &[u8])
        requires
            piece_ok(self.original@, self.add@, piece),
        ensures
            bytes@ == piece_content(self.original@, self.add@, piece),
    {
        let source = match piece.source {
            BufferKind::Original => self.original.as_slice(),
            BufferKind::Add => self.add.as_slice(),
        };
        let len: usize = source.len();
        slice_subrange(source, piece.start, piece.start + piece.len)
    }

    /// The pieces of the text before `offset`.
    fn pieces_before(&self, offset: usize) -> (pieces: Vec<Piece>)
        requires
            self.wf(),
            offset <= self@.len(),
        ensures
            pieces_ok(self.original@, self.add@, pieces@),
            content(self.original@, self.add@, pieces@) == self@.take(offset as int),
    {
        let mut pieces: Vec<Piece> = Vec::new();
        let mut cursor: usize = 0;
        let mut i: usize = 0;
        let ghost original = self.original@;
        let ghost add = self.add@;
        let ghost text = self@;
        proof {
            lemma_piece_ends(original, add, self.pieces@);
            assert(text.take(0) =~= Seq::<u8>::empty());
        }
        while i < self.pieces.len() && cursor < offset
            invariant
                self.wf(),
                original == self.original@,
                add == self.add@,
                text == self@,
                offset <= text.len(),
                i <= self.pieces@.len(),
                cursor == piece_offset(original, add, self.pieces@, i as int) || cursor == offset,
                cursor <= offset,
                pieces_ok(original, add, pieces@),
                content(original, add, pieces@) == text.take(cursor as int),
            decreases self.pieces@.len() - i,
        {
            proof {
                lemma_piece_at(original, add, self.pieces@, i as int);
                assert(piece_ok(original, add, self.pieces@[i as int]));
            }
            let piece = self.pieces[i];
            let len: usize = if piece.len < offset - cursor {
                piece.len
            } else {
                offset - cursor
            };
            let kept = Piece { source: piece.source, start: piece.start, len };
            proof {
                lemma_content_push(original, add, pieces@, kept);
                let whole = text.subrange(cursor as int, cursor + piece.len);
                assert(piece_content(original, add, kept) =~= whole.take(len as int));
                assert(text.take(cursor + len) =~= text.take(cursor as int) + whole.take(
                    len as int,
                ));
            }
            pieces.push(kept);
            cursor += len;
            i += 1;
        }
        proof {
            lemma_piece_ends(original, add, self.pieces@);
        }
        pieces
    }

    /// The pieces of the text from `offset` on.
    fn pieces_after(&self, offset: usize) -> (pieces: Vec<Piece>)
        requires
            self.wf(),
            offset <= self@.len(),
        ensures
            pieces_ok(self.original@, self.add@, pieces@),
            content(self.original@, self.add@, pieces@) == self@.skip(offset as int),
    {
        let mut pieces: Vec<Piece> = Vec::new();
        let mut cursor: usize = 0;
        let mut i: usize = 0;
        let ghost original = self.original@;
        let ghost add = self.add@;
        let ghost text = self@;
        proof {
            lemma_piece_ends(original, add, self.pieces@);
        }
        while i < self.pieces.len()
            invariant
                self.wf(),
                original == self.original@,
                add == self.add@,
                text == self@,
                offset <= text.len() <= usize::MAX,
                i <= self.pieces@.len(),
                cursor == piece_offset(original, add, self.pieces@, i as int),
                pieces_ok(original, add, pieces@),
                content(original, add, pieces@) == (if cursor <= offset {
                    Seq::empty()
                } else {
                    text.subrange(offset as int, cursor as int)
                }),
            decreases self.pieces@.len() - i,
        {
            proof {
                lemma_piece_at(original, add, self.pieces@, i as int);
                assert(piece_ok(original, add, self.pieces@[i as int]));
            }
            let piece = self.pieces[i];
            let piece_end: usize = cursor + piece.len;
            if piece_end > offset {
                let skipped: usize = if offset > cursor {
                    offset - cursor
                } else {
                    0
                };
                let kept = Piece {
                    source: piece.source,
                    start: piece.start + skipped,
                    len: piece.len - skipped,
                };
                proof {
                    lemma_content_push(original, add, pieces@, kept);
                    let whole = text.subrange(cursor as int, piece_end as int);
                    assert(piece_content(original, add, kept) =~= whole.skip(skipped as int));
                    assert(text.subrange(offset as int, piece_end as int) =~= content(
                        original,
                        add,
                        pieces@,
                    ) + whole.skip(skipped as int));
                }
                pieces.push(kept);
            }
            cursor = piece_end;
            i += 1;
        }
        proof {
            lemma_piece_ends(original, add, self.pieces@);
            assert(content(original, add, pieces@) =~= text.skip(offset as int));
        }
        pieces
    }

    fn ensure_range(&self, range: &Range<usize>) -> (result: Result<()>)
        requires
            self.wf(),
        ensures
            fails_as(result, range_error(self@, range.start as int, range.end as int)),
    {
        let len: usize = self.len();
        if range.start > range.end || range.end > len {
            return Err(BlitzError::InvalidRange { start: range.start, end: range.end, len });
        }
        self.ensure_char_boundary(range.start)?;
        self.ensure_char_boundary(range.end)
    }

    fn ensure_char_boundary(&self, byte_offset: usize) -> (result: Result<()>)
        requires
            self.wf(),
        ensures
            fails_as(result, offset_error(self@, byte_offset as int)),
    {
        let len: usize = self.len();
        if byte_offset > len {
            return Err(BlitzError::InvalidRange { start: byte_offset, end: byte_offset, len });
        }
        let bytes = self.collect_bytes();
        match decode_str(bytes.as_slice()) {
            Err(detail) => {
                let mut message = owned("document is not valid UTF-8: ");
                message.append(detail.as_str());
                Err(BlitzError::Encoding(message))
            },
            Ok(text) => {
                proof {
                    decode_utf8_encode_utf8(bytes@);
                    lemma_boundary(bytes@, byte_offset as int);
                }
                if text.is_char_boundary(byte_offset) {
                    Ok(())
                } else {
                    Err(BlitzError::InvalidCharBoundary { offset: byte_offset })
                }
            },
        }
    }
}

impl Default for PieceTable {
    fn default() -> (table: Self)
        ensures
            table.wf(),
            table@ == Seq::<u8>::empty(),
    {
        PieceTable::new()
    }
}

fn single_piece(start: usize, len: usize) -> (pieces: Vec<Piece>)
    ensures
        pieces@ == one_piece(start, len),
{
    let mut pieces: Vec<Piece> = Vec::new();
    if len > 0 {
        pieces.push(Piece { source: BufferKind::Original, start, len });
    }
    pieces
}

spec fn one_piece(start: usize, len: usize) -> Seq<Piece> {
    if len == 0 {
        Seq::empty()
    } else {
        Seq::empty().push(Piece { source: BufferKind::Original, start, len })
    }
}

proof fn lemma_single_piece(original: Seq<u8>, add: Seq<u8>, start: usize, len: usize)
    requires
        start + len <= original.len(),
    ensures
        pieces_ok(original, add, one_piece(start, len)),
        content(original, add, one_piece(start, len)) == original.subrange(
            start as int,
            start + len,
        ),
{
    if len == 0 {
        assert(original.subrange(start as int, start + len) =~= Seq::<u8>::empty());
    } else {
        let piece = Piece { source: BufferKind::Original, start, len };
        lemma_content_push(original, add, Seq::empty(), piece);
        assert(content(original, add, one_piece(start, len)) =~= original.subrange(
            start as int,
            start + len,
        ));
    }
}

/// Appends `bytes`, cut into chunks.
fn push_split_chunks<'a>(chunks: &mut Vec<&'a [u8]>, bytes: &'a [u8])
    ensures
        chunk_views(final(chunks)@) == chunk_views(old(chunks)@) + split_chunks(bytes@),
{
    let mut start: usize = 0;
    let ghost before = chunk_views(chunks@);
    let len: usize = bytes.len();
    assert(bytes@.skip(0) =~= bytes@);
    while len - start > STREAM_CHUNK_BYTES
        invariant
            start <= len == bytes@.len(),
            chunk_views(chunks@) + split_chunks(bytes@.skip(start as int)) == before + split_chunks(
                bytes@,
            ),
        decreases len - start,
    {
        let part = slice_subrange(bytes, start, start + STREAM_CHUNK_BYTES);
        let ghost held = chunks@;
        let ghost rest = bytes@.skip(start as int);
        chunks.push(part);
        start += STREAM_CHUNK_BYTES;
        proof {
            assert(part@ =~= rest.take(STREAM_CHUNK_BYTES as int));
            assert(rest.skip(STREAM_CHUNK_BYTES as int) =~= bytes@.skip(start as int));
            assert(chunk_views(chunks@) =~= chunk_views(held).push(part@));
            assert(chunk_views(chunks@) + split_chunks(bytes@.skip(start as int)) =~= chunk_views(
                held,
            ) + split_chunks(rest));
        }
    }
    let ghost held = chunks@;
    let ghost rest = bytes@.skip(start as int);
    if start < len {
        let part = slice_subrange(bytes, start, len);
        chunks.push(part);
        proof {
            assert(part@ =~= rest);
            assert(chunk_views(chunks@) =~= chunk_views(held) + split_chunks(rest));
        }
    } else {
        assert(chunk_views(chunks@) =~= chunk_views(held) + split_chunks(rest));
    }
}

/// The same text in fewer pieces: neighbours that continue one another are
/// joined.
fn merged(pieces: &Vec<Piece>, original: Ghost<Seq<u8>>, add: Ghost<Seq<u8>>) -> (joined: Vec<
    Piece,
>)
    requires
        pieces_ok(original@, add@, pieces@),
        original@.len() <= usize::MAX,
        add@.len() <= usize::MAX,
    ensures
        pieces_ok(original@, add@, joined@),
        content(original@, add@, joined@) == content(original@, add@, pieces@),
{
    let mut joined: Vec<Piece> = Vec::new();
    let mut i: usize = 0;
    assert(pieces@.take(0) =~= Seq::<Piece>::empty());
    while i < pieces.len()
        invariant
            i <= pieces@.len(),
            original@.len() <= usize::MAX,
            add@.len() <= usize::MAX,
            pieces_ok(original@, add@, pieces@),
            pieces_ok(original@, add@, joined@),
            content(original@, add@, joined@) == content(original@, add@, pieces@.take(i as int)),
        decreases pieces@.len() - i,
    {
        let piece = pieces[i];
        let count: usize = joined.len();
        proof {
            assert(piece_ok(original@, add@, pieces@[i as int]));
            assert(pieces@.take(i + 1) =~= pieces@.take(i as int).push(piece));
            lemma_content_push(original@, add@, pieces@.take(i as int), piece);
            if count > 0 {
                assert(piece_ok(original@, add@, joined@[count - 1]));
            }
        }
        if count > 0 && joined[count - 1].source == piece.source && joined[count - 1].start
            + joined[count - 1].len == piece.start {
            let previous = joined[count - 1];
            let ghost held = joined@;
            let whole = Piece {
                source: previous.source,
                start: previous.start,
                len: previous.len + piece.len,
            };
            joined.set(count - 1, whole);
            proof {
                assert(joined@ =~= held.drop_last().push(whole));
                assert(held =~= held.drop_last().push(previous));
                lemma_content_push(original@, add@, held.drop_last(), whole);
                lemma_content_push(original@, add@, held.drop_last(), previous);
                assert(piece_content(original@, add@, whole) =~= piece_content(
                    original@,
                    add@,
                    previous,
                ) + piece_content(original@, add@, piece));
                assert(content(original@, add@, joined@) =~= content(original@, add@, held)
                    + piece_content(original@, add@, piece));
            }
        } else {
            proof {
                lemma_content_push(original@, add@, joined@, piece);
            }
            joined.push(piece);
        }
        i += 1;
    }
    assert(pieces@.take(i as int) =~= pieces@);
    joined
}

/// After a range that can be edited is cut out, text can be put in its place.
proof fn lemma_cut_is_editable(bytes: Seq<u8>, start: int, end: int)
    requires
        range_error(bytes, start, end) is None,
        0 <= start,
    ensures
        offset_error(spliced(bytes, start, end, Seq::empty()), start) is None,
{
    lemma_boundary(bytes, start);
    lemma_boundary(bytes, end);
    valid_utf8_split(bytes, start);
    valid_utf8_split(bytes, end);
    let left = bytes.subrange(0, start);
    let right = bytes.subrange(end, bytes.len() as int);
    valid_utf8_concat(left, right);
    assert(spliced(bytes, start, end, Seq::empty()) =~= left + right);
    if end < bytes.len() {
        assert((left + right)[start] == bytes[end]);
    }
}

} // verus!

//! A document: its text, its line index, its file, and its undo history.

use crate::encoding::{
    ansi_keeps, body_of, decode_error, decode_to_utf8, decoded_text, detect_encoding,
    detected_encoding, encode_error, encode_from_utf8, encoded_bytes, utf8_bom, TextEncoding,
    ANSI_LIMIT,
};
use crate::error::{fails_as, BlitzError, ErrorModel, Result};
use crate::line_index::{
    detect_line_ending, detected_ending, ending_bytes, ending_chars, full_index,
    index_well_formed, law_chunk_extends_prefix_index, law_extend_reads_on, lemma_line_at,
    lemma_line_breaks_bounds, line_at, line_end, min, normalize_line_endings, normalized_chars,
    prefix_index, safe_prefix, IndexState, LineEnding, LineIndex, CR, LF,
};
use crate::piece_table::{
    bounds_error, chunk_views, joined, range_error, spliced, PieceTable, SourceBytes,
};
use crate::reindex::{
    behind_newlines, index_after_replace, lemma_breaks_behind_newlines,
    lemma_starts_stay_behind_newlines, update_index,
};
use crate::save_laws::{law_bytes_and_text_normalise_alike, law_saved_file_reopens};
use crate::sorting::{order_by_key, stable_order};
use crate::undo_laws::lemma_subrange_is_text;
use crate::text::{
    char_width, decode_str, lemma_encode_concat, lemma_encode_one, on_boundary, owned, same_bytes,
    shown_text, text_of, utf8_error_text,
};
use std::ops::Range;
use vstd::prelude::*;
use vstd::slice::slice_subrange;
use vstd::utf8::*;

verus! {

/// Files of at least this many bytes are mapped instead of read.
pub const MMAP_THRESHOLD_BYTES: u64 = 52_428_800;

/// How many edits can be undone.
pub const UNDO_LIMIT: usize = 100;

pub const TAB_WIDTH: usize = 8;

/// The most bytes of a line that are shown.
pub const MAX_VISIBLE_LINE_BYTES: usize = 16_384;

/// Lines are searched for a column only this far.
pub const MAX_COLUMN_SCAN_BYTES: usize = 65_536;

/// How much of a mapped file is indexed at a time.
pub const INITIAL_MMAP_LINE_INDEX_BYTES: usize = 8_388_608;

#[derive(Clone, Copy, Debug, Eq, PartialEq, Structural)]
pub enum LoadMode {
    Heap,
    MemoryMapped,
}

#[derive(Clone, Copy, Debug, Eq, PartialEq, Structural)]
pub struct CaretPosition {
    pub line: usize,
    pub column: usize,
}

#[derive(Debug, Eq, PartialEq)]
pub struct VisibleLine {
    pub number: usize,
    pub byte_range: Range<usize>,
    pub text: String,
}

/// Where a document is kept: the bytes of its path, and the name shown for it.
#[derive(Debug, Eq, PartialEq)]
pub struct DocumentPath {
    pub location: Vec<u8>,
    pub file_name: Option<String>,
}

/// The replacement of a range of the text.
#[derive(Debug, Eq, PartialEq)]
pub struct TextEdit {
    pub range: Range<usize>,
    pub replacement: String,
}

#[derive(Debug)]
struct UndoSnapshot {
    inverse_edits: Vec<TextEdit>,
    change_generation: u64,
}

/// A file as it was read or mapped.
#[derive(Debug)]
pub struct LoadedSource {
    pub source: SourceBytes,
    pub mode: LoadMode,
    pub original_file_len: u64,
}

// ---------------------------------------------------------------------------
// Model
// ---------------------------------------------------------------------------

pub struct PathModel {
    pub location: Seq<u8>,
    pub file_name: Option<Seq<char>>,
}

pub struct EditModel {
    pub start: int,
    pub end: int,
    pub replacement: Seq<char>,
}

pub struct UndoModel {
    pub edits: Seq<EditModel>,
    pub generation: u64,
}

/// A document as a mathematical value. `awaiting_index` holds while a line
/// index that is being built elsewhere may still replace the present one.
pub struct DocumentModel {
    pub bytes: Seq<u8>,
    pub index: IndexState,
    pub awaiting_index: bool,
    pub path: Option<PathModel>,
    pub encoding: TextEncoding,
    pub line_ending: LineEnding,
    pub dirty: bool,
    pub load_mode: LoadMode,
    pub original_file_len: u64,
    pub generation: u64,
    pub saved_generation: Option<u64>,
    pub undo: Seq<UndoModel>,
}

pub open spec fn opt_text(text: Option<String>) -> Option<Seq<char>> {
    match text {
        Some(text) => Some(text@),
        None => None,
    }
}

impl Clone for VisibleLine {
    fn clone(&self) -> (copy: Self)
        ensures
            copy == *self,
    {
        VisibleLine {
            number: self.number,
            byte_range: self.byte_range.start..self.byte_range.end,
            text: self.text.clone(),
        }
    }
}

impl Clone for DocumentPath {
    fn clone(&self) -> (copy: Self)
        ensures
            copy@ == self@,
    {
        let location = self.location.clone();
        assert(location@ =~= self.location@);
        DocumentPath {
            location,
            file_name: match &self.file_name {
                Some(name) => Some(name.clone()),
                None => None,
            },
        }
    }
}

impl Clone for TextEdit {
    fn clone(&self) -> (copy: Self)
        ensures
            copy == *self,
    {
        TextEdit {
            range: self.range.start..self.range.end,
            replacement: self.replacement.clone(),
        }
    }
}

impl View for DocumentPath {
    type V = PathModel;

    open spec fn view(&self) -> PathModel {
        PathModel { location: self.location@, file_name: opt_text(self.file_name) }
    }
}

impl View for TextEdit {
    type V = EditModel;

    open spec fn view(&self) -> EditModel {
        EditModel {
            start: self.range.start as int,
            end: self.range.end as int,
            replacement: self.replacement@,
        }
    }
}

pub open spec fn edits_model(edits: Seq<TextEdit>) -> Seq<EditModel> {
    Seq::new(edits.len(), |i: int| edits[i]@)
}

spec fn undo_model(stack: Seq<UndoSnapshot>) -> Seq<UndoModel> {
    Seq::new(
        stack.len(),
        |i: int|
            UndoModel {
                edits: edits_model(stack[i].inverse_edits@),
                generation: stack[i].change_generation,
            },
    )
}

/// What holds of every document: its line starts are in order and stand behind
/// newlines of the text; an index that is not complete is exact as far as it goes;
/// and the document counts as changed unless it was saved at its present
/// generation.
pub open spec fn document_valid(m: DocumentModel) -> bool {
    &&& index_well_formed(m.index)
    &&& m.index.indexed_len <= m.bytes.len()
    &&& m.index.complete ==> m.index.indexed_len == m.bytes.len()
    &&& !m.index.complete ==> m.index == prefix_index(m.bytes, m.index.indexed_len)
    &&& behind_newlines(m.index.starts, m.bytes)
    &&& m.dirty == (m.saved_generation != Some(m.generation))
    &&& m.undo.len() <= UNDO_LIMIT
}

// ---------------------------------------------------------------------------
// Model: errors
// ---------------------------------------------------------------------------

/// Why an offset is none of the document's, if it is not.
pub open spec fn boundary_error(bytes: Seq<u8>, offset: int) -> Option<ErrorModel> {
    if offset > bytes.len() {
        Some(ErrorModel::InvalidRange { start: offset, end: offset, len: bytes.len() as int })
    } else if !on_boundary(bytes, offset) {
        Some(ErrorModel::InvalidCharBoundary { offset })
    } else {
        None
    }
}

pub open spec fn edit_range_error(bytes: Seq<u8>, start: int, end: int) -> Option<ErrorModel> {
    if bounds_error(bytes.len() as int, start, end) is Some {
        bounds_error(bytes.len() as int, start, end)
    } else if boundary_error(bytes, start) is Some {
        boundary_error(bytes, start)
    } else {
        boundary_error(bytes, end)
    }
}

/// Why a range cannot be read as text, if it cannot.
pub open spec fn text_range_error(bytes: Seq<u8>, start: int, end: int) -> Option<ErrorModel> {
    if bounds_error(bytes.len() as int, start, end) is Some {
        bounds_error(bytes.len() as int, start, end)
    } else if !valid_utf8(bytes.subrange(start, end)) {
        Some(
            ErrorModel::Encoding(
                "document is not valid UTF-8: "@ + utf8_error_text(bytes.subrange(start, end)),
            ),
        )
    } else {
        None
    }
}

// ---------------------------------------------------------------------------
// Model: the line index
// ---------------------------------------------------------------------------

/// How far an index of the first `indexed` bytes is extended, step by step, to
/// cover `offset`.
pub open spec fn covering_len(bytes: Seq<u8>, indexed: int, offset: int) -> int
    decreases bytes.len() - indexed,
{
    if offset <= indexed || indexed >= bytes.len() {
        indexed
    } else {
        covering_len(
            bytes,
            safe_prefix(
                bytes,
                min(indexed + INITIAL_MMAP_LINE_INDEX_BYTES, bytes.len() as int),
            ),
            offset,
        )
    }
}

/// The index, extended as far as `offset` needs.
pub open spec fn covering_index(bytes: Seq<u8>, index: IndexState, offset: int) -> IndexState {
    if index.complete || offset <= index.indexed_len {
        index
    } else {
        prefix_index(bytes, covering_len(bytes, index.indexed_len, offset))
    }
}

// ---------------------------------------------------------------------------
// Model: edits
// ---------------------------------------------------------------------------

/// The replacement of a range, without undo history: the new document and the
/// error, if any.
pub open spec fn replace_step(
    m: DocumentModel,
    start: int,
    end: int,
    text: Seq<char>,
) -> (DocumentModel, Option<ErrorModel>) {
    let covered = DocumentModel {
        index: covering_index(m.bytes, m.index, end),
        awaiting_index: false,
        ..m
    };
    match range_error(m.bytes, start, end) {
        Some(error) => (covered, Some(error)),
        None => (
            DocumentModel {
                bytes: spliced(m.bytes, start, end, encode_utf8(text)),
                index: index_after_replace(covered.index, m.bytes, start, end, encode_utf8(text)),
                ..covered
            },
            None,
        ),
    }
}

/// Replacements one after the other, up to the first that fails.
pub open spec fn apply_all(m: DocumentModel, edits: Seq<EditModel>) -> (
    DocumentModel,
    Option<ErrorModel>,
)
    decreases edits.len(),
{
    if edits.len() == 0 {
        (m, None)
    } else {
        let step = replace_step(m, edits[0].start, edits[0].end, edits[0].replacement);
        if step.1 is Some {
            step
        } else {
            apply_all(step.0, edits.drop_first())
        }
    }
}

pub open spec fn next_generation(generation: u64) -> u64 {
    if generation == u64::MAX {
        generation
    } else {
        (generation + 1) as u64
    }
}

/// A document after an edit that `inverse` undoes. Only the last edits stay
/// undoable.
pub open spec fn committed(
    m: DocumentModel,
    inverse: Seq<EditModel>,
    previous_generation: u64,
) -> DocumentModel {
    let stack = m.undo.push(UndoModel { edits: inverse, generation: previous_generation });
    let generation = next_generation(m.generation);
    DocumentModel {
        undo: if stack.len() > UNDO_LIMIT {
            stack.drop_first()
        } else {
            stack
        },
        generation,
        dirty: m.saved_generation != Some(generation),
        ..m
    }
}

/// The replacement of a range by the user.
pub open spec fn edited(m: DocumentModel, start: int, end: int, text: Seq<char>) -> (
    DocumentModel,
    Option<ErrorModel>,
) {
    let step = replace_step(m, start, end, text);
    if edit_range_error(m.bytes, start, end) is Some {
        (m, edit_range_error(m.bytes, start, end))
    } else if start == end && text.len() == 0 {
        (m, None)
    } else if text_range_error(m.bytes, start, end) is Some {
        (m, text_range_error(m.bytes, start, end))
    } else if step.1 is Some {
        step
    } else {
        (
            committed(
                step.0,
                seq![
                    EditModel {
                        start,
                        end: start + encode_utf8(text).len(),
                        replacement: decode_utf8(m.bytes.subrange(start, end)),
                    },
                ],
                m.generation,
            ),
            None,
        )
    }
}

pub open spec fn edit_starts(edits: Seq<EditModel>) -> Seq<usize> {
    Seq::new(edits.len(), |i: int| edits[i].start as usize)
}

pub open spec fn edit_starts_mirrored(edits: Seq<EditModel>) -> Seq<usize> {
    Seq::new(edits.len(), |i: int| (usize::MAX - edits[i].start) as usize)
}

/// Edits from the front of the text to its end; those at one place keep their
/// order.
pub open spec fn ascending(edits: Seq<EditModel>) -> Seq<EditModel> {
    Seq::new(edits.len(), |i: int| edits[stable_order(edit_starts(edits))[i]])
}

/// Edits from the end of the text to its front; those at one place keep their
/// order.
pub open spec fn descending(edits: Seq<EditModel>) -> Seq<EditModel> {
    Seq::new(edits.len(), |i: int| edits[stable_order(edit_starts_mirrored(edits))[i]])
}

/// The first error among the edits from number `i` on.
pub open spec fn first_edit_error(bytes: Seq<u8>, edits: Seq<EditModel>, i: int) -> Option<
    ErrorModel,
>
    decreases edits.len() - i,
{
    if i >= edits.len() {
        None
    } else if edit_range_error(bytes, edits[i].start, edits[i].end) is Some {
        edit_range_error(bytes, edits[i].start, edits[i].end)
    } else if text_range_error(bytes, edits[i].start, edits[i].end) is Some {
        text_range_error(bytes, edits[i].start, edits[i].end)
    } else {
        first_edit_error(bytes, edits, i + 1)
    }
}

/// The first overlap among sorted edits, from number `i` on.
pub open spec fn first_overlap(sorted: Seq<EditModel>, len: int, i: int) -> Option<ErrorModel>
    decreases sorted.len() - i,
{
    if i >= sorted.len() || i < 1 {
        None
    } else if sorted[i - 1].end > sorted[i].start {
        Some(
            ErrorModel::InvalidRange { start: sorted[i].start, end: sorted[i - 1].end, len },
        )
    } else {
        first_overlap(sorted, len, i + 1)
    }
}

/// The edits that take back `edits`, which were applied to `bytes` one after the
/// other: each in terms of the text right after the edit that it takes back.
pub open spec fn inverse_of(bytes: Seq<u8>, edits: Seq<EditModel>) -> Seq<EditModel>
    decreases edits.len(),
{
    if edits.len() == 0 {
        Seq::empty()
    } else {
        let edit = edits[0];
        let added = encode_utf8(edit.replacement);
        seq![
            EditModel {
                start: edit.start,
                end: edit.start + added.len(),
                replacement: decode_utf8(bytes.subrange(edit.start, edit.end)),
            },
        ] + inverse_of(spliced(bytes, edit.start, edit.end, added), edits.drop_first())
    }
}

/// Several replacements as one edit.
pub open spec fn edited_all(m: DocumentModel, edits: Seq<EditModel>) -> (
    DocumentModel,
    Option<ErrorModel>,
) {
    let applied = apply_all(m, descending(edits));
    if edits.len() == 0 {
        (m, None)
    } else if first_edit_error(m.bytes, edits, 0) is Some {
        (m, first_edit_error(m.bytes, edits, 0))
    } else if first_overlap(ascending(edits), m.bytes.len() as int, 1) is Some {
        (m, first_overlap(ascending(edits), m.bytes.len() as int, 1))
    } else if applied.1 is Some {
        applied
    } else {
        (committed(applied.0, inverse_of(m.bytes, descending(edits)), m.generation), None)
    }
}

/// A document after its last edit is taken back: what was applied last is taken
/// back first.
pub open spec fn undone(m: DocumentModel) -> (DocumentModel, Option<ErrorModel>) {
    if m.undo.len() == 0 {
        (m, None)
    } else {
        let last = m.undo.last();
        let applied = apply_all(
            DocumentModel { undo: m.undo.drop_last(), ..m },
            last.edits.reverse(),
        );
        if applied.1 is Some {
            applied
        } else {
            (
                DocumentModel {
                    generation: last.generation,
                    dirty: m.saved_generation != Some(last.generation),
                    ..applied.0
                },
                None,
            )
        }
    }
}

// ---------------------------------------------------------------------------
// The document
// ---------------------------------------------------------------------------

/// A document. `pending` is where its text begins in the source bytes, as long
/// as a line index of those bytes is awaited.
#[derive(Debug)]
pub struct Document {
    path: Option<DocumentPath>,
    buffer: PieceTable,
    line_index: LineIndex,
    pending: Option<usize>,
    encoding: TextEncoding,
    line_ending: LineEnding,
    dirty: bool,
    load_mode: LoadMode,
    original_file_len: u64,
    change_generation: u64,
    saved_generation: Option<u64>,
    undo_stack: Vec<UndoSnapshot>,
}

impl View for Document {
    type V = DocumentModel;

    closed spec fn view(&self) -> DocumentModel {
        DocumentModel {
            bytes: self.buffer@,
            index: self.line_index@,
            awaiting_index: self.pending is Some,
            path: match self.path {
                Some(path) => Some(path@),
                None => None,
            },
            encoding: self.encoding,
            line_ending: self.line_ending,
            dirty: self.dirty,
            load_mode: self.load_mode,
            original_file_len: self.original_file_len,
            generation: self.change_generation,
            saved_generation: self.saved_generation,
            undo: undo_model(self.undo_stack@),
        }
    }
}


impl Document {
    pub closed spec fn wf(&self) -> bool {
        &&& self.buffer.wf()
        &&& document_valid(self@)
        &&& self.pending matches Some(start) ==> {
            &&& start + self.buffer@.len() <= self.buffer.source()@.len()
            &&& self.buffer@ == self.buffer.source()@.subrange(
                start as int,
                start + self.buffer@.len(),
            )
        }
    }

    /// What a document keeps of itself.
    pub proof fn lemma_valid(&self)
        requires
            self.wf(),
        ensures
            document_valid(self@),
    {
    }

    /// The text as the chunks that it is streamed in.
    pub closed spec fn chunk_seq(&self) -> Seq<Seq<u8>> {
        self.buffer.chunk_seq()
    }

    // -- reading ----------------------------------------------------------

    pub fn len(&self) -> (len: usize)
        requires
            self.wf(),
        ensures
            len == self@.bytes.len(),
            len < usize::MAX,
    {
        self.buffer.len()
    }

    fn ensure_char_boundary(&self, offset: usize) -> (result: Result<()>)
        requires
            self.wf(),
        ensures
            fails_as(result, boundary_error(self@.bytes, offset as int)),
    {
        let len: usize = self.len();
        if offset > len {
            return Err(BlitzError::InvalidRange { start: offset, end: offset, len });
        }
        if offset == len {
            return Ok(());
        }
        match self.buffer.byte_at(offset)? {
            Some(byte) => if is_utf8_continuation(byte) {
                Err(BlitzError::InvalidCharBoundary { offset })
            } else {
                Ok(())
            },
            None => Ok(()),
        }
    }

    fn ensure_range(&self, range: &Range<usize>) -> (result: Result<()>)
        requires
            self.wf(),
        ensures
            fails_as(result, edit_range_error(self@.bytes, range.start as int, range.end as int)),
    {
        let len: usize = self.len();
        if range.start > range.end || range.end > len {
            return Err(BlitzError::InvalidRange { start: range.start, end: range.end, len });
        }
        self.ensure_char_boundary(range.start)?;
        self.ensure_char_boundary(range.end)
    }

    fn validated_text_range(&self, range: Range<usize>) -> (text: Result<String>)
        requires
            self.wf(),
        ensures
            fails_as(text, text_range_error(self@.bytes, range.start as int, range.end as int)),
            text matches Ok(text) ==> text@ == decode_utf8(
                self@.bytes.subrange(range.start as int, range.end as int),
            ),
    {
        let bytes = self.buffer.bytes_range(range)?;
        match decode_str(bytes.as_slice()) {
            Ok(text) => Ok(owned(text)),
            Err(detail) => {
                let mut message = owned("document is not valid UTF-8: ");
                message.append(detail.as_str());
                Err(BlitzError::Encoding(message))
            },
        }
    }

    // -- the line index -----------------------------------------------------

    /// Extends a partial index until it covers `byte_offset`.
    pub fn ensure_line_index_covers_offset(&mut self, byte_offset: usize)
        requires
            old(self).wf(),
        ensures
            final(self).wf(),
            final(self)@ == (DocumentModel {
                index: covering_index(old(self)@.bytes, old(self)@.index, byte_offset as int),
                ..old(self)@
            }),
    {
        let len: usize = self.buffer.len();
        let ghost bytes = self.buffer@;
        let ghost before = *self;
        if self.line_index.is_complete() || byte_offset <= self.line_index.indexed_len() {
            return ;
        }
        while self.line_index.indexed_len() < len && self.line_index.indexed_len() < byte_offset
            invariant
                self.buffer.wf(),
                self.buffer@ == bytes,
                len == bytes.len(),
                self.line_index.wf(),
                self.line_index@.indexed_len <= len,
                self.line_index@ == prefix_index(bytes, self.line_index@.indexed_len),
                before.wf(),
                *self == (Document { line_index: self.line_index, ..before }),
                covering_len(bytes, before@.index.indexed_len, byte_offset as int) == covering_len(
                    bytes,
                    self.line_index@.indexed_len,
                    byte_offset as int,
                ),
            decreases len - self.line_index@.indexed_len,
        {
            let indexed: usize = self.line_index.indexed_len();
            let next: usize = if len - indexed < INITIAL_MMAP_LINE_INDEX_BYTES {
                len
            } else {
                indexed + INITIAL_MMAP_LINE_INDEX_BYTES
            };
            match self.buffer.bytes_range(indexed..next) {
                Ok(chunk) => {
                    proof {
                        law_chunk_extends_prefix_index(bytes, indexed as int, next as int);
                    }
                    self.line_index.extend_from_chunk(chunk.as_slice(), len);
                },
                Err(_) => {},
            }
        }
        proof {
            lemma_prefix_index_well_formed(bytes, self.line_index@.indexed_len);
        }
    }

    // -- edits --------------------------------------------------------------

    fn replace_range_without_undo(&mut self, range: Range<usize>, text: &str) -> (result: Result<()>)
        requires
            old(self).wf(),
        ensures
            final(self).wf(),
            ({
                let step = replace_step(
                    old(self)@,
                    range.start as int,
                    range.end as int,
                    text@,
                );
                &&& final(self)@ == step.0
                &&& fails_as(result, step.1)
            }),
    {
        let start: usize = range.start;
        let end: usize = range.end;
        self.ensure_line_index_covers_offset(end);
        self.pending = None;
        let previous = self.buffer.clone();
        let ghost covered = self@;
        match self.buffer.replace_range(start..end, text) {
            Err(error) => {
                return Err(error);
            },
            Ok(_) => {},
        }
        let new_len: usize = self.buffer.len();
        let updated = update_index(&self.line_index, &previous, start..end, text, new_len);
        proof {
            lemma_starts_stay_behind_newlines(
                covered.index.starts,
                covered.bytes,
                start as int,
                end as int,
                encode_utf8(text@),
            );
        }
        self.line_index = updated;
        Ok(())
    }

    fn sync_dirty_flag(&mut self)
        ensures
            final(self)@ == (DocumentModel {
                dirty: old(self)@.saved_generation != Some(old(self)@.generation),
                ..old(self)@
            }),
            *final(self) == (Document { dirty: final(self)@.dirty, ..*old(self) }),
    {
        self.dirty = match self.saved_generation {
            Some(saved) => saved != self.change_generation,
            None => true,
        };
    }

    fn commit_successful_edit(&mut self, inverse_edits: Vec<TextEdit>, previous_generation: u64)
        requires
            old(self).wf(),
        ensures
            final(self).wf(),
            final(self)@ == committed(
                old(self)@,
                edits_model(inverse_edits@),
                previous_generation,
            ),
    {
        let ghost before = self@;
        let ghost stack = self.undo_stack@;
        let ghost entry = UndoModel {
            edits: edits_model(inverse_edits@),
            generation: previous_generation,
        };
        self.undo_stack.push(
            UndoSnapshot { inverse_edits, change_generation: previous_generation },
        );
        assert(undo_model(self.undo_stack@) =~= undo_model(stack).push(entry));
        if self.undo_stack.len() > UNDO_LIMIT {
            let ghost full = self.undo_stack@;
            let _ = self.undo_stack.remove(0);
            assert(undo_model(self.undo_stack@) =~= undo_model(full).drop_first());
        }
        self.change_generation = self.change_generation.saturating_add(1);
        self.sync_dirty_flag();
    }

    /// Inserts `text` at `byte_offset`.
    pub fn insert_text(&mut self, byte_offset: usize, text: &str) -> (result: Result<()>)
        requires
            old(self).wf(),
        ensures
            final(self).wf(),
            ({
                let outcome = edited(old(self)@, byte_offset as int, byte_offset as int, text@);
                &&& final(self)@ == outcome.0
                &&& fails_as(result, outcome.1)
            }),
    {
        let ghost before = self@;
        self.ensure_char_boundary(byte_offset)?;
        if text.is_empty() {
            return Ok(());
        }
        proof {
            assert(before.bytes.subrange(byte_offset as int, byte_offset as int) =~= Seq::<
                u8,
            >::empty());
            assert(decode_utf8(Seq::<u8>::empty()) =~= Seq::<char>::empty());
        }
        let previous_generation: u64 = self.change_generation;
        self.replace_range_without_undo(byte_offset..byte_offset, text)?;
        let end: usize = self.end_after(byte_offset, text);
        let mut inverse: Vec<TextEdit> = Vec::new();
        inverse.push(TextEdit { range: byte_offset..end, replacement: String::new() });
        assert(edits_model(inverse@) =~= seq![
            EditModel {
                start: byte_offset as int,
                end: end as int,
                replacement: decode_utf8(
                    before.bytes.subrange(byte_offset as int, byte_offset as int),
                ),
            },
        ]);
        self.commit_successful_edit(inverse, previous_generation);
        Ok(())
    }

    /// Where `text` ends, once it stands at `start`.
    fn end_after(&self, start: usize, text: &str) -> (end: usize)
        requires
            self.wf(),
            start + encode_utf8(text@).len() <= self@.bytes.len(),
        ensures
            end == start + encode_utf8(text@).len(),
    {
        let len: usize = self.len();
        start + text.as_bytes().len()
    }

    /// Removes the bytes of `range`.
    pub fn delete_range(&mut self, range: Range<usize>) -> (result: Result<()>)
        requires
            old(self).wf(),
        ensures
            final(self).wf(),
            ({
                let outcome = edited(
                    old(self)@,
                    range.start as int,
                    range.end as int,
                    Seq::empty(),
                );
                &&& final(self)@ == outcome.0
                &&& fails_as(result, outcome.1)
            }),
    {
        proof {
            reveal_strlit("");
            assert(""@ =~= Seq::<char>::empty());
        }
        self.replace_range(range, "")
    }

    /// Replaces the bytes of `range` by `text`.
    pub fn replace_range(&mut self, range: Range<usize>, text: &str) -> (result: Result<()>)
        requires
            old(self).wf(),
        ensures
            final(self).wf(),
            ({
                let outcome = edited(old(self)@, range.start as int, range.end as int, text@);
                &&& final(self)@ == outcome.0
                &&& fails_as(result, outcome.1)
            }),
    {
        let ghost before = self@;
        let start: usize = range.start;
        let end: usize = range.end;
        self.ensure_range(&range)?;
        if start == end && text.is_empty() {
            return Ok(());
        }
        let replacement = self.validated_text_range(start..end)?;
        let previous_generation: u64 = self.change_generation;
        self.replace_range_without_undo(start..end, text)?;
        let new_end: usize = self.end_after(start, text);
        let mut inverse: Vec<TextEdit> = Vec::new();
        inverse.push(TextEdit { range: start..new_end, replacement });
        assert(edits_model(inverse@) =~= seq![
            EditModel {
                start: start as int,
                end: start + encode_utf8(text@).len(),
                replacement: decode_utf8(before.bytes.subrange(start as int, end as int)),
            },
        ]);
        self.commit_successful_edit(inverse, previous_generation);
        Ok(())
    }

    /// Applies the edits at the positions of `order`, one after the other, and
    /// returns the edits that take them back.
    fn apply_in_order(&mut self, edits: &[TextEdit], order: &Vec<usize>) -> (inverse: Result<
        Vec<TextEdit>,
    >)
        requires
            old(self).wf(),
            forall|i: int| 0 <= i < order@.len() ==> (#[trigger] order@[i]) < edits@.len(),
        ensures
            final(self).wf(),
            ({
                let outcome = apply_all(old(self)@, edits_at(edits@, order@));
                &&& final(self)@ == outcome.0
                &&& fails_as(inverse, outcome.1)
            }),
            inverse matches Ok(inverse) ==> edits_model(inverse@) == inverse_of(
                old(self)@.bytes,
                edits_at(edits@, order@),
            ),
    {
        let ghost all = edits_at(edits@, order@);
        let ghost before = self@;
        let mut inverse: Vec<TextEdit> = Vec::new();
        let mut i: usize = 0;
        assert(all.skip(0) =~= all);
        assert(edits_model(inverse@) + inverse_of(before.bytes, all) =~= inverse_of(
            before.bytes,
            all,
        ));
        while i < order.len()
            invariant
                self.wf(),
                i <= order@.len(),
                all == edits_at(edits@, order@),
                forall|k: int| 0 <= k < order@.len() ==> (#[trigger] order@[k]) < edits@.len(),
                before == old(self)@,
                apply_all(before, all) == apply_all(self@, all.skip(i as int)),
                inverse_of(before.bytes, all) == edits_model(inverse@) + inverse_of(
                    self@.bytes,
                    all.skip(i as int),
                ),
            decreases order@.len() - i,
        {
            let edit = &edits[order[i]];
            let ghost rest = all.skip(i as int);
            let ghost bytes = self@.bytes;
            let ghost held = edits_model(inverse@);
            proof {
                assert(rest[0] == edit@);
                assert(rest.drop_first() =~= all.skip(i + 1));
            }
            let start: usize = edit.range.start;
            let removed = match self.text_range_lossy(start..edit.range.end) {
                Ok(removed) => removed,
                Err(_) => String::new(),
            };
            self.replace_range_without_undo(start..edit.range.end, edit.replacement.as_str())?;
            proof {
                lemma_subrange_is_text(bytes, start as int, edit.range.end as int);
            }
            let end: usize = self.end_after(start, edit.replacement.as_str());
            inverse.push(TextEdit { range: start..end, replacement: removed });
            i += 1;
            proof {
                assert(edits_model(inverse@) =~= held.push(inverse@.last()@));
                assert(inverse_of(before.bytes, all) =~= edits_model(inverse@) + inverse_of(
                    self@.bytes,
                    all.skip(i as int),
                ));
            }
        }
        proof {
            assert(all.skip(i as int).len() == 0);
            assert(edits_model(inverse@) + inverse_of(self@.bytes, all.skip(i as int))
                =~= edits_model(inverse@));
        }
        Ok(inverse)
    }

    /// Several replacements, given in any order, as one edit.
    pub fn apply_edits_from_end(&mut self, edits: &[TextEdit]) -> (result: Result<()>)
        requires
            old(self).wf(),
        ensures
            final(self).wf(),
            ({
                let outcome = edited_all(old(self)@, edits_model(edits@));
                &&& final(self)@ == outcome.0
                &&& fails_as(result, outcome.1)
            }),
    {
        let ghost model = edits_model(edits@);
        let ghost before = self@;
        if edits.len() == 0 {
            return Ok(());
        }
        let (starts, mirrored) = self.edit_infos(edits)?;
        let up = order_by_key(&starts);
        let down = order_by_key(&mirrored);
        let ghost sorted = ascending(model);
        proof {
            assert(edits_at(edits@, up@) =~= sorted);
            assert(edits_at(edits@, down@) =~= descending(model));
        }
        let len: usize = self.len();
        self.reject_overlapping_edits(edits, &up, len)?;
        let previous_generation: u64 = self.change_generation;
        let inverse = self.apply_in_order(edits, &down)?;
        self.commit_successful_edit(inverse, previous_generation);
        Ok(())
    }

    /// The places of the edits as keys to sort by, where each edit can be made.
    fn edit_infos(&self, edits: &[TextEdit]) -> (infos: Result<(Vec<usize>, Vec<usize>)>)
        requires
            self.wf(),
        ensures
            fails_as(infos, first_edit_error(self@.bytes, edits_model(edits@), 0)),
            infos matches Ok(infos) ==> {
                &&& infos.0@ == edit_starts(edits_model(edits@))
                &&& infos.1@ == edit_starts_mirrored(edits_model(edits@))
            },
    {
        let ghost model = edits_model(edits@);
        let ghost bytes = self@.bytes;
        let count: usize = edits.len();
        let mut starts: Vec<usize> = Vec::new();
        let mut mirrored: Vec<usize> = Vec::new();
        let mut k: usize = 0;
        while k < count
            invariant
                self.wf(),
                bytes == self@.bytes,
                model == edits_model(edits@),
                k <= count == edits@.len(),
                starts@ == edit_starts(model).take(k as int),
                mirrored@ == edit_starts_mirrored(model).take(k as int),
                first_edit_error(bytes, model, 0) == first_edit_error(bytes, model, k as int),
            decreases count - k,
        {
            let edit = &edits[k];
            assert(model[k as int] == edit@);
            self.ensure_range(&edit.range)?;
            let _ = self.validated_text_range(edit.range.start..edit.range.end)?;
            starts.push(edit.range.start);
            mirrored.push(usize::MAX - edit.range.start);
            k += 1;
            assert(starts@ =~= edit_starts(model).take(k as int));
            assert(mirrored@ =~= edit_starts_mirrored(model).take(k as int));
        }
        assert(starts@ =~= edit_starts(model));
        assert(mirrored@ =~= edit_starts_mirrored(model));
        Ok((starts, mirrored))
    }

    fn reject_overlapping_edits(
        &self,
        edits: &[TextEdit],
        order: &Vec<usize>,
        document_len: usize,
    ) -> (result: Result<()>)
        requires
            forall|i: int| 0 <= i < order@.len() ==> (#[trigger] order@[i]) < edits@.len(),
        ensures
            fails_as(
                result,
                first_overlap(edits_at(edits@, order@), document_len as int, 1),
            ),
    {
        let ghost sorted = edits_at(edits@, order@);
        let mut i: usize = 1;
        while i < order.len()
            invariant
                1 <= i,
                sorted == edits_at(edits@, order@),
                forall|k: int| 0 <= k < order@.len() ==> (#[trigger] order@[k]) < edits@.len(),
                first_overlap(sorted, document_len as int, 1) == first_overlap(
                    sorted,
                    document_len as int,
                    i as int,
                ),
            decreases order@.len() - i,
        {
            let previous = &edits[order[i - 1]];
            let next = &edits[order[i]];
            assert(sorted[i - 1] == previous@);
            assert(sorted[i as int] == next@);
            if previous.range.end > next.range.start {
                return Err(
                    BlitzError::InvalidRange {
                        start: next.range.start,
                        end: previous.range.end,
                        len: document_len,
                    },
                );
            }
            i += 1;
        }
        Ok(())
    }

    /// Takes back the last edit. The answer says whether there was one.
    pub fn undo(&mut self) -> (result: Result<bool>)
        requires
            old(self).wf(),
        ensures
            final(self).wf(),
            final(self)@ == undone(old(self)@).0,
            fails_as(result, undone(old(self)@).1),
            result matches Ok(was_any) ==> was_any == (old(self)@.undo.len() > 0),
    {
        let ghost before = self@;
        let ghost stack = self.undo_stack@;
        let snapshot = match self.undo_stack.pop() {
            Some(snapshot) => snapshot,
            None => {
                return Ok(false);
            },
        };
        proof {
            assert(undo_model(self.undo_stack@) =~= undo_model(stack).drop_last());
            assert(undo_model(stack).last().edits == edits_model(snapshot.inverse_edits@));
        }
        let ghost base = self@;
        let ghost model = edits_model(snapshot.inverse_edits@);
        let ghost turned = model.reverse();
        let edits = snapshot.inverse_edits.as_slice();
        let mut left: usize = edits.len();
        assert(turned.skip(0) =~= turned);
        while left > 0
            invariant
                self.wf(),
                model == edits_model(edits@),
                turned == model.reverse(),
                old(self)@.undo.len() > 0,
                old(self)@.undo.last().edits == model,
                base == (DocumentModel { undo: old(self)@.undo.drop_last(), ..old(self)@ }),
                left <= edits@.len(),
                apply_all(base, turned) == apply_all(self@, turned.skip(edits@.len() - left)),
            decreases left,
        {
            let edit = &edits[left - 1];
            let ghost rest = turned.skip(edits@.len() - left);
            proof {
                assert(rest[0] == edit@);
                assert(rest.drop_first() =~= turned.skip(edits@.len() - left + 1));
            }
            self.replace_range_without_undo(
                edit.range.start..edit.range.end,
                edit.replacement.as_str(),
            )?;
            left -= 1;
        }
        proof {
            assert(turned.skip(edits@.len() as int).len() == 0);
            lemma_apply_all_keeps(base, turned);
        }
        self.change_generation = snapshot.change_generation;
        self.sync_dirty_flag();
        Ok(true)
    }

    // -- what the document is -----------------------------------------------

    pub fn new_untitled() -> (document: Self)
        ensures
            document.wf(),
            document@ == untitled_document(),
    {
        let empty: Vec<u8> = Vec::new();
        let document = Document {
            path: None,
            buffer: PieceTable::new(),
            line_index: LineIndex::build(empty.as_slice()),
            pending: None,
            encoding: TextEncoding::Utf8,
            line_ending: LineEnding::CrLf,
            dirty: false,
            load_mode: LoadMode::Heap,
            original_file_len: 0,
            change_generation: 0,
            saved_generation: Some(0),
            undo_stack: Vec::new(),
        };
        assert(document@.undo =~= Seq::<UndoModel>::empty());
        document
    }

    /// A copy of the document that can be saved but not undone.
    pub fn snapshot_clone(&self) -> (copy: Self)
        requires
            self.wf(),
        ensures
            copy.wf(),
            copy@ == (DocumentModel { undo: Seq::empty(), ..self@ }),
    {
        let copy = Document {
            path: match &self.path {
                Some(path) => Some(path.clone()),
                None => None,
            },
            buffer: self.buffer.clone(),
            line_index: self.line_index.duplicate(),
            pending: self.pending,
            encoding: self.encoding,
            line_ending: self.line_ending,
            dirty: self.dirty,
            load_mode: self.load_mode,
            original_file_len: self.original_file_len,
            change_generation: self.change_generation,
            saved_generation: self.saved_generation,
            undo_stack: Vec::new(),
        };
        assert(copy@.undo =~= Seq::<UndoModel>::empty());
        copy
    }

    /// The name shown for the document.
    pub fn file_name(&self) -> (name: String)
        ensures
            name@ == shown_name(self@.path),
    {
        match &self.path {
            Some(path) => match &path.file_name {
                Some(name) => name.clone(),
                None => owned("Untitled"),
            },
            None => owned("Untitled"),
        }
    }

    pub fn path(&self) -> (path: Option<&DocumentPath>)
        ensures
            path is Some <==> self@.path is Some,
            path matches Some(path) ==> Some(path@) == self@.path,
    {
        match &self.path {
            Some(path) => Some(path),
            None => None,
        }
    }

    pub fn is_dirty(&self) -> (dirty: bool)
        ensures
            dirty == self@.dirty,
    {
        self.dirty
    }

    pub fn encoding(&self) -> (encoding: TextEncoding)
        ensures
            encoding == self@.encoding,
    {
        self.encoding
    }

    pub fn line_ending(&self) -> (line_ending: LineEnding)
        ensures
            line_ending == self@.line_ending,
    {
        self.line_ending
    }

    pub fn load_mode(&self) -> (mode: LoadMode)
        ensures
            mode == self@.load_mode,
    {
        self.load_mode
    }

    pub fn original_file_len(&self) -> (len: u64)
        ensures
            len == self@.original_file_len,
    {
        self.original_file_len
    }

    pub fn change_generation(&self) -> (generation: u64)
        ensures
            generation == self@.generation,
    {
        self.change_generation
    }

    /// How many lines are known.
    pub fn line_count(&self) -> (count: usize)
        ensures
            count == self@.index.starts.len(),
    {
        self.line_index.line_count()
    }

    pub fn is_empty(&self) -> (empty: bool)
        requires
            self.wf(),
        ensures
            empty == (self@.bytes.len() == 0),
    {
        self.buffer.is_empty()
    }

    pub fn can_undo(&self) -> (can: bool)
        ensures
            can == (self@.undo.len() > 0),
    {
        self.undo_stack.len() > 0
    }

    pub fn undo_available(&self) -> (can: bool)
        ensures
            can == (self@.undo.len() > 0),
    {
        self.can_undo()
    }

    pub fn text_lossy(&self) -> (text: String)
        requires
            self.wf(),
        ensures
            text@ == shown_text(self@.bytes),
    {
        self.buffer.to_text_lossy()
    }

    pub fn text(&self) -> (text: String)
        requires
            self.wf(),
        ensures
            text@ == shown_text(self@.bytes),
    {
        self.text_lossy()
    }

    pub fn text_range_lossy(&self, range: Range<usize>) -> (text: Result<String>)
        requires
            self.wf(),
        ensures
            fails_as(
                text,
                bounds_error(self@.bytes.len() as int, range.start as int, range.end as int),
            ),
            text matches Ok(text) ==> text@ == shown_text(
                self@.bytes.subrange(range.start as int, range.end as int),
            ),
    {
        let bytes = self.buffer.bytes_range(range)?;
        Ok(text_of(bytes.as_slice()))
    }

    pub fn bytes(&self) -> (bytes: Vec<u8>)
        requires
            self.wf(),
        ensures
            bytes@ == self@.bytes,
    {
        self.buffer.collect_bytes()
    }

    /// The text in order, in chunks.
    pub fn chunks(&self) -> (chunks: Vec<&[u8]>)
        requires
            self.wf(),
        ensures
            crate::piece_table::chunk_views(chunks@) == self.chunk_seq(),
            joined(self.chunk_seq()) == self@.bytes,
            forall|i: int|
                0 <= i < self.chunk_seq().len() ==> (#[trigger] self.chunk_seq()[i]).len() > 0,
    {
        self.buffer.chunks()
    }

    // -- lines and columns --------------------------------------------------

    /// The bytes of a known line, its line break included.
    pub fn line_range(&self, zero_based_line: usize) -> (range: Option<Range<usize>>)
        requires
            self.wf(),
        ensures
            range is Some <==> zero_based_line < self@.index.starts.len(),
            range matches Some(span) ==> {
                &&& span.start == self@.index.starts[zero_based_line as int]
                &&& span.end == line_end(
                    self@.index,
                    zero_based_line as int,
                    self@.bytes.len() as int,
                )
                &&& span.start <= span.end <= self@.bytes.len()
            },
    {
        let len: usize = self.len();
        let range = self.line_index.line_range(zero_based_line, len);
        proof {
            if zero_based_line < self@.index.starts.len() {
                lemma_line_span(self@, zero_based_line as int);
            }
        }
        range
    }

    pub fn line_start(&self, zero_based_line: usize) -> (start: Option<usize>)
        ensures
            start is Some <==> zero_based_line < self@.index.starts.len(),
            start matches Some(offset) ==> offset == self@.index.starts[zero_based_line as int],
    {
        self.line_index.line_start(zero_based_line)
    }

    /// The known line that holds `byte_offset`.
    pub fn line_for_offset(&self, byte_offset: usize) -> (line: Result<usize>)
        requires
            self.wf(),
        ensures
            fails_as(line, boundary_error(self@.bytes, byte_offset as int)),
            line matches Ok(line) ==> line == line_at(self@.index.starts, byte_offset as int),
    {
        self.ensure_char_boundary(byte_offset)?;
        Ok(self.line_index.line_for_offset(byte_offset))
    }

    fn trimmed_line_range(&self, range: Range<usize>) -> (content: Range<usize>)
        requires
            self.wf(),
            range.start <= range.end <= self@.bytes.len(),
        ensures
            content.start == range.start,
            content.end == trimmed_end(self@.bytes, range.start as int, range.end as int),
            content.start <= content.end <= range.end,
    {
        let start: usize = range.start;
        let mut end: usize = range.end;
        if end > start {
            match self.byte(end - 1) {
                Some(last) => {
                    if last == LF {
                        end -= 1;
                        if end > start {
                            match self.byte(end - 1) {
                                Some(before) => if before == CR {
                                    end -= 1;
                                },
                                None => {},
                            }
                        }
                    } else if last == CR {
                        end -= 1;
                    }
                },
                None => {},
            }
        }
        start..end
    }

    fn byte(&self, offset: usize) -> (byte: Option<u8>)
        requires
            self.wf(),
            offset <= self@.bytes.len(),
        ensures
            byte == (if offset < self@.bytes.len() {
                Some(self@.bytes[offset as int])
            } else {
                None
            }),
    {
        match self.buffer.byte_at(offset) {
            Ok(byte) => byte,
            Err(_) => None,
        }
    }

    /// The bytes of the line that holds `byte_offset`, without its line break.
    pub fn line_content_range_for_offset(&self, byte_offset: usize) -> (range: Result<
        Range<usize>,
    >)
        requires
            self.wf(),
        ensures
            fails_as(range, boundary_error(self@.bytes, byte_offset as int)),
            range matches Ok(range) ==> {
                let line = line_at(self@.index.starts, byte_offset as int);
                &&& range.start == self@.index.starts[line]
                &&& range.end == content_end(self@, line)
                &&& range.start <= range.end <= self@.bytes.len()
            },
    {
        let line: usize = self.line_for_offset(byte_offset)?;
        proof {
            lemma_line_at(self@.index.starts, byte_offset as int);
            lemma_line_span(self@, line as int);
        }
        match self.line_range(line) {
            Some(range) => Ok(self.trimmed_line_range(range)),
            None => {
                let len: usize = self.len();
                Ok(len..len)
            },
        }
    }

    fn floor_char_boundary(&self, offset: usize, lower_bound: usize) -> (floor: usize)
        requires
            self.wf(),
            offset <= self@.bytes.len(),
        ensures
            floor == floor_boundary(self@.bytes, offset as int, lower_bound as int),
            lower_bound <= offset ==> lower_bound <= floor <= offset,
    {
        let mut at: usize = offset;
        while at > lower_bound
            invariant
                self.wf(),
                at <= offset <= self@.bytes.len(),
                lower_bound <= offset ==> lower_bound <= at,
                floor_boundary(self@.bytes, offset as int, lower_bound as int) == floor_boundary(
                    self@.bytes,
                    at as int,
                    lower_bound as int,
                ),
            decreases at,
        {
            match self.byte(at) {
                None => {
                    return at;
                },
                Some(byte) => {
                    if !is_utf8_continuation(byte) {
                        return at;
                    }
                },
            }
            at -= 1;
        }
        lower_bound
    }

    /// The lines from `first_line` on, at most `max_lines` of them.
    pub fn visible_lines(&self, first_line: usize, max_lines: usize) -> (lines: Vec<VisibleLine>)
        requires
            self.wf(),
        ensures
            is_visible_lines(lines@, self@, first_line as int, max_lines as int, 0),
    {
        self.visible_lines_at(first_line, max_lines, 0)
    }

    /// The lines from `first_line` on, at most `max_lines` of them, each from
    /// `horizontal_offset` bytes on and no longer than what is shown of a line.
    pub fn visible_lines_at(
        &self,
        first_line: usize,
        max_lines: usize,
        horizontal_offset: usize,
    ) -> (lines: Vec<VisibleLine>)
        requires
            self.wf(),
        ensures
            is_visible_lines(
                lines@,
                self@,
                first_line as int,
                max_lines as int,
                horizontal_offset as int,
            ),
    {
        let mut lines: Vec<VisibleLine> = Vec::new();
        let count: usize = self.line_count();
        let mut line: usize = first_line;
        while line < count && line - first_line < max_lines
            invariant
                self.wf(),
                count == self@.index.starts.len(),
                first_line <= line,
                lines@.len() == line - first_line,
                line - first_line <= max_lines,
                line <= count || line == first_line,
                forall|i: int|
                    0 <= i < lines@.len() ==> is_visible_line(
                        #[trigger] lines@[i],
                        self@,
                        first_line + i,
                        horizontal_offset as int,
                    ),
            decreases count - line,
        {
            match self.line_range(line) {
                Some(range) => {
                    proof {
                        lemma_line_span(self@, line as int);
                    }
                    let content = self.trimmed_line_range(range);
                    let room: usize = content.end - content.start;
                    let wanted: usize = if horizontal_offset < room {
                        content.start + horizontal_offset
                    } else {
                        content.end
                    };
                    let start: usize = self.floor_char_boundary(wanted, content.start);
                    let end: usize = if content.end - start <= MAX_VISIBLE_LINE_BYTES {
                        content.end
                    } else {
                        self.floor_char_boundary(start + MAX_VISIBLE_LINE_BYTES, start)
                    };
                    match self.text_range_lossy(start..end) {
                        Ok(text) => {
                            lines.push(
                                VisibleLine { number: line + 1, byte_range: start..end, text },
                            );
                        },
                        Err(_) => {},
                    }
                },
                None => {},
            }
            line += 1;
        }
        lines
    }

    /// Line and column of `byte_offset`, both counted from one; a tab advances
    /// to the next tab stop.
    pub fn caret_position(&self, byte_offset: usize) -> (position: Result<CaretPosition>)
        requires
            self.wf(),
        ensures
            fails_as(position, caret_error(self@, byte_offset as int)),
            position matches Ok(position) ==> {
                &&& position.line == line_at(self@.index.starts, byte_offset as int) + 1
                &&& position.column == caret_column(self@, byte_offset as int)
            },
    {
        let len: usize = self.len();
        if byte_offset > len {
            return Err(BlitzError::InvalidRange { start: byte_offset, end: byte_offset, len });
        }
        let count: usize = self.line_count();
        let line: usize = self.line_index.line_for_offset(byte_offset);
        let line_start: usize = self.known_start(line);
        let column: usize = if byte_offset - line_start <= MAX_COLUMN_SCAN_BYTES {
            let before_caret = self.validated_text_range(line_start..byte_offset)?;
            proof {
                lemma_decoded_len(
                    self@.bytes.subrange(line_start as int, byte_offset as int),
                );
            }
            visual_column(before_caret.as_str())
        } else {
            byte_offset - line_start + 1
        };
        Ok(CaretPosition { line: line + 1, column })
    }

    fn known_start(&self, line: usize) -> (start: usize)
        requires
            line < self@.index.starts.len(),
        ensures
            start == self@.index.starts[line as int],
    {
        match self.line_index.line_start(line) {
            Some(start) => start,
            None => 0,
        }
    }

    /// The offset of the character before `byte_offset`.
    pub fn previous_char_offset(&self, byte_offset: usize) -> (offset: Result<Option<usize>>)
        requires
            self.wf(),
        ensures
            fails_as(offset, previous_error(self@.bytes, byte_offset as int)),
            offset matches Ok(offset) ==> {
                &&& offset is None <==> byte_offset == 0
                &&& offset matches Some(at) ==> at == floor_boundary(
                    self@.bytes,
                    byte_offset - 1,
                    0,
                )
            },
    {
        self.ensure_char_boundary(byte_offset)?;
        if byte_offset == 0 {
            return Ok(None);
        }
        let offset: usize = self.floor_char_boundary(byte_offset - 1, 0);
        self.ensure_char_boundary(offset)?;
        Ok(Some(offset))
    }

    /// The offset after the character at `byte_offset`.
    pub fn next_char_offset(&self, byte_offset: usize) -> (offset: Result<Option<usize>>)
        requires
            self.wf(),
        ensures
            fails_as(offset, next_error(self@.bytes, byte_offset as int)),
            offset matches Ok(offset) ==> {
                &&& offset is None <==> byte_offset == self@.bytes.len()
                &&& offset matches Some(at) ==> at == byte_offset + leading_width(
                    self@.bytes[byte_offset as int],
                )
            },
    {
        self.ensure_char_boundary(byte_offset)?;
        let len: usize = self.len();
        let first_byte: u8 = match self.byte(byte_offset) {
            Some(byte) => byte,
            None => {
                return Ok(None);
            },
        };
        let width: usize = utf8_char_width(first_byte)?;
        if width > len - byte_offset {
            return Err(
                BlitzError::Encoding(owned("document contains a truncated UTF-8 character")),
            );
        }
        let next_offset: usize = byte_offset + width;
        self.validated_text_range(byte_offset..next_offset)?;
        Ok(Some(next_offset))
    }

    /// How many characters stand before `byte_offset` in its line; beyond what
    /// is searched for a column, how many bytes.
    pub fn char_column_for_offset(&self, byte_offset: usize) -> (column: Result<usize>)
        requires
            self.wf(),
        ensures
            fails_as(column, char_column_error(self@, byte_offset as int)),
            column matches Ok(column) ==> column == char_column(self@, byte_offset as int),
    {
        let line: usize = self.line_for_offset(byte_offset)?;
        proof {
            lemma_line_at(self@.index.starts, byte_offset as int);
        }
        let line_start: usize = self.known_start(line);
        if byte_offset - line_start > MAX_COLUMN_SCAN_BYTES {
            return Ok(byte_offset - line_start);
        }
        let text = self.validated_text_range(line_start..byte_offset)?;
        Ok(text.as_str().unicode_len())
    }

    /// The offset of character number `column` of a line, or the line's end.
    pub fn offset_for_char_column(&self, zero_based_line: usize, column: usize) -> (offset: Result<
        usize,
    >)
        requires
            self.wf(),
        ensures
            fails_as(offset, column_offset_error(self@, zero_based_line as int)),
            offset matches Ok(offset) ==> offset == column_offset(
                self@,
                zero_based_line as int,
                column as int,
            ),
    {
        let line_range = match self.line_range(zero_based_line) {
            Some(range) => range,
            None => {
                return Ok(self.len());
            },
        };
        let content = self.trimmed_line_range(line_range);
        let start: usize = content.start;
        let end: usize = content.end;
        if end - start > MAX_COLUMN_SCAN_BYTES {
            let sample_end: usize = self.floor_char_boundary(start + MAX_COLUMN_SCAN_BYTES, start);
            let sample = self.validated_text_range(start..sample_end)?;
            proof {
                decode_utf8_encode_utf8(self@.bytes.subrange(start as int, sample_end as int));
            }
            match byte_index_of_char(sample.as_str(), column) {
                Some(index) => {
                    return Ok(start + index);
                },
                None => {},
            }
            let approximate: usize = if column < end - start {
                start + column
            } else {
                end
            };
            return Ok(self.floor_char_boundary(approximate, start));
        }
        let text = self.validated_text_range(start..end)?;
        proof {
            decode_utf8_encode_utf8(self@.bytes.subrange(start as int, end as int));
        }
        match byte_index_of_char(text.as_str(), column) {
            Some(index) => Ok(start + index),
            None => Ok(end),
        }
    }

    // -- opening ------------------------------------------------------------

    /// The document of a file that was read or mapped.
    pub fn open(path: DocumentPath, loaded: LoadedSource) -> (document: Result<Self>)
        requires
            detected_encoding(loaded.source@) == TextEncoding::Ansi ==> loaded.source@.len()
                <= ANSI_LIMIT,
        ensures
            fails_as(document, open_error(loaded.source@)),
            document matches Ok(document) ==> {
                &&& document.wf()
                &&& document@ == opened(
                    path@,
                    loaded.source@,
                    loaded.mode,
                    loaded.original_file_len,
                )
            },
    {
        let source = loaded.source;
        let source_len: usize = source.len();
        let encoding = detect_encoding(source.as_slice());
        match encoding {
            TextEncoding::Utf8 | TextEncoding::Utf8Bom => {
                let body_start: usize = encoding.bom_len(source.as_slice());
                let body_len: usize = source_len - body_start;
                let body = slice_subrange(source.as_slice(), body_start, source_len);
                assert(body@ =~= body_of(source@, encoding));
                let line_ending = detect_line_ending(body);
                let (line_index, pending) = open_line_index(body, body_start, loaded.mode);
                let buffer = PieceTable::from_source(source.clone(), body_start, body_len)?;
                assert(buffer@ =~= body_of(source@, encoding));
                let document = Document {
                    path: Some(path),
                    buffer,
                    line_index,
                    pending,
                    encoding,
                    line_ending,
                    dirty: false,
                    load_mode: loaded.mode,
                    original_file_len: loaded.original_file_len,
                    change_generation: 0,
                    saved_generation: Some(0),
                    undo_stack: Vec::new(),
                };
                proof {
                    assert(document@.undo =~= Seq::<UndoModel>::empty());
                    lemma_prefix_index_well_formed(document@.bytes, line_index@.indexed_len);
                }
                Ok(document)
            },
            _ => {
                let decoded = decode_to_utf8(source.as_slice(), encoding)?;
                let bytes = crate::text::utf8_bytes(decoded.as_str());
                let line_index = LineIndex::build(bytes.as_slice());
                let line_ending = detect_line_ending(bytes.as_slice());
                let body_len: usize = bytes.len();
                let buffer = PieceTable::from_source(SourceBytes::from_vec(bytes), 0, body_len)?;
                assert(buffer@ =~= bytes@);
                let document = Document {
                    path: Some(path),
                    buffer,
                    line_index,
                    pending: None,
                    encoding,
                    line_ending,
                    dirty: false,
                    load_mode: loaded.mode,
                    original_file_len: loaded.original_file_len,
                    change_generation: 0,
                    saved_generation: Some(0),
                    undo_stack: Vec::new(),
                };
                proof {
                    assert(document@.undo =~= Seq::<UndoModel>::empty());
                    lemma_prefix_index_well_formed(document@.bytes, line_index@.indexed_len);
                }
                Ok(document)
            },
        }
    }

    // -- the awaited line index ----------------------------------------------

    /// The work of indexing the whole text, as long as its result is awaited.
    pub fn line_index_job(&self) -> (job: Option<LineIndexJob>)
        requires
            self.wf(),
        ensures
            job is Some <==> self@.awaiting_index,
            job matches Some(job) ==> job.wf() && job.text() == self@.bytes,
    {
        match self.pending {
            Some(start) => {
                let len: usize = self.len();
                Some(LineIndexJob { source: self.buffer.original().clone(), start, len })
            },
            None => None,
        }
    }

    /// Takes over the line index of this text that was built elsewhere, if it is
    /// still awaited.
    pub fn refresh_line_index(&mut self, completed: CompletedLineIndex)
        requires
            old(self).wf(),
            completed.wf(),
            old(self)@.awaiting_index ==> completed.text() == old(self)@.bytes,
        ensures
            final(self).wf(),
            final(self)@ == (if old(self)@.awaiting_index {
                DocumentModel {
                    index: full_index(old(self)@.bytes),
                    awaiting_index: false,
                    ..old(self)@
                }
            } else {
                old(self)@
            }),
    {
        if self.pending.is_none() {
            return ;
        }
        proof {
            lemma_prefix_index_well_formed(self@.bytes, self@.bytes.len() as int);
        }
        self.line_index = completed.index;
        self.pending = None;
    }

    /// Whether the line of `byte_offset` is known.
    pub fn line_index_covers_offset(&self, byte_offset: usize) -> (covers: bool)
        ensures
            covers == index_covers(self@.index, byte_offset as int),
    {
        self.line_index.is_complete() || byte_offset <= self.line_index.indexed_len()
    }

    /// Indexes up to `max_bytes` more towards `byte_offset`. The answer says
    /// whether that offset is covered now.
    pub fn extend_line_index_towards_offset(&mut self, byte_offset: usize, max_bytes: usize) -> (
    covers: bool)
        requires
            old(self).wf(),
        ensures
            final(self).wf(),
            final(self)@ == (DocumentModel {
                index: index_extended_towards(
                    old(self)@.bytes,
                    old(self)@.index,
                    byte_offset as int,
                    max_bytes as int,
                ),
                ..old(self)@
            }),
            covers == index_covers(final(self)@.index, byte_offset as int),
    {
        if self.line_index_covers_offset(byte_offset) {
            return true;
        }
        let len: usize = self.len();
        let ghost bytes = self.buffer@;
        let indexed: usize = self.line_index.indexed_len();
        let step: usize = if max_bytes < 1 {
            1
        } else {
            max_bytes
        };
        let limit: usize = if byte_offset < len {
            byte_offset
        } else {
            len
        };
        let next: usize = if step < limit - indexed {
            indexed + step
        } else {
            limit
        };
        if next > indexed {
            match self.buffer.bytes_range(indexed..next) {
                Ok(chunk) => {
                    proof {
                        law_chunk_extends_prefix_index(bytes, indexed as int, next as int);
                        lemma_prefix_index_well_formed(bytes, safe_prefix(bytes, next as int));
                    }
                    self.line_index.extend_from_chunk(chunk.as_slice(), len);
                },
                Err(_) => {},
            }
        }
        self.line_index_covers_offset(byte_offset)
    }

    // -- saving ---------------------------------------------------------------

    /// The bytes of the file in `encoding` with the line breaks `line_ending`.
    pub fn contents(&self, encoding: TextEncoding, line_ending: LineEnding) -> (contents: Result<
        Vec<u8>,
    >)
        requires
            self.wf(),
            encoding == TextEncoding::Ansi ==> encode_utf8(
                saved_text(self@.bytes, line_ending),
            ).len() <= ANSI_LIMIT,
        ensures
            fails_as(contents, save_error(self@.bytes, encoding, line_ending)),
            contents matches Ok(contents) ==> contents@ == saved_bytes(
                self@.bytes,
                encoding,
                line_ending,
            ),
            // Opened again, the file gives the same text, up to the line breaks
            // that it was saved with.
            contents matches Ok(contents) ==> valid_utf8(self@.bytes) && (encoding
                == TextEncoding::Ansi ==> ansi_keeps(saved_text(self@.bytes, line_ending)))
                && detected_encoding(contents@) == encoding ==> open_error(contents@) is None
                && file_text(contents@) == normalized_bytes(
                self@.bytes,
                ending_bytes(line_ending),
                self@.bytes.len() as int,
            ),
    {
        proof {
            if valid_utf8(self@.bytes) {
                if encoding == TextEncoding::Ansi {
                    law_bytes_and_text_normalise_alike(shown_text(self@.bytes), line_ending);
                    decode_utf8_encode_utf8(self@.bytes);
                } else if encoding != TextEncoding::Utf8 || detected_encoding(
                    saved_bytes(self@.bytes, encoding, line_ending),
                ) == TextEncoding::Utf8 {
                    law_saved_file_reopens(self@.bytes, encoding, line_ending);
                }
            }
        }
        match encoding {
            TextEncoding::Utf8 | TextEncoding::Utf8Bom => Ok(
                self.utf8_contents(encoding, line_ending),
            ),
            _ => {
                let text = self.text_lossy();
                let normalized = normalize_line_endings(text.as_str(), line_ending);
                encode_from_utf8(normalized.as_str(), encoding)
            },
        }
    }

    fn utf8_contents(&self, encoding: TextEncoding, line_ending: LineEnding) -> (contents: Vec<u8>)
        requires
            self.wf(),
            encoding == TextEncoding::Utf8 || encoding == TextEncoding::Utf8Bom,
        ensures
            contents@ == saved_bytes(self@.bytes, encoding, line_ending),
    {
        let mut contents = utf8_save_head(encoding);
        let ghost head = contents@;
        let ghost bytes = self@.bytes;
        let mut pending_cr = false;
        let chunks = self.chunks();
        let ghost views = self.chunk_seq();
        let mut i: usize = 0;
        assert(views.take(0) =~= Seq::<Seq<u8>>::empty());
        assert(contents@ =~= head + normalized_bytes(
            without_last_cr(joined(views.take(0))),
            ending_bytes(line_ending),
            without_last_cr(joined(views.take(0))).len() as int,
        ));
        while i < chunks.len()
            invariant
                i <= chunks@.len(),
                chunk_views(chunks@) == views,
                forall|k: int| 0 <= k < views.len() ==> (#[trigger] views[k]).len() > 0,
                pending_cr == ends_in_cr(joined(views.take(i as int))),
                contents@ == head + normalized_bytes(
                    without_last_cr(joined(views.take(i as int))),
                    ending_bytes(line_ending),
                    without_last_cr(joined(views.take(i as int))).len() as int,
                ),
            decreases chunks@.len() - i,
        {
            let ghost done = joined(views.take(i as int));
            let ghost held = contents@;
            let chunk = chunks[i];
            proof {
                assert(views[i as int] == chunk_views(chunks@)[i as int]);
                assert(views.take(i + 1).drop_last() =~= views.take(i as int));
                assert(joined(views.take(i + 1)) == done + chunk@);
                lemma_stream_step(done, chunk@, ending_bytes(line_ending));
            }
            write_normalized_utf8_chunk(&mut contents, chunk, line_ending, &mut pending_cr);
            i += 1;
            assert(contents@ =~= head + normalized_bytes(
                without_last_cr(joined(views.take(i as int))),
                ending_bytes(line_ending),
                without_last_cr(joined(views.take(i as int))).len() as int,
            ));
        }
        proof {
            assert(views.take(i as int) =~= views);
            lemma_stream_end(bytes, ending_bytes(line_ending));
        }
        let ghost held = contents@;
        if pending_cr {
            push_ending(&mut contents, line_ending);
        }
        assert(contents@ =~= saved_bytes(bytes, encoding, line_ending));
        contents
    }

    /// Where and how the document is to be written, once it has a path.
    pub fn save(&self) -> (request: Result<SaveTarget>)
        ensures
            fails_as(
                request,
                if self@.path is None {
                    Some(ErrorModel::MissingSavePath)
                } else {
                    None
                },
            ),
            request matches Ok(target) ==> {
                &&& Some(target.path@) == self@.path
                &&& target.encoding == self@.encoding
                &&& target.line_ending == self@.line_ending
                &&& target.generation == self@.generation
            },
    {
        match &self.path {
            Some(path) => Ok(
                SaveTarget {
                    path: path.clone(),
                    encoding: self.encoding,
                    line_ending: self.line_ending,
                    generation: self.change_generation,
                },
            ),
            None => Err(BlitzError::MissingSavePath),
        }
    }

    /// Notes that the document as it was at `generation` now fills a file of
    /// `saved_len` bytes. A document that has changed since stays unsaved.
    pub fn mark_saved_generation(&mut self, generation: u64, saved_len: u64) -> (marked: bool)
        requires
            old(self).wf(),
        ensures
            final(self).wf(),
            marked == (old(self)@.generation == generation),
            final(self)@ == (if marked {
                saved_as_is(old(self)@, saved_len)
            } else {
                old(self)@
            }),
    {
        if self.change_generation != generation {
            return false;
        }
        self.original_file_len = saved_len;
        self.saved_generation = Some(generation);
        self.sync_dirty_flag();
        true
    }

    /// Notes that the document now fills a file of `saved_len` bytes at `path`.
    pub fn save_as(
        &mut self,
        path: DocumentPath,
        encoding: TextEncoding,
        line_ending: LineEnding,
        saved_len: u64,
    )
        requires
            old(self).wf(),
        ensures
            final(self).wf(),
            final(self)@ == (DocumentModel {
                path: Some(path@),
                encoding,
                line_ending,
                load_mode: LoadMode::Heap,
                ..saved_as_is(old(self)@, saved_len)
            }),
    {
        self.path = Some(path);
        self.encoding = encoding;
        self.line_ending = line_ending;
        self.load_mode = LoadMode::Heap;
        self.original_file_len = saved_len;
        self.saved_generation = Some(self.change_generation);
        self.sync_dirty_flag();
    }

    /// Chooses the line breaks that the document is saved with.
    pub fn set_line_ending(&mut self, line_ending: LineEnding)
        requires
            old(self).wf(),
        ensures
            final(self).wf(),
            final(self)@ == (if old(self)@.line_ending == line_ending {
                old(self)@
            } else {
                let generation = next_generation(old(self)@.generation);
                DocumentModel {
                    line_ending,
                    generation,
                    dirty: old(self)@.saved_generation != Some(generation),
                    ..old(self)@
                }
            }),
    {
        if self.line_ending != line_ending {
            self.line_ending = line_ending;
            self.change_generation = self.change_generation.saturating_add(1);
            self.sync_dirty_flag();
        }
    }
}

/// A document without a file, over the given text and its index, for use where
/// the text does not come from a file.
impl Document {
    /// A document over `source`, of which the first bytes are indexed.
    pub fn from_indexed_source(
        source: SourceBytes,
        line_ending: LineEnding,
        indexed_len: usize,
    ) -> (document: Self)
        ensures
            document.wf(),
            document@ == (DocumentModel {
                bytes: source@,
                index: prefix_index(
                    source@,
                    safe_prefix(source@, min(indexed_len as int, source@.len() as int)),
                ),
                line_ending,
                original_file_len: source@.len() as u64,
                ..untitled_document()
            }),
    {
        let len: usize = source.len();
        let line_index = LineIndex::build_prefix(source.as_slice(), indexed_len);
        let buffer = match PieceTable::from_source(source.clone(), 0, len) {
            Ok(buffer) => buffer,
            Err(_) => PieceTable::new(),
        };
        assert(source@.subrange(0, len as int) =~= source@);
        let document = Document {
            path: None,
            buffer,
            line_index,
            pending: None,
            encoding: TextEncoding::Utf8,
            line_ending,
            dirty: false,
            load_mode: LoadMode::Heap,
            original_file_len: len as u64,
            change_generation: 0,
            saved_generation: Some(0),
            undo_stack: Vec::new(),
        };
        proof {
            assert(document@.undo =~= Seq::<UndoModel>::empty());
            lemma_prefix_index_well_formed(document@.bytes, line_index@.indexed_len);
        }
        document
    }
}

// ---------------------------------------------------------------------------
// Opening
// ---------------------------------------------------------------------------

/// Whether a file of `len` bytes is read or mapped.
pub fn load_mode_for_len(len: u64) -> (mode: LoadMode)
    ensures
        mode == (if len >= MMAP_THRESHOLD_BYTES {
            LoadMode::MemoryMapped
        } else {
            LoadMode::Heap
        }),
{
    if len >= MMAP_THRESHOLD_BYTES {
        LoadMode::MemoryMapped
    } else {
        LoadMode::Heap
    }
}

/// Whether the index of a text of `len` bytes is left to be completed later.
pub open spec fn index_is_deferred(mode: LoadMode, len: int) -> bool {
    mode == LoadMode::MemoryMapped && len > INITIAL_MMAP_LINE_INDEX_BYTES
}

/// The text of a file.
pub open spec fn file_text(source: Seq<u8>) -> Seq<u8> {
    let encoding = detected_encoding(source);
    if encoding == TextEncoding::Utf8 || encoding == TextEncoding::Utf8Bom {
        body_of(source, encoding)
    } else {
        encode_utf8(decoded_text(source, encoding))
    }
}

pub open spec fn open_error(source: Seq<u8>) -> Option<ErrorModel> {
    let encoding = detected_encoding(source);
    if encoding == TextEncoding::Utf8 || encoding == TextEncoding::Utf8Bom {
        None
    } else {
        decode_error(source, encoding)
    }
}

/// The document of a file.
pub open spec fn opened(
    path: PathModel,
    source: Seq<u8>,
    mode: LoadMode,
    original_file_len: u64,
) -> DocumentModel {
    let encoding = detected_encoding(source);
    let text = file_text(source);
    let in_place = encoding == TextEncoding::Utf8 || encoding == TextEncoding::Utf8Bom;
    let deferred = in_place && index_is_deferred(mode, text.len() as int);
    DocumentModel {
        bytes: text,
        index: if deferred {
            prefix_index(text, safe_prefix(text, INITIAL_MMAP_LINE_INDEX_BYTES as int))
        } else {
            full_index(text)
        },
        awaiting_index: deferred,
        path: Some(path),
        encoding,
        line_ending: detected_ending(text),
        load_mode: mode,
        original_file_len,
        ..untitled_document()
    }
}

fn open_line_index(body: &[u8], body_start: usize, mode: LoadMode) -> (result: (
    LineIndex,
    Option<usize>,
))
    ensures
        result.0.wf(),
        index_is_deferred(mode, body@.len() as int) ==> result.0@ == prefix_index(
            body@,
            safe_prefix(body@, INITIAL_MMAP_LINE_INDEX_BYTES as int),
        ) && result.1 == Some(body_start),
        !index_is_deferred(mode, body@.len() as int) ==> result.0@ == full_index(body@)
            && result.1 is None,
{
    if mode != LoadMode::MemoryMapped || body.len() <= INITIAL_MMAP_LINE_INDEX_BYTES {
        (LineIndex::build(body), None)
    } else {
        (LineIndex::build_prefix(body, INITIAL_MMAP_LINE_INDEX_BYTES), Some(body_start))
    }
}

/// The work of indexing the text of a mapped file.
#[derive(Debug)]
pub struct LineIndexJob {
    source: SourceBytes,
    start: usize,
    len: usize,
}

/// The line index of the text of a mapped file.
#[derive(Debug)]
pub struct CompletedLineIndex {
    job: LineIndexJob,
    index: LineIndex,
}

impl LineIndexJob {
    pub closed spec fn wf(&self) -> bool {
        self.start + self.len <= self.source@.len()
    }

    /// The text to be indexed.
    pub closed spec fn text(&self) -> Seq<u8> {
        self.source@.subrange(self.start as int, self.start + self.len)
    }

    /// Indexes the text, a part at a time.
    pub fn run(self) -> (completed: CompletedLineIndex)
        requires
            self.wf(),
        ensures
            completed.wf(),
            completed.text() == self.text(),
    {
        let all = self.source.as_slice();
        let all_len: usize = all.len();
        let body = slice_subrange(all, self.start, self.start + self.len);
        assert(body@ =~= self.text());
        let mut index = LineIndex::build_prefix(body, INITIAL_MMAP_LINE_INDEX_BYTES);
        while !index.is_complete()
            invariant
                index.wf(),
                0 <= index@.indexed_len <= body@.len() <= usize::MAX,
                index@ == prefix_index(body@, index@.indexed_len),
            decreases body@.len() - index@.indexed_len,
        {
            let ghost k = index@.indexed_len;
            proof {
                law_extend_reads_on(body@, k, INITIAL_MMAP_LINE_INDEX_BYTES as int);
            }
            index.extend(body, INITIAL_MMAP_LINE_INDEX_BYTES);
        }
        CompletedLineIndex { job: self, index }
    }
}

impl CompletedLineIndex {
    pub closed spec fn wf(&self) -> bool {
        self.job.wf() && self.index.wf() && self.index@ == full_index(self.job.text())
    }

    pub closed spec fn text(&self) -> Seq<u8> {
        self.job.text()
    }

    /// Whether this is the index that `document` awaits: one of the same text. A
    /// handle on the same bytes shows that without a look at them.
    pub fn belongs_to(&self, document: &Document) -> (belongs: bool)
        requires
            self.wf(),
            document.wf(),
        ensures
            belongs == (document@.awaiting_index && self.text() == document@.bytes),
    {
        match document.pending {
            Some(start) => {
                let len: usize = document.len();
                let awaited = document.buffer.original();
                let indexed = &self.job.source;
                if self.job.len != len {
                    return false;
                }
                if self.job.start == start && awaited.same_source(indexed) {
                    return true;
                }
                let ours = indexed.as_slice();
                let theirs = awaited.as_slice();
                assert(ours.len() <= usize::MAX && theirs.len() <= usize::MAX);
                same_bytes(
                    slice_subrange(ours, self.job.start, self.job.start + len),
                    slice_subrange(theirs, start, start + len),
                )
            },
            None => false,
        }
    }
}

pub open spec fn index_covers(index: IndexState, offset: int) -> bool {
    index.complete || offset <= index.indexed_len
}

/// The index, extended by up to `max_bytes` towards `offset`.
pub open spec fn index_extended_towards(
    bytes: Seq<u8>,
    index: IndexState,
    offset: int,
    max_bytes: int,
) -> IndexState {
    let step = if max_bytes < 1 {
        1
    } else {
        max_bytes
    };
    let next = min(min(index.indexed_len + step, offset), bytes.len() as int);
    if index_covers(index, offset) {
        index
    } else {
        prefix_index(bytes, safe_prefix(bytes, next))
    }
}

// ---------------------------------------------------------------------------
// Saving
// ---------------------------------------------------------------------------

/// A file that a document is to be written to.
#[derive(Debug)]
pub struct SaveTarget {
    pub path: DocumentPath,
    pub encoding: TextEncoding,
    pub line_ending: LineEnding,
    pub generation: u64,
}

/// A document after its present state was saved.
pub open spec fn saved_as_is(m: DocumentModel, saved_len: u64) -> DocumentModel {
    DocumentModel {
        original_file_len: saved_len,
        saved_generation: Some(m.generation),
        dirty: false,
        ..m
    }
}

/// The text that is encoded on saving, where it is not written as it is.
pub open spec fn saved_text(bytes: Seq<u8>, line_ending: LineEnding) -> Seq<char> {
    let text = shown_text(bytes);
    normalized_chars(text, ending_chars(line_ending), text.len() as int)
}

pub open spec fn save_error(
    bytes: Seq<u8>,
    encoding: TextEncoding,
    line_ending: LineEnding,
) -> Option<ErrorModel> {
    encode_error(saved_text(bytes, line_ending), encoding)
}

/// The file of a document.
pub open spec fn saved_bytes(
    bytes: Seq<u8>,
    encoding: TextEncoding,
    line_ending: LineEnding,
) -> Seq<u8> {
    let body = normalized_bytes(bytes, ending_bytes(line_ending), bytes.len() as int);
    match encoding {
        TextEncoding::Utf8 => body,
        TextEncoding::Utf8Bom => utf8_bom() + body,
        _ => encoded_bytes(saved_text(bytes, line_ending), encoding),
    }
}

/// The first `n` bytes with every newline written as `ending`: a line feed
/// right after a carriage return belongs to it and adds nothing.
pub open spec fn normalized_bytes(bytes: Seq<u8>, ending: Seq<u8>, n: int) -> Seq<u8>
    decreases n,
{
    if n <= 0 {
        Seq::empty()
    } else {
        let before = normalized_bytes(bytes, ending, n - 1);
        let byte = bytes[n - 1];
        if byte == CR {
            before + ending
        } else if byte == LF {
            if n > 1 && bytes[n - 2] == CR {
                before
            } else {
                before + ending
            }
        } else {
            before.push(byte)
        }
    }
}

pub open spec fn ends_in_cr(bytes: Seq<u8>) -> bool {
    bytes.len() > 0 && bytes.last() == CR
}

/// `bytes` without a carriage return at its end, whose line feed may follow.
pub open spec fn without_last_cr(bytes: Seq<u8>) -> Seq<u8> {
    if ends_in_cr(bytes) {
        bytes.drop_last()
    } else {
        bytes
    }
}

/// A chunk, behind the carriage return that is still held back.
pub open spec fn with_pending(pending_cr: bool, chunk: Seq<u8>) -> Seq<u8> {
    if pending_cr {
        seq![CR] + chunk
    } else {
        chunk
    }
}

/// The mark that a UTF-8 file begins with.
pub fn utf8_save_head(encoding: TextEncoding) -> (head: Vec<u8>)
    ensures
        head@ == (if encoding == TextEncoding::Utf8Bom {
            utf8_bom()
        } else {
            Seq::empty()
        }),
{
    let mut head: Vec<u8> = Vec::new();
    if encoding == TextEncoding::Utf8Bom {
        head.push(0xEF);
        head.push(0xBB);
        head.push(0xBF);
        assert(head@ =~= utf8_bom());
    }
    head
}

/// Appends the bytes of a line break.
pub fn push_ending(out: &mut Vec<u8>, line_ending: LineEnding)
    ensures
        final(out)@ == old(out)@ + ending_bytes(line_ending),
{
    match line_ending {
        LineEnding::CrLf => {
            out.push(CR);
            out.push(LF);
        },
        LineEnding::Lf => {
            out.push(LF);
        },
        LineEnding::Cr => {
            out.push(CR);
        },
    }
    assert(out@ =~= old(out)@ + ending_bytes(line_ending));
}

/// Appends a chunk with its newlines written as `line_ending`. A carriage
/// return at its very end is held back, in `pending_cr`, until the next chunk
/// shows whether a line feed belongs to it.
pub fn write_normalized_utf8_chunk(
    out: &mut Vec<u8>,
    chunk: &[u8],
    line_ending: LineEnding,
    pending_cr: &mut bool,
)
    ensures
        ({
            let ready = with_pending(*old(pending_cr), without_last_cr(chunk@));
            &&& final(out)@ == old(out)@ + normalized_bytes(
                ready,
                ending_bytes(line_ending),
                ready.len() as int,
            )
            &&& *final(pending_cr) == ends_in_cr(chunk@)
        }),
{
    let ghost before = out@;
    let ghost full = with_pending(*pending_cr, chunk@);
    let ghost ready = with_pending(*pending_cr, without_last_cr(chunk@));
    let ghost ending = ending_bytes(line_ending);
    let len: usize = chunk.len();
    let ghost shift: int = if *pending_cr {
        1
    } else {
        0
    };
    let mut index: usize = 0;
    if *pending_cr {
        push_ending(out, line_ending);
        assert(normalized_bytes(ready, ending, 1) =~= ending) by {
            assert(ready[0] == CR);
            assert(normalized_bytes(ready, ending, 0) =~= Seq::<u8>::empty());
        }
    }
    let held_back = len > 0 && chunk[len - 1] == CR;
    let end: usize = if held_back {
        len - 1
    } else {
        len
    };
    let mut previous_cr = *pending_cr;
    assert(out@ =~= before + normalized_bytes(ready, ending, shift));
    assert(ready =~= full.take(end + shift));
    while index < end
        invariant
            index <= end <= len == chunk@.len(),
            shift == 0 || shift == 1,
            shift == 1 ==> full == seq![CR] + chunk@,
            shift == 0 ==> full == chunk@,
            ready == full.take(end + shift),
            ready.len() == end + shift,
            ending == ending_bytes(line_ending),
            previous_cr == (index + shift > 0 && full[index + shift - 1] == CR),
            out@ == before + normalized_bytes(ready, ending, index + shift),
        decreases end - index,
    {
        let byte: u8 = chunk[index];
        let ghost at = index + shift;
        let ghost held = out@;
        proof {
            assert(full[at] == byte);
            assert(ready[at] == full[at]);
            if at > 0 {
                assert(ready[at - 1] == full[at - 1]);
            }
        }
        if byte == CR {
            push_ending(out, line_ending);
        } else if byte == LF {
            if !previous_cr {
                push_ending(out, line_ending);
            }
        } else {
            out.push(byte);
        }
        previous_cr = byte == CR;
        index += 1;
        assert(out@ =~= before + normalized_bytes(ready, ending, index + shift));
    }
    *pending_cr = held_back;
}

proof fn lemma_normalized_prefix(a: Seq<u8>, b: Seq<u8>, ending: Seq<u8>, n: int)
    requires
        n <= a.len(),
        n <= b.len(),
        forall|i: int| 0 <= i < n ==> a[i] == #[trigger] b[i],
    ensures
        normalized_bytes(a, ending, n) == normalized_bytes(b, ending, n),
    decreases n,
{
    if n > 0 {
        lemma_normalized_prefix(a, b, ending, n - 1);
        assert(a[n - 1] == b[n - 1]);
        if n > 1 {
            assert(a[n - 2] == b[n - 2]);
        }
    }
}

/// Parts between which no CR LF pair is cut are normalised on their own.
pub proof fn lemma_normalized_concat(a: Seq<u8>, b: Seq<u8>, ending: Seq<u8>, n: int)
    requires
        0 <= n <= b.len(),
        !(ends_in_cr(a) && b.len() > 0 && b[0] == LF),
    ensures
        normalized_bytes(a + b, ending, a.len() + n) == normalized_bytes(
            a,
            ending,
            a.len() as int,
        ) + normalized_bytes(b, ending, n),
    decreases n,
{
    if n > 0 {
        lemma_normalized_concat(a, b, ending, n - 1);
        assert((a + b)[a.len() + n - 1] == b[n - 1]);
        if n > 1 {
            assert((a + b)[a.len() + n - 2] == b[n - 2]);
        } else if a.len() > 0 {
            assert((a + b)[a.len() - 1] == a.last());
        }
        assert(normalized_bytes(a + b, ending, a.len() + n) =~= normalized_bytes(
            a,
            ending,
            a.len() as int,
        ) + normalized_bytes(b, ending, n));
    } else {
        lemma_normalized_prefix(a + b, a, ending, a.len() as int);
        assert(normalized_bytes(a + b, ending, a.len() as int) =~= normalized_bytes(
            a,
            ending,
            a.len() as int,
        ) + normalized_bytes(b, ending, 0));
    }
}

proof fn lemma_stream_step(done: Seq<u8>, chunk: Seq<u8>, ending: Seq<u8>)
    requires
        chunk.len() > 0,
    ensures
        ({
            let held = without_last_cr(done);
            let ready = with_pending(ends_in_cr(done), without_last_cr(chunk));
            let next = without_last_cr(done + chunk);
            &&& normalized_bytes(next, ending, next.len() as int) == normalized_bytes(
                held,
                ending,
                held.len() as int,
            ) + normalized_bytes(ready, ending, ready.len() as int)
            &&& ends_in_cr(done + chunk) == ends_in_cr(chunk)
        }),
{
    let held = without_last_cr(done);
    let full = with_pending(ends_in_cr(done), chunk);
    let ready = with_pending(ends_in_cr(done), without_last_cr(chunk));
    let next = without_last_cr(done + chunk);
    assert((done + chunk).last() == chunk.last());
    assert(done + chunk =~= held + full);
    assert(next =~= held + ready);
    if ends_in_cr(done) && ready.len() > 0 {
        assert(ready[0] == CR);
    }
    lemma_normalized_concat(held, ready, ending, ready.len() as int);
}

proof fn lemma_stream_end(bytes: Seq<u8>, ending: Seq<u8>)
    ensures
        ({
            let held = without_last_cr(bytes);
            normalized_bytes(bytes, ending, bytes.len() as int) == normalized_bytes(
                held,
                ending,
                held.len() as int,
            ) + (if ends_in_cr(bytes) {
                ending
            } else {
                Seq::empty()
            })
        }),
{
    let held = without_last_cr(bytes);
    if ends_in_cr(bytes) {
        lemma_normalized_prefix(bytes, held, ending, held.len() as int);
    } else {
        assert(normalized_bytes(bytes, ending, bytes.len() as int) =~= normalized_bytes(
            held,
            ending,
            held.len() as int,
        ) + Seq::<u8>::empty());
    }
}

/// The name of the file that a document is written to before it takes the place
/// of the old one.
pub fn temporary_save_name(file_name: Option<&str>) -> (name: String)
    ensures
        name@ == "."@ + (match file_name {
            Some(file_name) => file_name@,
            None => "untitled"@,
        }) + ".blitzpad-tmp"@,
{
    let mut name = owned(".");
    match file_name {
        Some(file_name) => name.append(file_name),
        None => name.append("untitled"),
    }
    name.append(".blitzpad-tmp");
    name
}

// ---------------------------------------------------------------------------
// Model: lines and columns
// ---------------------------------------------------------------------------

pub open spec fn untitled_document() -> DocumentModel {
    DocumentModel {
        bytes: Seq::empty(),
        index: full_index(Seq::empty()),
        awaiting_index: false,
        path: None,
        encoding: TextEncoding::Utf8,
        line_ending: LineEnding::CrLf,
        dirty: false,
        load_mode: LoadMode::Heap,
        original_file_len: 0,
        generation: 0,
        saved_generation: Some(0),
        undo: Seq::empty(),
    }
}

pub open spec fn shown_name(path: Option<PathModel>) -> Seq<char> {
    match path {
        Some(path) => match path.file_name {
            Some(name) => name,
            None => "Untitled"@,
        },
        None => "Untitled"@,
    }
}

/// The end of a line without its line break.
pub open spec fn trimmed_end(bytes: Seq<u8>, start: int, end: int) -> int {
    if end > start && bytes[end - 1] == LF {
        if end - 1 > start && bytes[end - 2] == CR {
            end - 2
        } else {
            end - 1
        }
    } else if end > start && bytes[end - 1] == CR {
        end - 1
    } else {
        end
    }
}

pub open spec fn content_end(m: DocumentModel, line: int) -> int {
    trimmed_end(m.bytes, m.index.starts[line], line_end(m.index, line, m.bytes.len() as int))
}

/// The last character boundary at or before `offset`, but not before `lower`.
pub open spec fn floor_boundary(bytes: Seq<u8>, offset: int, lower: int) -> int
    decreases offset - lower,
{
    if offset <= lower {
        lower
    } else if offset >= bytes.len() || !is_continuation_byte(bytes[offset]) {
        offset
    } else {
        floor_boundary(bytes, offset - 1, lower)
    }
}

/// Where the shown part of a line begins.
pub open spec fn visible_start(m: DocumentModel, line: int, horizontal: int) -> int {
    floor_boundary(
        m.bytes,
        min(m.index.starts[line] + horizontal, content_end(m, line)),
        m.index.starts[line],
    )
}

/// Where the shown part of a line ends.
pub open spec fn visible_end(m: DocumentModel, line: int, horizontal: int) -> int {
    let start = visible_start(m, line, horizontal);
    if content_end(m, line) - start <= MAX_VISIBLE_LINE_BYTES {
        content_end(m, line)
    } else {
        floor_boundary(m.bytes, start + MAX_VISIBLE_LINE_BYTES, start)
    }
}

pub open spec fn is_visible_line(
    shown: VisibleLine,
    m: DocumentModel,
    line: int,
    horizontal: int,
) -> bool {
    let start = visible_start(m, line, horizontal);
    let end = visible_end(m, line, horizontal);
    &&& shown.number == line + 1
    &&& shown.byte_range.start == start
    &&& shown.byte_range.end == end
    &&& shown.text@ == shown_text(m.bytes.subrange(start, end))
}

pub open spec fn is_visible_lines(
    shown: Seq<VisibleLine>,
    m: DocumentModel,
    first: int,
    max: int,
    horizontal: int,
) -> bool {
    &&& shown.len() == (if first < m.index.starts.len() {
        min(max, m.index.starts.len() - first)
    } else {
        0
    })
    &&& forall|i: int|
        0 <= i < shown.len() ==> is_visible_line(#[trigger] shown[i], m, first + i, horizontal)
}

/// The column after `text`, counted from one, with tab stops.
pub open spec fn column_after(text: Seq<char>) -> int
    decreases text.len(),
{
    if text.len() == 0 {
        1
    } else {
        let column = column_after(text.drop_last());
        if text.last() == '\t' {
            column + (TAB_WIDTH - (column - 1) % (TAB_WIDTH as int))
        } else {
            column + 1
        }
    }
}

pub open spec fn caret_error(m: DocumentModel, offset: int) -> Option<ErrorModel> {
    let start = m.index.starts[line_at(m.index.starts, offset)];
    if offset > m.bytes.len() {
        Some(
            ErrorModel::InvalidRange { start: offset, end: offset, len: m.bytes.len() as int },
        )
    } else if offset - start <= MAX_COLUMN_SCAN_BYTES {
        text_range_error(m.bytes, start, offset)
    } else {
        None
    }
}

pub open spec fn caret_column(m: DocumentModel, offset: int) -> int {
    let start = m.index.starts[line_at(m.index.starts, offset)];
    if offset - start <= MAX_COLUMN_SCAN_BYTES {
        column_after(decode_utf8(m.bytes.subrange(start, offset)))
    } else {
        offset - start + 1
    }
}

pub open spec fn previous_error(bytes: Seq<u8>, offset: int) -> Option<ErrorModel> {
    if boundary_error(bytes, offset) is Some {
        boundary_error(bytes, offset)
    } else if offset > 0 {
        boundary_error(bytes, floor_boundary(bytes, offset - 1, 0))
    } else {
        None
    }
}

/// How many bytes the encoding of a character takes, from its first byte.
pub open spec fn leading_width(byte: u8) -> int {
    if byte <= 0x7F {
        1
    } else if byte <= 0xDF {
        2
    } else if byte <= 0xEF {
        3
    } else {
        4
    }
}

/// A byte that a character can begin with.
pub open spec fn leads_char(byte: u8) -> bool {
    byte <= 0x7F || 0xC2 <= byte <= 0xF4
}

pub open spec fn next_error(bytes: Seq<u8>, offset: int) -> Option<ErrorModel> {
    if boundary_error(bytes, offset) is Some {
        boundary_error(bytes, offset)
    } else if offset == bytes.len() {
        None
    } else if !leads_char(bytes[offset]) {
        Some(ErrorModel::Encoding("document contains an invalid UTF-8 leading byte"@))
    } else if offset + leading_width(bytes[offset]) > bytes.len() {
        Some(ErrorModel::Encoding("document contains a truncated UTF-8 character"@))
    } else {
        text_range_error(bytes, offset, offset + leading_width(bytes[offset]))
    }
}

pub open spec fn char_column_error(m: DocumentModel, offset: int) -> Option<ErrorModel> {
    let start = m.index.starts[line_at(m.index.starts, offset)];
    if boundary_error(m.bytes, offset) is Some {
        boundary_error(m.bytes, offset)
    } else if offset - start > MAX_COLUMN_SCAN_BYTES {
        None
    } else {
        text_range_error(m.bytes, start, offset)
    }
}

pub open spec fn char_column(m: DocumentModel, offset: int) -> int {
    let start = m.index.starts[line_at(m.index.starts, offset)];
    if offset - start > MAX_COLUMN_SCAN_BYTES {
        offset - start
    } else {
        decode_utf8(m.bytes.subrange(start, offset)).len() as int
    }
}

/// Where the part of a line that is searched for a column ends.
pub open spec fn column_scan_end(m: DocumentModel, line: int) -> int {
    let start = m.index.starts[line];
    if content_end(m, line) - start > MAX_COLUMN_SCAN_BYTES {
        floor_boundary(m.bytes, start + MAX_COLUMN_SCAN_BYTES, start)
    } else {
        content_end(m, line)
    }
}

pub open spec fn column_offset_error(m: DocumentModel, line: int) -> Option<ErrorModel> {
    if line >= m.index.starts.len() {
        None
    } else {
        text_range_error(m.bytes, m.index.starts[line], column_scan_end(m, line))
    }
}

pub open spec fn column_offset(m: DocumentModel, line: int, column: int) -> int {
    let start = m.index.starts[line];
    let end = content_end(m, line);
    let text = decode_utf8(m.bytes.subrange(start, column_scan_end(m, line)));
    if line >= m.index.starts.len() {
        m.bytes.len() as int
    } else if column < text.len() {
        start + encode_utf8(text.take(column)).len()
    } else if end - start > MAX_COLUMN_SCAN_BYTES {
        floor_boundary(m.bytes, min(start + column, end), start)
    } else {
        end
    }
}

/// A known line lies within the text.
pub proof fn lemma_line_span(m: DocumentModel, line: int)
    requires
        document_valid(m),
        0 <= line < m.index.starts.len(),
    ensures
        0 <= m.index.starts[line] <= line_end(m.index, line, m.bytes.len() as int)
            <= m.bytes.len(),
        m.index.starts[line] <= content_end(m, line) <= m.bytes.len(),
{
    let starts = m.index.starts;
    assert(starts[line] <= starts.last());
    assert(starts[0] <= starts[line]);
    if line + 1 < starts.len() {
        assert(starts[line] < starts[line + 1]);
    }
}

proof fn lemma_decoded_len(bytes: Seq<u8>)
    requires
        valid_utf8(bytes),
    ensures
        decode_utf8(bytes).len() <= bytes.len(),
    decreases bytes.len(),
{
    if bytes.len() > 0 {
        lemma_decoded_len(pop_first_scalar(bytes));
    }
}

/// The column after `text_before_caret`.
pub fn visual_column(text_before_caret: &str) -> (column: usize)
    requires
        TAB_WIDTH * text_before_caret@.len() < usize::MAX,
    ensures
        column == column_after(text_before_caret@),
{
    let mut column: usize = 1;
    for character in iter: text_before_caret.chars()
        invariant
            iter.seq() == text_before_caret@,
            TAB_WIDTH * text_before_caret@.len() < usize::MAX,
            1 <= column <= 1 + TAB_WIDTH * iter.index(),
            column == column_after(text_before_caret@.take(iter.index() as int)),
    {
        proof {
            let n = iter.index() as int;
            assert(text_before_caret@.take(n + 1).drop_last() =~= text_before_caret@.take(n));
        }
        if character == '\t' {
            column = column + (TAB_WIDTH - (column - 1) % TAB_WIDTH);
        } else {
            column = column + 1;
        }
    }
    assert(text_before_caret@.take(text_before_caret@.len() as int) =~= text_before_caret@);
    column
}

/// The width of the character that begins with `first_byte`.
pub fn utf8_char_width(first_byte: u8) -> (width: Result<usize>)
    ensures
        width is Ok <==> leads_char(first_byte),
        width matches Ok(width) ==> width == leading_width(first_byte),
        width matches Err(error) ==> error@ == ErrorModel::Encoding(
            "document contains an invalid UTF-8 leading byte"@,
        ),
{
    if first_byte <= 0x7F {
        Ok(1)
    } else if 0xC2 <= first_byte && first_byte <= 0xDF {
        Ok(2)
    } else if 0xE0 <= first_byte && first_byte <= 0xEF {
        Ok(3)
    } else if 0xF0 <= first_byte && first_byte <= 0xF4 {
        Ok(4)
    } else {
        Err(BlitzError::Encoding(owned("document contains an invalid UTF-8 leading byte")))
    }
}

/// The byte offset of character number `column`, where there is one.
pub fn byte_index_of_char(text: &str, column: usize) -> (index: Option<usize>)
    ensures
        index is Some <==> column < text@.len(),
        index matches Some(index) ==> index == encode_utf8(text@.take(column as int)).len()
            && index <= encode_utf8(text@).len(),
{
    let total: usize = text.as_bytes().len();
    let mut index: usize = 0;
    let mut seen: usize = 0;
    for character in iter: text.chars()
        invariant
            iter.seq() == text@,
            seen == iter.index(),
            seen <= column,
            total == encode_utf8(text@).len(),
            index == encode_utf8(text@.take(seen as int)).len(),
            index <= total,
    {
        if seen == column {
            return Some(index);
        }
        proof {
            let n = seen as int;
            let head = text@.take(n + 1);
            assert(head =~= text@.take(n) + seq![character]);
            lemma_encode_concat(text@.take(n), seq![character]);
            lemma_encode_one(character);
            assert(text@ =~= head + text@.skip(n + 1));
            lemma_encode_concat(head, text@.skip(n + 1));
        }
        index = index + char_width(character);
        seen = seen + 1;
    }
    None
}

/// The edits at the positions of `order`.
pub open spec fn edits_at(edits: Seq<TextEdit>, order: Seq<usize>) -> Seq<EditModel> {
    Seq::new(order.len(), |i: int| edits[order[i] as int]@)
}

/// Edits leave the rest of the document alone.
pub proof fn lemma_apply_all_keeps(m: DocumentModel, edits: Seq<EditModel>)
    ensures
        ({
            let r = apply_all(m, edits).0;
            &&& r.undo == m.undo
            &&& r.saved_generation == m.saved_generation
            &&& r.generation == m.generation
            &&& r.dirty == m.dirty
            &&& r.path == m.path
            &&& r.encoding == m.encoding
            &&& r.line_ending == m.line_ending
            &&& r.load_mode == m.load_mode
            &&& r.original_file_len == m.original_file_len
        }),
    decreases edits.len(),
{
    if edits.len() > 0 {
        let step = replace_step(m, edits[0].start, edits[0].end, edits[0].replacement);
        if step.1 is None {
            lemma_apply_all_keeps(step.0, edits.drop_first());
        }
    }
}

pub fn is_utf8_continuation(byte: u8) -> (continues: bool)
    ensures
        continues == is_continuation_byte(byte),
{
    byte >= 0x80 && byte <= 0xBF
}

proof fn lemma_prefix_index_well_formed(bytes: Seq<u8>, k: int)
    requires
        0 <= k <= bytes.len(),
    ensures
        index_well_formed(prefix_index(bytes, k)),
        behind_newlines(prefix_index(bytes, k).starts, bytes),
{
    lemma_line_breaks_bounds(bytes, 0, k);
    lemma_breaks_behind_newlines(bytes, k);
    let starts = prefix_index(bytes, k).starts;
    let breaks = crate::line_index::line_breaks(bytes, 0, k);
    assert forall|i: int, j: int| 0 <= i < j < starts.len() implies starts[i] < starts[j] by {
        assert(starts[j] == breaks[j - 1]);
        if i > 0 {
            assert(starts[i] == breaks[i - 1]);
        }
    }
    if breaks.len() > 0 {
        assert(starts.last() == breaks[breaks.len() - 1]);
    }
}

} // verus!

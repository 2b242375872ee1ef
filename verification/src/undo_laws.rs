//! What undo restores, and what several edits at once amount to.

use crate::document::{
    apply_all, ascending, descending, document_valid, edit_range_error, edit_starts,
    edit_starts_mirrored, edited, edited_all, first_edit_error, first_overlap, inverse_of,
    lemma_apply_all_keeps, replace_step, text_range_error, undone, DocumentModel, EditModel,
    UndoModel, UNDO_LIMIT,
};
use crate::error::ErrorModel;
use crate::piece_table::{range_error, spliced};
use crate::sorting::{
    lemma_mirrored_keys, lemma_order_holds, lemma_stable_order, lemma_stable_order_injective,
    stable_order,
};
use crate::text::{lemma_boundary, on_boundary};
use vstd::prelude::*;
use vstd::utf8::*;

verus! {

/// Text put in the place of a range between characters leaves valid text, with
/// character boundaries on both sides of it.
pub proof fn lemma_splice_is_text(bytes: Seq<u8>, start: int, end: int, text: Seq<char>)
    requires
        valid_utf8(bytes),
        0 <= start <= end <= bytes.len(),
        on_boundary(bytes, start),
        on_boundary(bytes, end),
    ensures
        valid_utf8(spliced(bytes, start, end, encode_utf8(text))),
        on_boundary(spliced(bytes, start, end, encode_utf8(text)), start),
        on_boundary(
            spliced(bytes, start, end, encode_utf8(text)),
            start + encode_utf8(text).len(),
        ),
        range_error(
            spliced(bytes, start, end, encode_utf8(text)),
            start,
            start + encode_utf8(text).len(),
        ) is None,
{
    let added = encode_utf8(text);
    let left = bytes.subrange(0, start);
    let right = bytes.subrange(end, bytes.len() as int);
    lemma_boundary(bytes, start);
    lemma_boundary(bytes, end);
    valid_utf8_split(bytes, start);
    valid_utf8_split(bytes, end);
    encode_utf8_valid_utf8(text);
    valid_utf8_concat(left, added);
    valid_utf8_concat(left + added, right);
    let new = spliced(bytes, start, end, added);
    assert(new =~= left + added + right);
    if end < bytes.len() {
        assert(new[start + added.len()] == bytes[end]);
    }
    if added.len() > 0 {
        assert(new[start] == added[0]);
        is_char_boundary_start_end_of_seq(added);
        is_char_boundary_iff_not_is_continuation_byte(added, 0);
        assert(is_char_boundary(added, 0) <==> !is_continuation_byte(added[0]));
    }
}

// ---------------------------------------------------------------------------
// Undo
// ---------------------------------------------------------------------------

/// An edit applied behind others.
proof fn lemma_apply_push(m: DocumentModel, edits: Seq<EditModel>, last: EditModel)
    ensures
        apply_all(m, edits.push(last)) == (if apply_all(m, edits).1 is Some {
            apply_all(m, edits)
        } else {
            replace_step(apply_all(m, edits).0, last.start, last.end, last.replacement)
        }),
    decreases edits.len(),
{
    let all = edits.push(last);
    if edits.len() == 0 {
        reveal_with_fuel(apply_all, 2);
        assert(all[0] == last);
        assert(all.drop_first() =~= Seq::<EditModel>::empty());
    } else {
        let step = replace_step(m, edits[0].start, edits[0].end, edits[0].replacement);
        assert(all[0] == edits[0]);
        assert(all.drop_first() =~= edits.drop_first().push(last));
        if step.1 is None {
            lemma_apply_push(step.0, edits.drop_first(), last);
        }
    }
}

/// A range that was replaced and is put back leaves the bytes as they were.
proof fn lemma_spliced_back(bytes: Seq<u8>, start: int, end: int, added: Seq<u8>)
    requires
        0 <= start <= end <= bytes.len(),
    ensures
        spliced(
            spliced(bytes, start, end, added),
            start,
            start + added.len(),
            bytes.subrange(start, end),
        ) == bytes,
{
    assert(spliced(
        spliced(bytes, start, end, added),
        start,
        start + added.len(),
        bytes.subrange(start, end),
    ) =~= bytes);
}

/// Edits that were applied one after the other are taken back, the last first,
/// by their inverse edits.
#[verifier::rlimit(40)]
#[verifier::spinoff_prover]
proof fn lemma_taken_back(m: DocumentModel, edits: Seq<EditModel>, after: DocumentModel)
    requires
        apply_all(m, edits).1 is None,
        after.bytes == apply_all(m, edits).0.bytes,
    ensures
        apply_all(after, inverse_of(m.bytes, edits).reverse()).1 is None,
        apply_all(after, inverse_of(m.bytes, edits).reverse()).0.bytes == m.bytes,
    decreases edits.len(),
{
    let inverse = inverse_of(m.bytes, edits);
    if edits.len() == 0 {
        assert(inverse.reverse() =~= Seq::<EditModel>::empty());
    } else {
        let edit = edits[0];
        let added = encode_utf8(edit.replacement);
        let removed = m.bytes.subrange(edit.start, edit.end);
        let step = replace_step(m, edit.start, edit.end, edit.replacement).0;
        let rest = inverse_of(step.bytes, edits.drop_first());
        lemma_taken_back(step, edits.drop_first(), after);
        assert(inverse.reverse() =~= rest.reverse().push(inverse[0]));
        lemma_apply_push(after, rest.reverse(), inverse[0]);
        lemma_splice_is_text(m.bytes, edit.start, edit.end, edit.replacement);
        lemma_subrange_is_text(m.bytes, edit.start, edit.end);
        decode_utf8_encode_utf8(removed);
        lemma_spliced_back(m.bytes, edit.start, edit.end, added);
    }
}

/// What undo brings back of a document that was changed.
pub open spec fn restores(
    back: (DocumentModel, Option<ErrorModel>),
    m: DocumentModel,
) -> bool {
    &&& back.1 is None
    &&& back.0.bytes == m.bytes
    &&& back.0.generation == m.generation
    &&& back.0.dirty == m.dirty
    &&& m.undo.len() < UNDO_LIMIT ==> back.0.undo == m.undo
}

/// The edit of one range, undone: the text is as before.
pub proof fn law_undo_restores_edit(m: DocumentModel, start: int, end: int, text: Seq<char>)
    requires
        document_valid(m),
        edited(m, start, end, text).1 is None,
        start < end || text.len() > 0,
    ensures
        restores(undone(edited(m, start, end, text).0), m),
{
    let after = edited(m, start, end, text).0;
    let edits = seq![EditModel { start, end, replacement: text }];
    let inverse = inverse_of(m.bytes, edits);
    let step = replace_step(m, start, end, text);
    assert(edits.drop_first() =~= Seq::<EditModel>::empty());
    assert(apply_all(m, edits) == apply_all(step.0, edits.drop_first()));
    assert(inverse_of(step.0.bytes, edits.drop_first()) =~= Seq::<EditModel>::empty());
    assert(inverse =~= after.undo.last().edits);
    let base = DocumentModel { undo: after.undo.drop_last(), ..after };
    lemma_taken_back(m, edits, base);
    lemma_apply_all_keeps(base, inverse.reverse());
    if m.undo.len() < UNDO_LIMIT {
        assert(after.undo.drop_last() =~= m.undo);
    }
}

/// Several edits as one, undone: the text is as before.
pub proof fn law_undo_restores_edits(m: DocumentModel, edits: Seq<EditModel>)
    requires
        document_valid(m),
        edits.len() > 0,
        edited_all(m, edits).1 is None,
    ensures
        restores(undone(edited_all(m, edits).0), m),
{
    let after = edited_all(m, edits).0;
    let inverse = inverse_of(m.bytes, descending(edits));
    let base = DocumentModel { undo: after.undo.drop_last(), ..after };
    lemma_apply_all_keeps(m, descending(edits));
    assert(after.undo.last() == (UndoModel { edits: inverse, generation: m.generation }));
    lemma_taken_back(m, descending(edits), base);
    lemma_apply_all_keeps(base, inverse.reverse());
    if m.undo.len() < UNDO_LIMIT {
        assert(after.undo.drop_last() =~= m.undo);
    }
}

proof fn lemma_apply_keeps_text(m: DocumentModel, edits: Seq<EditModel>)
    requires
        valid_utf8(m.bytes),
    ensures
        valid_utf8(apply_all(m, edits).0.bytes),
    decreases edits.len(),
{
    if edits.len() > 0 {
        let edit = edits[0];
        let step = replace_step(m, edit.start, edit.end, edit.replacement);
        if step.1 is None {
            lemma_splice_is_text(m.bytes, edit.start, edit.end, edit.replacement);
            lemma_apply_keeps_text(step.0, edits.drop_first());
        }
    }
}

/// A valid text stays one, whatever is edited or undone and whether or not it
/// succeeds.
pub proof fn law_editing_keeps_text_valid(
    m: DocumentModel,
    start: int,
    end: int,
    text: Seq<char>,
    edits: Seq<EditModel>,
)
    requires
        valid_utf8(m.bytes),
    ensures
        valid_utf8(edited(m, start, end, text).0.bytes),
        valid_utf8(edited_all(m, edits).0.bytes),
        valid_utf8(undone(m).0.bytes),
{
    let step = replace_step(m, start, end, text);
    if step.1 is None {
        lemma_splice_is_text(m.bytes, start, end, text);
    }
    lemma_apply_keeps_text(m, descending(edits));
    if m.undo.len() > 0 {
        lemma_apply_keeps_text(
            DocumentModel { undo: m.undo.drop_last(), ..m },
            m.undo.last().edits.reverse(),
        );
    }
}

// ---------------------------------------------------------------------------
// Several edits at once
// ---------------------------------------------------------------------------

/// The bytes from `at` on, with the sorted edits from number `i` on made in
/// them, all in terms of the bytes as they are.
pub open spec fn replaced_together(bytes: Seq<u8>, sorted: Seq<EditModel>, i: int, at: int) -> Seq<
    u8,
>
    decreases sorted.len() - i,
{
    if i < 0 || i >= sorted.len() {
        bytes.skip(at)
    } else {
        bytes.subrange(at, sorted[i].start) + encode_utf8(sorted[i].replacement)
            + replaced_together(bytes, sorted, i + 1, sorted[i].end)
    }
}

/// Edits of a text, at different places and apart from one another.
pub open spec fn edits_apart(bytes: Seq<u8>, edits: Seq<EditModel>) -> bool {
    &&& forall|i: int|
        0 <= i < edits.len() ==> 0 <= (#[trigger] edits[i]).start <= edits[i].end <= bytes.len()
            && on_boundary(bytes, edits[i].start) && on_boundary(bytes, edits[i].end)
    &&& forall|i: int, j: int|
        0 <= i < edits.len() && 0 <= j < edits.len() && i != j ==> (#[trigger] edits[i]).start != (
        #[trigger] edits[j]).start && (edits[i].end <= edits[j].start || edits[j].end
            <= edits[i].start)
}

/// Edits in order, each behind the one before.
pub open spec fn edits_in_order(bytes: Seq<u8>, sorted: Seq<EditModel>) -> bool {
    &&& forall|i: int|
        0 <= i < sorted.len() ==> 0 <= (#[trigger] sorted[i]).start <= sorted[i].end <= bytes.len()
            && on_boundary(bytes, sorted[i].start) && on_boundary(bytes, sorted[i].end)
    &&& forall|i: int, j: int|
        0 <= i < j < sorted.len() ==> (#[trigger] sorted[i]).start < (#[trigger] sorted[j]).start
            && sorted[i].end <= sorted[j].start
}

pub proof fn lemma_sorted_apart(bytes: Seq<u8>, edits: Seq<EditModel>)
    requires
        edits_apart(bytes, edits),
        edits.len() <= usize::MAX,
        bytes.len() <= usize::MAX,
    ensures
        ascending(edits).len() == edits.len(),
        edits_in_order(bytes, ascending(edits)),
        descending(edits) == ascending(edits).reverse(),
        forall|x: EditModel| #[trigger] ascending(edits).contains(x) == edits.contains(x),
{
    let keys = edit_starts(edits);
    let sorted = ascending(edits);
    let up = stable_order(keys);
    let down = stable_order(edit_starts_mirrored(edits));
    let n = edits.len() as int;
    lemma_stable_order(keys);
    lemma_stable_order_injective(keys);
    lemma_stable_order(edit_starts_mirrored(edits));
    lemma_mirrored_keys(keys, edit_starts_mirrored(edits));
    assert forall|i: int| 0 <= i < n implies 0 <= (#[trigger] sorted[i]).start <= sorted[i].end
        <= bytes.len() && on_boundary(bytes, sorted[i].start) && on_boundary(
        bytes,
        sorted[i].end,
    ) by {
        assert(0 <= up[i] < n);
        assert(sorted[i] == edits[up[i]]);
    }
    assert forall|i: int, j: int| 0 <= i < j < n implies (#[trigger] sorted[i]).start < (
    #[trigger] sorted[j]).start && sorted[i].end <= sorted[j].start by {
        assert(up[i] != up[j]);
        assert(keys[up[i]] <= keys[up[j]]);
        assert(sorted[i] == edits[up[i]]);
        assert(sorted[j] == edits[up[j]]);
    }
    assert forall|i: int| 0 <= i < n implies #[trigger] descending(edits)[i]
        == sorted.reverse()[i] by {
        assert(0 <= down[i] < n);
        assert(0 <= up[n - 1 - i] < n);
        assert(keys[down[i]] == keys[up[n - 1 - i]]);
        assert(edits[down[i]].start == edits[up[n - 1 - i]].start);
        assert(down[i] == up[n - 1 - i]);
    }
    assert(descending(edits) =~= sorted.reverse());
    assert forall|x: EditModel| #[trigger] sorted.contains(x) == edits.contains(x) by {
        if sorted.contains(x) {
            let i = choose|i: int| 0 <= i < n && sorted[i] == x;
            assert(edits[up[i]] == x);
        }
        if edits.contains(x) {
            let k = choose|k: int| 0 <= k < n && edits[k] == x;
            lemma_order_holds(keys, k);
            let i = choose|i: int| 0 <= i < n && up[i] == k;
            assert(sorted[i] == x);
        }
    }
}

/// Only the bytes before `limit` count for edits before it.
proof fn lemma_together_prefix(
    bytes: Seq<u8>,
    new: Seq<u8>,
    sorted: Seq<EditModel>,
    i: int,
    at: int,
    limit: int,
)
    requires
        0 <= i <= sorted.len(),
        0 <= at <= limit <= bytes.len(),
        limit <= new.len(),
        bytes.take(limit) == new.take(limit),
        i < sorted.len() ==> at <= sorted[i].start,
        forall|k: int|
            i <= k < sorted.len() ==> (#[trigger] sorted[k]).start <= sorted[k].end <= limit,
        forall|k: int, l: int|
            i <= k < l < sorted.len() ==> (#[trigger] sorted[k]).end <= (
            #[trigger] sorted[l]).start,
    ensures
        replaced_together(bytes, sorted, i, at) == replaced_together(
            bytes.take(limit),
            sorted,
            i,
            at,
        ) + bytes.skip(limit),
    decreases sorted.len() - i,
{
    let front = bytes.take(limit);
    if i < sorted.len() {
        let edit = sorted[i];
        if i + 1 < sorted.len() {
            assert(sorted[i].end <= sorted[i + 1].start);
        }
        lemma_together_prefix(bytes, new, sorted, i + 1, edit.end, limit);
        assert(bytes.subrange(at, edit.start) =~= front.subrange(at, edit.start));
        assert(replaced_together(bytes, sorted, i, at) =~= replaced_together(front, sorted, i, at)
            + bytes.skip(limit));
    } else {
        assert(bytes.skip(at) =~= front.skip(at) + bytes.skip(limit));
    }
}

/// The last edit made on its own, the others together.
proof fn lemma_together_last(bytes: Seq<u8>, sorted: Seq<EditModel>)
    requires
        edits_in_order(bytes, sorted),
        sorted.len() > 0,
    ensures
        ({
            let last = sorted.last();
            replaced_together(bytes, sorted, 0, 0) == replaced_together(
                spliced(bytes, last.start, last.end, encode_utf8(last.replacement)),
                sorted.drop_last(),
                0,
                0,
            )
        }),
{
    let last = sorted.last();
    let rest = sorted.drop_last();
    let added = encode_utf8(last.replacement);
    let new = spliced(bytes, last.start, last.end, added);
    assert(bytes.take(last.start) =~= new.take(last.start));
    assert forall|k: int| 0 <= k < rest.len() implies (#[trigger] rest[k]).start <= rest[k].end
        <= last.start by {
        assert(sorted[k].end <= sorted[sorted.len() - 1].start);
    }
    assert forall|k: int, l: int| 0 <= k < l < rest.len() implies (#[trigger] rest[k]).end <= (
    #[trigger] rest[l]).start by {
        assert(sorted[k].end <= sorted[l].start);
    }
    lemma_together_prefix(new, bytes, rest, 0, 0, last.start);
    assert(new.skip(last.start) =~= added + bytes.skip(last.end));
    lemma_together_front(bytes, sorted, 0, 0);
}

proof fn lemma_together_front(bytes: Seq<u8>, sorted: Seq<EditModel>, i: int, at: int)
    requires
        edits_in_order(bytes, sorted),
        0 <= i < sorted.len(),
        0 <= at <= sorted[i].start,
    ensures
        ({
            let last = sorted.last();
            replaced_together(bytes, sorted, i, at) == replaced_together(
                bytes.take(last.start),
                sorted.drop_last(),
                i,
                at,
            ) + (encode_utf8(last.replacement) + bytes.skip(last.end))
        }),
    decreases sorted.len() - i,
{
    let last = sorted.last();
    let rest = sorted.drop_last();
    let front = bytes.take(last.start);
    let end = encode_utf8(last.replacement) + bytes.skip(last.end);
    if i == sorted.len() - 1 {
        assert(replaced_together(bytes, sorted, i + 1, last.end) == bytes.skip(last.end));
        assert(replaced_together(front, rest, i, at) == front.skip(at));
        assert(front.skip(at) =~= bytes.subrange(at, last.start));
        assert(replaced_together(bytes, sorted, i, at) =~= front.skip(at) + end);
    } else {
        let edit = sorted[i];
        assert(edit.end <= sorted[i + 1].start);
        assert(edit.end <= sorted[sorted.len() - 1].start);
        lemma_together_front(bytes, sorted, i + 1, edit.end);
        assert(rest[i] == edit);
        assert(bytes.subrange(at, edit.start) =~= front.subrange(at, edit.start));
        assert(replaced_together(bytes, sorted, i, at) =~= replaced_together(front, rest, i, at)
            + end);
    }
}

/// Edits in order, applied from the last to the first, all go through.
proof fn lemma_apply_in_turn(m: DocumentModel, sorted: Seq<EditModel>)
    requires
        valid_utf8(m.bytes),
        edits_in_order(m.bytes, sorted),
    ensures
        apply_all(m, sorted.reverse()).1 is None,
        apply_all(m, sorted.reverse()).0.bytes == replaced_together(m.bytes, sorted, 0, 0),
    decreases sorted.len(),
{
    let turned = sorted.reverse();
    if sorted.len() == 0 {
        assert(turned =~= Seq::<EditModel>::empty());
        assert(m.bytes.skip(0) =~= m.bytes);
    } else {
        let last = sorted.last();
        let rest = sorted.drop_last();
        let added = encode_utf8(last.replacement);
        let step = replace_step(m, last.start, last.end, last.replacement);
        let new = spliced(m.bytes, last.start, last.end, added);
        assert(turned[0] == last);
        assert(turned.drop_first() =~= rest.reverse());
        assert(sorted[sorted.len() - 1] == last);
        assert(range_error(m.bytes, last.start, last.end) is None);
        lemma_splice_is_text(m.bytes, last.start, last.end, last.replacement);
        assert forall|i: int| 0 <= i < rest.len() implies 0 <= (#[trigger] rest[i]).start
            <= rest[i].end <= new.len() && on_boundary(new, rest[i].start) && on_boundary(
            new,
            rest[i].end,
        ) by {
            assert(rest[i] == sorted[i]);
            assert(sorted[i].end <= sorted[sorted.len() - 1].start);
            if rest[i].start < last.start {
                assert(new[rest[i].start] == m.bytes[rest[i].start]);
            }
            if rest[i].end < last.start {
                assert(new[rest[i].end] == m.bytes[rest[i].end]);
            }
        }
        assert forall|i: int, j: int| 0 <= i < j < rest.len() implies (#[trigger] rest[i]).start < (
        #[trigger] rest[j]).start && rest[i].end <= rest[j].start by {
            assert(sorted[i].end <= sorted[j].start);
        }
        lemma_apply_in_turn(step.0, rest);
        lemma_together_last(m.bytes, sorted);
    }
}

proof fn lemma_accepted(bytes: Seq<u8>, edits: Seq<EditModel>, i: int)
    requires
        valid_utf8(bytes),
        edits_apart(bytes, edits),
        0 <= i,
    ensures
        first_edit_error(bytes, edits, i) is None,
    decreases edits.len() - i,
{
    if i < edits.len() {
        lemma_subrange_is_text(bytes, edits[i].start, edits[i].end);
        assert(edit_range_error(bytes, edits[i].start, edits[i].end) is None);
        assert(text_range_error(bytes, edits[i].start, edits[i].end) is None);
        lemma_accepted(bytes, edits, i + 1);
    }
}

proof fn lemma_none_overlaps(bytes: Seq<u8>, sorted: Seq<EditModel>, i: int)
    requires
        edits_in_order(bytes, sorted),
        1 <= i,
    ensures
        first_overlap(sorted, bytes.len() as int, i) is None,
    decreases sorted.len() - i,
{
    if i < sorted.len() {
        assert(sorted[i - 1].end <= sorted[i].start);
        lemma_none_overlaps(bytes, sorted, i + 1);
    }
}

/// Edits at different places and apart from one another go through, and replace
/// their ranges of the former text all at once.
pub proof fn law_edits_replace_all_at_once(m: DocumentModel, edits: Seq<EditModel>)
    requires
        valid_utf8(m.bytes),
        edits_apart(m.bytes, edits),
        edits.len() <= usize::MAX,
        m.bytes.len() <= usize::MAX,
    ensures
        edited_all(m, edits).1 is None,
        edited_all(m, edits).0.bytes == replaced_together(m.bytes, ascending(edits), 0, 0),
{
    lemma_sorted_apart(m.bytes, edits);
    lemma_apply_in_turn(m, ascending(edits));
    lemma_accepted(m.bytes, edits, 0);
    lemma_none_overlaps(m.bytes, ascending(edits), 1);
    if edits.len() == 0 {
        assert(m.bytes.skip(0) =~= m.bytes);
    }
}

/// The order in which such edits are given does not matter.
pub proof fn law_order_of_edits_does_not_matter(
    m: DocumentModel,
    edits: Seq<EditModel>,
    others: Seq<EditModel>,
)
    requires
        valid_utf8(m.bytes),
        edits_apart(m.bytes, edits),
        edits_apart(m.bytes, others),
        forall|x: EditModel| #[trigger] edits.contains(x) == others.contains(x),
        edits.len() <= usize::MAX,
        others.len() <= usize::MAX,
        m.bytes.len() <= usize::MAX,
    ensures
        edited_all(m, edits).1 is None,
        edited_all(m, others).1 is None,
        edited_all(m, edits).0.bytes == edited_all(m, others).0.bytes,
{
    law_edits_replace_all_at_once(m, edits);
    law_edits_replace_all_at_once(m, others);
    lemma_sorted_apart(m.bytes, edits);
    lemma_sorted_apart(m.bytes, others);
    let a = ascending(edits);
    let b = ascending(others);
    assert forall|x: EditModel| #[trigger] a.contains(x) == b.contains(x) by {
        assert(edits.contains(x) == others.contains(x));
    }
    lemma_same_order(m.bytes, a, b);
}

/// There is one order for the same edits.
pub proof fn lemma_same_order(bytes: Seq<u8>, a: Seq<EditModel>, b: Seq<EditModel>)
    requires
        edits_in_order(bytes, a),
        edits_in_order(bytes, b),
        forall|x: EditModel| #[trigger] a.contains(x) == b.contains(x),
    ensures
        a == b,
    decreases a.len(),
{
    if a.len() == 0 {
        if b.len() > 0 {
            assert(b.contains(b[0]));
            assert(a.contains(b[0]));
        }
        assert(a =~= b);
    } else {
        assert(a.contains(a[0]));
        assert(b.contains(a[0]));
        let j = choose|j: int| 0 <= j < b.len() && b[j] == a[0];
        assert(b.contains(b[0]));
        assert(a.contains(b[0]));
        let k = choose|k: int| 0 <= k < a.len() && a[k] == b[0];
        if j > 0 {
            assert(b[0].start < b[j].start);
            if k > 0 {
                assert(a[0].start < a[k].start);
            }
        }
        assert(a[0] == b[0]);
        let x = a.drop_first();
        let y = b.drop_first();
        lemma_in_order_tail(bytes, a);
        lemma_in_order_tail(bytes, b);
        assert forall|e: EditModel| #[trigger] x.contains(e) == y.contains(e) by {
            if x.contains(e) {
                let i = choose|i: int| 0 <= i < x.len() && x[i] == e;
                assert(a[i + 1] == e);
                assert(a[0].start < a[i + 1].start);
                assert(a.contains(e));
                assert(b.contains(e));
                let l = choose|l: int| 0 <= l < b.len() && b[l] == e;
                assert(y[l - 1] == e);
            }
            if y.contains(e) {
                let i = choose|i: int| 0 <= i < y.len() && y[i] == e;
                assert(b[i + 1] == e);
                assert(b[0].start < b[i + 1].start);
                assert(b.contains(e));
                assert(a.contains(e));
                let l = choose|l: int| 0 <= l < a.len() && a[l] == e;
                assert(x[l - 1] == e);
            }
        }
        lemma_same_order(bytes, x, y);
        assert(a =~= seq![a[0]] + x);
        assert(b =~= seq![b[0]] + y);
    }
}

proof fn lemma_in_order_tail(bytes: Seq<u8>, sorted: Seq<EditModel>)
    requires
        edits_in_order(bytes, sorted),
        sorted.len() > 0,
    ensures
        edits_in_order(bytes, sorted.drop_first()),
{
    let rest = sorted.drop_first();
    assert forall|i: int| 0 <= i < rest.len() implies 0 <= (#[trigger] rest[i]).start
        <= rest[i].end <= bytes.len() && on_boundary(bytes, rest[i].start) && on_boundary(
        bytes,
        rest[i].end,
    ) by {
        assert(rest[i] == sorted[i + 1]);
    }
    assert forall|i: int, j: int| 0 <= i < j < rest.len() implies (#[trigger] rest[i]).start < (
    #[trigger] rest[j]).start && rest[i].end <= rest[j].start by {
        assert(sorted[i + 1].start < sorted[j + 1].start);
    }
}

/// A range between characters holds valid text.
pub proof fn lemma_subrange_is_text(bytes: Seq<u8>, start: int, end: int)
    requires
        valid_utf8(bytes),
        0 <= start <= end <= bytes.len(),
        on_boundary(bytes, start),
        on_boundary(bytes, end),
    ensures
        valid_utf8(bytes.subrange(start, end)),
{
    lemma_boundary(bytes, start);
    lemma_boundary(bytes, end);
    valid_utf8_split(bytes, end);
    let front = bytes.subrange(0, end);
    assert(on_boundary(front, start)) by {
        if start < end {
            assert(front[start] == bytes[start]);
        }
    }
    lemma_boundary(front, start);
    valid_utf8_split(front, start);
    assert(front.subrange(start, end) =~= bytes.subrange(start, end));
}

} // verus!

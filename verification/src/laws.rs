//! The laws the library states of itself, proved once and for all: what a
//! scalar becomes in the output, where a reference resolves to, that
//! flattening is deterministic, and that sequences keep their order.

use crate::memory::{
    allocate_model, cell_ok, flat_cells, flat_tokens, lemma_flat_cells_index, segment_offset,
    token_views, written_items, DynamicMemory, EntryView,
};
use crate::render::{dec_digits, hex_text};
use vstd::prelude::*;

verus! {

/// The total number of cells in the segments of `segs`.
pub open spec fn length_sum(segs: Seq<Seq<EntryView>>) -> int
    decreases segs.len(),
{
    if segs.len() == 0 {
        0
    } else {
        length_sum(segs.drop_last()) + segs.last().len()
    }
}

/// One scalar cell per value, in order.
pub open spec fn value_cells(items: Seq<u64>) -> Seq<EntryView> {
    items.map_values(|v: u64| EntryView::Value(v))
}

/// The concatenation of all segments is as long as their lengths sum.
pub proof fn lemma_flat_cells_len(segs: Seq<Seq<EntryView>>)
    ensures
        flat_cells(segs).len() == length_sum(segs),
    decreases segs.len(),
{
    if segs.len() > 0 {
        lemma_flat_cells_len(segs.drop_last());
    }
}

/// Law (scalar round trip): a scalar cell, wherever it stands in the tree of
/// segments, becomes exactly one output token — the one at its position in
/// the concatenated layout — and that token is the hexadecimal rendering of
/// its value, independent of nesting depth.
pub proof fn lemma_scalar_round_trip(segs: Seq<Seq<EntryView>>, seg: int, j: int)
    requires
        0 <= seg < segs.len(),
        0 <= j < segs[seg].len(),
        segs[seg][j] is Value,
    ensures
        0 <= segment_offset(segs, seg) + j < flat_tokens(segs).len(),
        flat_tokens(segs)[segment_offset(segs, seg) + j] == hex_text(
            segs[seg][j]->Value_0 as nat,
        ),
{
    lemma_flat_cells_index(segs, seg, j);
}

/// Law (offset correctness): the absolute offset rendered for any reference
/// cell equals the sum of the lengths of all segments standing strictly
/// before the referenced segment in the concatenated layout.
pub proof fn lemma_offset_correctness(segs: Seq<Seq<EntryView>>, seg: int, j: int)
    requires
        0 <= seg < segs.len(),
        0 <= j < segs[seg].len(),
        segs[seg][j] is Pointer,
        cell_ok(segs[seg][j], segs.len() as int),
    ensures
        flat_tokens(segs)[segment_offset(segs, seg) + j] == dec_digits(
            length_sum(segs.take(segs[seg][j]->Pointer_0 as int)) as nat,
        ),
{
    lemma_flat_cells_index(segs, seg, j);
    lemma_flat_cells_len(segs.take(segs[seg][j]->Pointer_0 as int));
}

/// Law (determinism): flattening is a pure function of the finished store.
/// `serialize` ensures that its output text equals `flat_tokens` of the
/// store, so two serializations of the same store can differ in nothing.
pub proof fn lemma_flatten_deterministic(m: &DynamicMemory, out1: Seq<String>, out2: Seq<String>)
    requires
        token_views(out1) == flat_tokens(m@),
        token_views(out2) == flat_tokens(m@),
    ensures
        token_views(out1) == token_views(out2),
{
}

/// After a sequence of scalars writes itself through a writer bound to
/// segment `seg`, that segment has gained one scalar cell per item, in the
/// order of the sequence, and no other segment has changed.
pub proof fn lemma_written_scalars(items: Seq<u64>, segs: Seq<Seq<EntryView>>, seg: int)
    requires
        0 <= seg < segs.len(),
    ensures
        written_items(items, segs, seg).len() == segs.len(),
        written_items(items, segs, seg)[seg] == segs[seg] + value_cells(items),
        forall|i: int|
            0 <= i < segs.len() && i != seg ==> #[trigger] written_items(items, segs, seg)[i]
                == segs[i],
    decreases items.len(),
{
    if items.len() == 0 {
        assert(segs[seg] + value_cells(items) =~= segs[seg]);
    } else {
        lemma_written_scalars(items.drop_last(), segs, seg);
        assert(value_cells(items) =~= value_cells(items.drop_last()).push(
            EntryView::Value(items.last()),
        ));
        assert(written_items(items, segs, seg)[seg] =~= segs[seg] + value_cells(items));
    }
}

/// Law (order preservation): for a sequence of scalar items written via
/// `write_array`, the child segment holds exactly their cells in input
/// order, and its flattened tokens appear in that same order: token `k` of
/// the child segment is the hexadecimal rendering of item `k`.
pub proof fn lemma_order_preservation(items: Seq<u64>, segs: Seq<Seq<EntryView>>, seg: int, k: int)
    requires
        0 <= seg < segs.len(),
        0 <= k < items.len(),
    ensures
        written_items(items, allocate_model(segs, seg), segs.len() as int)[segs.len() as int]
            == value_cells(items),
        flat_tokens(written_items(items, allocate_model(segs, seg), segs.len() as int))[
            segment_offset(
                written_items(items, allocate_model(segs, seg), segs.len() as int),
                segs.len() as int,
            ) + k] == hex_text(items[k] as nat),
{
    let child = segs.len() as int;
    let base = allocate_model(segs, seg);
    let after = written_items(items, base, child);
    lemma_written_scalars(items, base, child);
    assert(after[child] =~= value_cells(items));
    assert(after[child][k] == EntryView::Value(items[k]));
    lemma_flat_cells_index(after, child, k);
}

} // verus!

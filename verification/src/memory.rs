//! The segment store and its write cursor.
//!
//! A build session owns one [`DynamicMemory`]: an ordered, append-only set of
//! segments together with the id of the segment currently being written.
//! Scalars and references are appended as [`MemoryEntry`] cells; nested
//! sequences allocate fresh segments.  [`DynamicMemory::serialize`] collapses
//! the finished store into one flat sequence of text tokens in which every
//! reference has become an absolute offset.

use crate::render::{dec_digits, dec_token, hex_text, hex_token};
use vstd::prelude::*;

verus! {

/// The mathematical content of one memory cell: either a raw scalar value or
/// a reference to the segment with the given id.
pub enum EntryView {
    Value(u64),
    Pointer(u64),
}

#[derive(Copy, Clone)]
enum MemoryEntryType {
    Pointer,
    Value,
}

/// One unit of output memory: a tagged cell holding either a raw scalar or a
/// reference to another segment.  Cells are immutable once written.
#[derive(Copy, Clone)]
pub struct MemoryEntry {
    entry_type: MemoryEntryType,
    value: u64,
}

impl View for MemoryEntry {
    type V = EntryView;

    closed spec fn view(&self) -> EntryView {
        match self.entry_type {
            MemoryEntryType::Pointer => EntryView::Pointer(self.value),
            MemoryEntryType::Value => EntryView::Value(self.value),
        }
    }
}

impl MemoryEntry {
    /// A reference cell holding the segment id assigned at allocation time;
    /// its validity against the final store is checked only at flatten time.
    pub fn new_pointer(value: usize) -> (e: MemoryEntry)
        ensures
            e@ == EntryView::Pointer(value as u64),
    {
        MemoryEntry { entry_type: MemoryEntryType::Pointer, value: value as u64 }
    }

    /// A scalar cell.
    pub fn new_value(value: u64) -> (e: MemoryEntry)
        ensures
            e@ == EntryView::Value(value),
    {
        MemoryEntry { entry_type: MemoryEntryType::Value, value }
    }

    /// Renders a scalar cell as an unsigned hexadecimal literal.
    pub fn to_hex(&self) -> (s: String)
        requires
            self@ is Value,
        ensures
            s@ == hex_text(self@->Value_0 as nat),
    {
        hex_token(self.value)
    }

    /// Resolves a reference cell against the offset table and renders the
    /// absolute offset of the referenced segment in base 10.
    pub fn make_absolute(&self, pointers: &Vec<usize>) -> (s: String)
        requires
            self@ is Pointer,
            (self@->Pointer_0 as int) < pointers@.len(),
        ensures
            s@ == dec_digits(pointers@[self@->Pointer_0 as int] as nat),
    {
        proof {
            assert(pointers@.len() <= usize::MAX) by {
                assert(pointers.len() == pointers@.len());
            }
        }
        let pointer: usize = pointers[self.value as usize];
        dec_token(pointer as u64)
    }
}

/// Whether one cell's reference, if it is one, stays below the segment count
/// `n`.
pub open spec fn cell_ok(c: EntryView, n: int) -> bool {
    c is Pointer ==> (c->Pointer_0 as int) < n
}

/// Whether every reference cell anywhere in the store stays below `n`.
pub open spec fn all_cells_ok(segs: Seq<Seq<EntryView>>, n: int) -> bool {
    forall|i: int, j: int|
        0 <= i < segs.len() && 0 <= j < segs[i].len() ==> cell_ok(#[trigger] segs[i][j], n)
}

/// Whether every reference cell anywhere in the store names an existing
/// segment.  This is the invariant that must hold at flatten time.
pub open spec fn valid_segments(segs: Seq<Seq<EntryView>>) -> bool {
    all_cells_ok(segs, segs.len() as int)
}

/// The cells of a segment as their mathematical content.
pub open spec fn entries_view(v: Seq<MemoryEntry>) -> Seq<EntryView> {
    v.map_values(|e: MemoryEntry| e@)
}

/// The text of a sequence of tokens.
pub open spec fn token_views(v: Seq<String>) -> Seq<Seq<char>> {
    v.map_values(|s: String| s@)
}

/// All cells of all segments, concatenated in segment order; the flatten
/// order of the final output.
pub open spec fn flat_cells(segs: Seq<Seq<EntryView>>) -> Seq<EntryView>
    decreases segs.len(),
{
    if segs.len() == 0 {
        Seq::empty()
    } else {
        flat_cells(segs.drop_last()) + segs.last()
    }
}

/// The absolute starting position of segment `id` in the concatenated
/// layout.
pub open spec fn segment_offset(segs: Seq<Seq<EntryView>>, id: int) -> int {
    flat_cells(segs.take(id)).len() as int
}

/// The text token that one cell becomes: a scalar is rendered in hexadecimal,
/// a reference as the decimal absolute offset of the segment it names.
pub open spec fn render_cell(segs: Seq<Seq<EntryView>>, c: EntryView) -> Seq<char> {
    match c {
        EntryView::Value(v) => hex_text(v as nat),
        EntryView::Pointer(p) => dec_digits(segment_offset(segs, p as int) as nat),
    }
}

/// The whole flattened output: one token per cell, in flatten order.
pub open spec fn flat_tokens(segs: Seq<Seq<EntryView>>) -> Seq<Seq<char>> {
    flat_cells(segs).map_values(|c: EntryView| render_cell(segs, c))
}

/// A store as it stands after appending one cell to segment `seg`.
pub open spec fn appended(segs: Seq<Seq<EntryView>>, seg: int, c: EntryView) -> Seq<
    Seq<EntryView>,
> {
    segs.update(seg, segs[seg].push(c))
}

/// A store as it stands after allocating one fresh segment from a writer
/// bound to segment `seg`: the parent gains a reference cell naming the new
/// segment, and an empty segment is appended.
pub open spec fn allocate_model(segs: Seq<Seq<EntryView>>, seg: int) -> Seq<Seq<EntryView>> {
    appended(segs, seg, EntryView::Pointer(segs.len() as u64)).push(Seq::empty())
}

/// Whether `post` can stand after `pre` in one build session: segments are
/// never deleted, and cells are never edited or removed.
pub open spec fn grows_from(pre: Seq<Seq<EntryView>>, post: Seq<Seq<EntryView>>) -> bool {
    &&& pre.len() <= post.len()
    &&& forall|j: int| 0 <= j < pre.len() ==> (#[trigger] pre[j]).is_prefix_of(post[j])
}

/// Appending a cell to a segment appends its content to the segment's view.
pub proof fn lemma_entries_view_push(v: Seq<MemoryEntry>, e: MemoryEntry)
    ensures
        entries_view(v.push(e)) == entries_view(v).push(e@),
{
    assert(entries_view(v.push(e)) =~= entries_view(v).push(e@));
}

/// Every cell of the concatenation is a cell of some segment, so a bound that
/// holds of every cell of every segment holds of every concatenated cell.
pub proof fn lemma_flat_cells_cell_ok(segs: Seq<Seq<EntryView>>, n: int, t: int)
    requires
        all_cells_ok(segs, n),
        0 <= t < flat_cells(segs).len(),
    ensures
        cell_ok(flat_cells(segs)[t], n),
    decreases segs.len(),
{
    if segs.len() > 0 {
        let pre = flat_cells(segs.drop_last());
        if t < pre.len() {
            assert(all_cells_ok(segs.drop_last(), n)) by {
                assert forall|i: int, j: int|
                    0 <= i < segs.drop_last().len() && 0 <= j < segs.drop_last()[i].len() implies cell_ok(
                    #[trigger] segs.drop_last()[i][j],
                    n,
                ) by {
                    assert(segs.drop_last()[i] == segs[i]);
                }
            }
            lemma_flat_cells_cell_ok(segs.drop_last(), n, t);
        } else {
            assert(cell_ok(segs[segs.len() - 1][t - pre.len()], n));
        }
    }
}

/// In the concatenated layout, segment `id` starts at its offset: its cell
/// `j` stands at position `segment_offset(segs, id) + j`.
pub proof fn lemma_flat_cells_index(segs: Seq<Seq<EntryView>>, id: int, j: int)
    requires
        0 <= id < segs.len(),
        0 <= j < segs[id].len(),
    ensures
        0 <= segment_offset(segs, id) + j < flat_cells(segs).len(),
        flat_cells(segs)[segment_offset(segs, id) + j] == segs[id][j],
    decreases segs.len(),
{
    if id == segs.len() - 1 {
        assert(segs.take(id) =~= segs.drop_last());
    } else {
        lemma_flat_cells_index(segs.drop_last(), id, j);
        assert(segs.drop_last().take(id) =~= segs.take(id));
        assert(segs.drop_last()[id] == segs[id]);
    }
}

/// Appending one cell keeps every cell already written in place.
pub proof fn lemma_appended_grows(segs: Seq<Seq<EntryView>>, seg: int, c: EntryView)
    requires
        0 <= seg < segs.len(),
    ensures
        grows_from(segs, appended(segs, seg, c)),
{
    let post = appended(segs, seg, c);
    assert forall|j: int| 0 <= j < segs.len() implies (#[trigger] segs[j]).is_prefix_of(
        post[j],
    ) by {
        assert(segs[j] =~= post[j].subrange(0, segs[j].len() as int));
    }
}

/// Appending a cell that respects a segment-count bound keeps every cell of
/// the store within that bound.
pub proof fn lemma_appended_cells_ok(segs: Seq<Seq<EntryView>>, seg: int, c: EntryView, n: int)
    requires
        all_cells_ok(segs, n),
        cell_ok(c, n),
        0 <= seg < segs.len(),
    ensures
        all_cells_ok(appended(segs, seg, c), n),
{
    let post = appended(segs, seg, c);
    assert forall|i: int, j: int|
        0 <= i < post.len() && 0 <= j < post[i].len() implies cell_ok(#[trigger] post[i][j], n) by {
        if i == seg && j == segs[seg].len() {
            assert(post[i][j] == c);
        } else {
            assert(post[i][j] == segs[i][j]);
        }
    }
}

/// One scalar append meets every structural clause of the writer capability
/// contract: it only grows the store and cannot invalidate any reference.
pub proof fn lemma_value_step(pre: Seq<Seq<EntryView>>, seg: int, v: u64)
    requires
        0 <= seg < pre.len(),
    ensures
        grows_from(pre, appended(pre, seg, EntryView::Value(v))),
        valid_segments(pre) ==> valid_segments(appended(pre, seg, EntryView::Value(v))),
{
    lemma_appended_grows(pre, seg, EntryView::Value(v));
    if valid_segments(pre) {
        lemma_appended_cells_ok(pre, seg, EntryView::Value(v), pre.len() as int);
        assert(appended(pre, seg, EntryView::Value(v)).len() == pre.len());
    }
}

/// Growth steps chain: what can follow `b` after it grew from `a` has also
/// grown from `a`.
pub proof fn lemma_grows_trans(
    a: Seq<Seq<EntryView>>,
    b: Seq<Seq<EntryView>>,
    c: Seq<Seq<EntryView>>,
)
    requires
        grows_from(a, b),
        grows_from(b, c),
    ensures
        grows_from(a, c),
{
    assert forall|j: int| 0 <= j < a.len() implies (#[trigger] a[j]).is_prefix_of(c[j]) by {
        assert(a[j].is_prefix_of(b[j]));
        assert(b[j].is_prefix_of(c[j]));
        assert(a[j] =~= c[j].subrange(0, a[j].len() as int));
    }
}

/// Allocating a fresh segment only grows the store.
pub proof fn lemma_allocate_grows(segs: Seq<Seq<EntryView>>, seg: int)
    requires
        0 <= seg < segs.len(),
    ensures
        grows_from(segs, allocate_model(segs, seg)),
{
    let mid = appended(segs, seg, EntryView::Pointer(segs.len() as u64));
    lemma_appended_grows(segs, seg, EntryView::Pointer(segs.len() as u64));
    assert forall|j: int| 0 <= j < segs.len() implies (#[trigger] segs[j]).is_prefix_of(
        allocate_model(segs, seg)[j],
    ) by {
        assert(allocate_model(segs, seg)[j] == mid[j]);
    }
}

/// Allocating a fresh segment keeps every reference valid: the cell it
/// appends names the segment it creates.
pub proof fn lemma_allocate_valid(segs: Seq<Seq<EntryView>>, seg: int)
    requires
        valid_segments(segs),
        0 <= seg < segs.len(),
        segs.len() <= u64::MAX,
    ensures
        valid_segments(allocate_model(segs, seg)),
{
    let post = allocate_model(segs, seg);
    let mid = appended(segs, seg, EntryView::Pointer(segs.len() as u64));
    assert forall|i: int, j: int|
        0 <= i < post.len() && 0 <= j < post[i].len() implies cell_ok(
        #[trigger] post[i][j],
        post.len() as int,
    ) by {
        assert(i < mid.len());
        assert(post[i][j] == mid[i][j]);
        if i == seg && j == segs[seg].len() {
            assert(mid[i][j] == EntryView::Pointer(segs.len() as u64));
            assert((segs.len() as u64) as int == segs.len() as int);
        } else {
            assert(mid[i][j] == segs[i][j]);
            assert(cell_ok(segs[i][j], segs.len() as int));
        }
    }
}

/// The store of segments under construction, together with the id of the
/// segment the cursor is bound to.  Owned exclusively by the build session;
/// segments are dense, ordered by creation, and only ever appended to.
pub struct DynamicMemory {
    memories: Vec<Vec<MemoryEntry>>,
    segment: usize,
}

impl View for DynamicMemory {
    type V = Seq<Seq<EntryView>>;

    closed spec fn view(&self) -> Seq<Seq<EntryView>> {
        self.memories@.map_values(|m: Vec<MemoryEntry>| entries_view(m@))
    }
}

impl DynamicMemory {
    /// The id of the segment the cursor is bound to.
    pub closed spec fn segment_id(&self) -> int {
        self.segment as int
    }

    /// The cursor is bound to a segment that exists.
    pub open spec fn wf(&self) -> bool {
        0 <= self.segment_id() < self@.len()
    }

    /// A fresh store holding one empty root segment, with the cursor bound to
    /// it.
    pub fn new() -> (m: DynamicMemory)
        ensures
            m.wf(),
            m.segment_id() == 0,
            m@ == seq![Seq::<EntryView>::empty()],
    {
        let mut memories: Vec<Vec<MemoryEntry>> = Vec::new();
        memories.push(Vec::new());
        let m = DynamicMemory { memories, segment: 0 };
        proof {
            assert(m@ =~~= seq![Seq::<EntryView>::empty()]);
        }
        m
    }

    fn write_entry(&mut self, entry: MemoryEntry)
        requires
            old(self).wf(),
        ensures
            final(self).wf(),
            final(self).segment_id() == old(self).segment_id(),
            final(self)@ == appended(old(self)@, old(self).segment_id(), entry@),
    {
        let seg: usize = self.segment;
        self.memories[seg].push(entry);
        proof {
            assert(self@ =~~= appended(old(self)@, old(self).segment_id(), entry@));
        }
    }

    /// Appends a reference cell naming segment `pointer` to the bound
    /// segment.
    pub fn write_pointer(&mut self, pointer: usize)
        requires
            old(self).wf(),
        ensures
            final(self).wf(),
            final(self).segment_id() == old(self).segment_id(),
            final(self)@ == appended(
                old(self)@,
                old(self).segment_id(),
                EntryView::Pointer(pointer as u64),
            ),
    {
        self.write_entry(MemoryEntry::new_pointer(pointer))
    }

    /// Appends a scalar cell to the bound segment.
    pub fn write_value(&mut self, value: u64)
        requires
            old(self).wf(),
        ensures
            final(self).wf(),
            final(self).segment_id() == old(self).segment_id(),
            final(self)@ == appended(old(self)@, old(self).segment_id(), EntryView::Value(value)),
    {
        self.write_entry(MemoryEntry::new_value(value))
    }

    /// Allocates one fresh segment — recording a single reference cell to it
    /// in the bound segment — and lets each item of `array`, in order, write
    /// itself through a writer bound to the new segment.
    pub fn write_array<T: Writeable>(&mut self, array: Vec<T>)
        requires
            old(self).wf(),
        ensures
            final(self).wf(),
            final(self).segment_id() == old(self).segment_id(),
            final(self)@ == written_items(
                array@,
                allocate_model(old(self)@, old(self).segment_id()),
                old(self)@.len() as int,
            ),
            grows_from(old(self)@, final(self)@),
            valid_segments(old(self)@) ==> valid_segments(final(self)@),
    {
        self.write_items(&array)
    }

    /// The shared body of `write_array` and of a nested sequence writing
    /// itself: allocates the child segment and lets each item of `array`
    /// write itself through a writer bound to it.
    #[verifier::loop_isolation(false)]
    fn write_items<T: Writeable>(&mut self, array: &Vec<T>)
        requires
            old(self).wf(),
        ensures
            final(self).wf(),
            final(self).segment_id() == old(self).segment_id(),
            final(self)@ == written_items(
                array@,
                allocate_model(old(self)@, old(self).segment_id()),
                old(self)@.len() as int,
            ),
            grows_from(old(self)@, final(self)@),
            valid_segments(old(self)@) ==> valid_segments(final(self)@),
    {
        proof {
            assert(self@.len() <= usize::MAX) by {
                assert(self.memories.len() == self.memories@.len());
            }
        }
        let parent: usize = self.segment;
        let child: usize = self.allocate();
        proof {
            lemma_allocate_grows(old(self)@, parent as int);
            if valid_segments(old(self)@) {
                lemma_allocate_valid(old(self)@, parent as int);
            }
        }
        let ghost start: Seq<Seq<EntryView>> = self@;
        self.segment = child;
        let mut idx: usize = 0;
        while idx < array.len()
            invariant
                idx <= array.len(),
                self.wf(),
                self.segment_id() == child as int,
                self@ == written_items(array@.take(idx as int), start, child as int),
                grows_from(start, self@),
                valid_segments(start) ==> valid_segments(self@),
            decreases array.len() - idx,
        {
            let ghost before: Seq<Seq<EntryView>> = self@;
            let item: &T = &array[idx];
            item.write_into(self);
            proof {
                assert(array@.take(idx as int + 1).drop_last() =~= array@.take(idx as int));
                assert(array@.take(idx as int + 1).last() == array@[idx as int]);
                lemma_grows_trans(start, before, self@);
            }
            idx += 1;
        }
        self.segment = parent;
        proof {
            assert(array@.take(array.len() as int) =~= array@);
            lemma_grows_trans(old(self)@, start, self@);
        }
    }

    /// Like `write_array`, but each item also receives a context value,
    /// computed by `f` from the item's zero-based position in the sequence;
    /// positions are assigned 0, 1, 2, … with no gaps.
    #[verifier::loop_isolation(false)]
    pub fn write_array_with<Q, T: WriteableWith<Q>, F: Fn(usize) -> Q>(
        &mut self,
        array: Vec<T>,
        f: F,
    )
        requires
            old(self).wf(),
            forall|k: usize| k < array@.len() ==> call_requires(f, (k,)),
        ensures
            final(self).wf(),
            final(self).segment_id() == old(self).segment_id(),
            grows_from(old(self)@, final(self)@),
            valid_segments(old(self)@) ==> valid_segments(final(self)@),
            exists|contexts: Seq<Q>|
                {
                    &&& contexts.len() == array@.len()
                    &&& forall|k: int|
                        0 <= k < contexts.len() ==> call_ensures(
                            f,
                            (k as usize,),
                            #[trigger] contexts[k],
                        )
                    &&& final(self)@ == #[trigger] written_items_with(
                        array@,
                        contexts,
                        allocate_model(old(self)@, old(self).segment_id()),
                        old(self)@.len() as int,
                    )
                },
    {
        proof {
            assert(self@.len() <= usize::MAX) by {
                assert(self.memories.len() == self.memories@.len());
            }
        }
        let parent: usize = self.segment;
        let child: usize = self.allocate();
        proof {
            lemma_allocate_grows(old(self)@, parent as int);
            if valid_segments(old(self)@) {
                lemma_allocate_valid(old(self)@, parent as int);
            }
        }
        let ghost start: Seq<Seq<EntryView>> = self@;
        self.segment = child;
        let ghost mut contexts: Seq<Q> = Seq::empty();
        let mut idx: usize = 0;
        while idx < array.len()
            invariant
                idx <= array.len(),
                self.wf(),
                self.segment_id() == child as int,
                contexts.len() == idx as int,
                forall|k: int|
                    0 <= k < idx as int ==> call_ensures(f, (k as usize,), #[trigger] contexts[k]),
                self@ == written_items_with(array@.take(idx as int), contexts, start, child as int),
                grows_from(start, self@),
                valid_segments(start) ==> valid_segments(self@),
            decreases array.len() - idx,
        {
            let ghost before: Seq<Seq<EntryView>> = self@;
            let ghost prior: Seq<Q> = contexts;
            let params: Q = f(idx);
            proof {
                contexts = contexts.push(params);
            }
            let item: &T = &array[idx];
            item.write_into(self, params);
            proof {
                assert(array@.take(idx as int + 1).drop_last() =~= array@.take(idx as int));
                assert(array@.take(idx as int + 1).last() == array@[idx as int]);
                assert(contexts.drop_last() =~= prior);
                lemma_grows_trans(start, before, self@);
            }
            idx += 1;
        }
        self.segment = parent;
        proof {
            assert(array@.take(array.len() as int) =~= array@);
            lemma_grows_trans(old(self)@, start, self@);
        }
    }

    /// Concatenates all segments in creation order, computes each segment's
    /// absolute starting offset, and renders every cell as a text token:
    /// scalars in hexadecimal, references as the decimal absolute offset of
    /// the segment they name.
    #[verifier::loop_isolation(false)]
    pub fn serialize(&self) -> (out: Vec<String>)
        requires
            valid_segments(self@),
        ensures
            token_views(out@) == flat_tokens(self@),
    {
        let mut concatenated: Vec<MemoryEntry> = Vec::new();
        let mut pointers: Vec<usize> = Vec::new();
        let n: usize = self.memories.len();
        let mut k: usize = 0;
        while k < n
            invariant
                k <= n,
                pointers@.len() == k as int,
                forall|j: int| 0 <= j < k as int ==> pointers@[j] as int == segment_offset(self@, j),
                entries_view(concatenated@) == flat_cells(self@.take(k as int)),
            decreases n - k,
        {
            pointers.push(concatenated.len());
            let seg: &Vec<MemoryEntry> = &self.memories[k];
            proof {
                assert(self@[k as int] == entries_view(seg@));
            }
            let m: usize = seg.len();
            let mut j: usize = 0;
            while j < m
                invariant
                    j <= m,
                    entries_view(concatenated@) == flat_cells(self@.take(k as int)) + self@[
                        k as int
                    ].take(j as int),
                decreases m - j,
            {
                let ghost pre: Seq<MemoryEntry> = concatenated@;
                concatenated.push(seg[j]);
                proof {
                    lemma_entries_view_push(pre, seg@[j as int]);
                    assert(self@[k as int][j as int] == seg@[j as int]@);
                    assert(entries_view(concatenated@) =~= flat_cells(self@.take(k as int))
                        + self@[k as int].take(j as int + 1));
                }
                j += 1;
            }
            proof {
                assert(self@[k as int].take(m as int) =~= self@[k as int]);
                assert(self@.take(k as int + 1).drop_last() =~= self@.take(k as int));
                assert(self@.take(k as int + 1).last() == self@[k as int]);
            }
            k += 1;
        }
        proof {
            assert(self@.take(n as int) =~= self@);
        }
        let total: usize = concatenated.len();
        let mut out: Vec<String> = Vec::new();
        let mut i: usize = 0;
        while i < total
            invariant
                i <= total,
                out@.len() == i as int,
                forall|t: int|
                    0 <= t < i as int ==> (#[trigger] out@[t])@ == render_cell(
                        self@,
                        flat_cells(self@)[t],
                    ),
            decreases total - i,
        {
            let entry: MemoryEntry = concatenated[i];
            proof {
                assert(entry@ == flat_cells(self@)[i as int]);
                lemma_flat_cells_cell_ok(self@, self@.len() as int, i as int);
            }
            let token: String = match entry.entry_type {
                MemoryEntryType::Pointer => entry.make_absolute(&pointers),
                MemoryEntryType::Value => entry.to_hex(),
            };
            out.push(token);
            i += 1;
        }
        proof {
            assert(token_views(out@) =~= flat_tokens(self@));
        }
        out
    }

    /// Creates a fresh empty segment, records a reference cell to it in the
    /// bound segment, and returns its id; the sole mechanism for building
    /// nested structure.
    fn allocate(&mut self) -> (child: usize)
        requires
            old(self).wf(),
        ensures
            final(self).wf(),
            final(self).segment_id() == old(self).segment_id(),
            child as int == old(self)@.len(),
            final(self)@ == allocate_model(old(self)@, old(self).segment_id()),
    {
        let child: usize = self.memories.len();
        self.write_pointer(child);
        self.memories.push(Vec::new());
        proof {
            assert(self@ =~~= allocate_model(old(self)@, old(self).segment_id()));
        }
        child
    }
}

/// The capability of a value type to serialize itself into a bound writer
/// with no external context.  `write_model` is the type's own statement of
/// what it writes; `write_into` performs exactly that, may only append, and
/// never dangles a reference.
pub trait Writeable {
    /// The store as it stands after `self` has written itself through a
    /// writer bound to segment `seg`.
    spec fn write_model(&self, segs: Seq<Seq<EntryView>>, seg: int) -> Seq<Seq<EntryView>>;

    /// Serializes `self` into the segment `target` is bound to.
    fn write_into(&self, target: &mut DynamicMemory)
        requires
            old(target).wf(),
        ensures
            final(target).wf(),
            final(target).segment_id() == old(target).segment_id(),
            final(target)@ == self.write_model(old(target)@, old(target).segment_id()),
            grows_from(old(target)@, final(target)@),
            valid_segments(old(target)@) ==> valid_segments(final(target)@),
    ;
}

/// The capability of a value type to serialize itself into a bound writer
/// given a caller-supplied context, typically computed from the value's
/// position within an enclosing sequence.
pub trait WriteableWith<Parameters> {
    /// The store as it stands after `self`, handed `params`, has written
    /// itself through a writer bound to segment `seg`.
    spec fn write_model(&self, params: Parameters, segs: Seq<Seq<EntryView>>, seg: int) -> Seq<
        Seq<EntryView>,
    >;

    /// Serializes `self` into the segment `target` is bound to, using
    /// `params`.
    fn write_into(&self, target: &mut DynamicMemory, params: Parameters)
        requires
            old(target).wf(),
        ensures
            final(target).wf(),
            final(target).segment_id() == old(target).segment_id(),
            final(target)@ == self.write_model(params, old(target)@, old(target).segment_id()),
            grows_from(old(target)@, final(target)@),
            valid_segments(old(target)@) ==> valid_segments(final(target)@),
    ;
}

/// The store after the items of a sequence have written themselves, in
/// order, through a writer bound to segment `seg`.
pub open spec fn written_items<T: Writeable>(
    items: Seq<T>,
    segs: Seq<Seq<EntryView>>,
    seg: int,
) -> Seq<Seq<EntryView>>
    decreases items.len(),
{
    if items.len() == 0 {
        segs
    } else {
        items.last().write_model(written_items(items.drop_last(), segs, seg), seg)
    }
}

/// The store after the items of a sequence have written themselves, in
/// order, through a writer bound to segment `seg`, each handed the context
/// standing at its position in `contexts`.
pub open spec fn written_items_with<Q, T: WriteableWith<Q>>(
    items: Seq<T>,
    contexts: Seq<Q>,
    segs: Seq<Seq<EntryView>>,
    seg: int,
) -> Seq<Seq<EntryView>>
    decreases items.len(),
{
    if items.len() == 0 {
        segs
    } else {
        items.last().write_model(
            contexts.last(),
            written_items_with(items.drop_last(), contexts.drop_last(), segs, seg),
            seg,
        )
    }
}

impl Writeable for u8 {
    open spec fn write_model(&self, segs: Seq<Seq<EntryView>>, seg: int) -> Seq<Seq<EntryView>> {
        appended(segs, seg, EntryView::Value(*self as u64))
    }

    fn write_into(&self, target: &mut DynamicMemory) {
        target.write_value(*self as u64);
        proof {
            lemma_value_step(old(target)@, old(target).segment_id(), *self as u64);
        }
    }
}

impl Writeable for u32 {
    open spec fn write_model(&self, segs: Seq<Seq<EntryView>>, seg: int) -> Seq<Seq<EntryView>> {
        appended(segs, seg, EntryView::Value(*self as u64))
    }

    fn write_into(&self, target: &mut DynamicMemory) {
        target.write_value(*self as u64);
        proof {
            lemma_value_step(old(target)@, old(target).segment_id(), *self as u64);
        }
    }
}

impl Writeable for u64 {
    open spec fn write_model(&self, segs: Seq<Seq<EntryView>>, seg: int) -> Seq<Seq<EntryView>> {
        appended(segs, seg, EntryView::Value(*self))
    }

    fn write_into(&self, target: &mut DynamicMemory) {
        target.write_value(*self);
        proof {
            lemma_value_step(old(target)@, old(target).segment_id(), *self);
        }
    }
}

impl Writeable for usize {
    open spec fn write_model(&self, segs: Seq<Seq<EntryView>>, seg: int) -> Seq<Seq<EntryView>> {
        appended(segs, seg, EntryView::Value(*self as u64))
    }

    fn write_into(&self, target: &mut DynamicMemory) {
        target.write_value(*self as u64);
        proof {
            lemma_value_step(old(target)@, old(target).segment_id(), *self as u64);
        }
    }
}

/// A nested sequence: writes itself by allocating one fresh segment —
/// leaving a single reference cell in the bound segment — and letting each of
/// its items, in order, write itself into the new segment.
impl<T: Writeable> Writeable for Vec<T> {
    open spec fn write_model(&self, segs: Seq<Seq<EntryView>>, seg: int) -> Seq<Seq<EntryView>> {
        written_items(self@, allocate_model(segs, seg), segs.len() as int)
    }

    fn write_into(&self, target: &mut DynamicMemory) {
        target.write_items(self)
    }
}

/// A scalar written together with caller-supplied positional context: the
/// context is recorded as one scalar cell, followed by the value itself.
impl WriteableWith<u64> for u64 {
    open spec fn write_model(&self, params: u64, segs: Seq<Seq<EntryView>>, seg: int) -> Seq<
        Seq<EntryView>,
    > {
        appended(appended(segs, seg, EntryView::Value(params)), seg, EntryView::Value(*self))
    }

    fn write_into(&self, target: &mut DynamicMemory, params: u64) {
        target.write_value(params);
        proof {
            lemma_value_step(old(target)@, old(target).segment_id(), params);
        }
        let ghost mid: Seq<Seq<EntryView>> = target@;
        target.write_value(*self);
        proof {
            lemma_value_step(mid, old(target).segment_id(), *self);
            lemma_grows_trans(old(target)@, mid, target@);
        }
    }
}

} // verus!

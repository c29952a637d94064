//! The execution stack: a single growable array of tagged cells plus a
//! parallel stack of frame-base indices.
//!
//! The layout convention is `[Frame, local_0 .. local_{n-1}, temp_0, ...]`
//! repeated per nested call: a frame sentinel followed by that call's locals
//! and temporaries. The chain of suspended callers is threaded through the
//! data stack itself: opening a frame overwrites the current sentinel with
//! the caller's continuation, and closing it restores the sentinel and hands
//! the continuation back.
//!
//! Abstractly a stack is a [`StackAbs`]: the decoded slots, the frame bases,
//! and the store of shared cells that promoted locals point into. Every
//! operation is specified as a pure transition on that abstraction.

use vstd::prelude::*;

use crate::value::{slot_ok, value_ok, Slot, Suspend, Value};
use crate::tag::{
    bits_wf, box_capacity, decode_bits, lemma_decode_extend, norm_slot, norm_value, Heap, Tagged,
};

verus! {

/// Abstract state of a [`Stack`].
pub ghost struct StackAbs {
    /// Decoded content of each cell, bottom first.
    pub cells: Seq<Slot>,
    /// Frame-base indices, outermost first: each points at the cell that
    /// marks the start of that call's region.
    pub frames: Seq<usize>,
    /// Referents of the shared cells that `Value::Shared` indirections
    /// point at.
    pub shared: Seq<Value>,
}

/// Well-formedness of the abstract stack state. After initialization every
/// operation preserves it: there is always at least the implicit outermost
/// frame, bases are strictly increasing and in range, the newest base holds
/// the frame sentinel while every older base holds the suspended
/// continuation of its caller, and every indirection points into the shared
/// store.
pub open spec fn stack_wf(v: StackAbs) -> bool {
    &&& v.frames.len() >= 1
    &&& v.cells.len() >= 1
    &&& forall|i: int| 0 <= i < v.frames.len() ==> #[trigger] v.frames[i] < v.cells.len()
    &&& forall|i: int, j: int|
        0 <= i < j < v.frames.len() ==> #[trigger] v.frames[i] < #[trigger] v.frames[j]
    &&& v.cells[v.frames.last() as int] == Slot::Frame
    &&& forall|i: int|
        0 <= i < v.frames.len() - 1 ==> #[trigger] v.cells[v.frames[i] as int] is Suspended
    &&& forall|i: int| 0 <= i < v.cells.len() ==> slot_ok(#[trigger] v.cells[i], v.shared.len() as int)
    &&& forall|j: int|
        0 <= j < v.shared.len() ==> value_ok(#[trigger] v.shared[j], v.shared.len() as int)
}

/// The value handed out when the top cell is popped: a `Shared` indirection
/// is never surfaced, its referent is read through instead.
pub open spec fn pop_target(v: StackAbs) -> Value {
    let val = v.cells.last()->Occupied_0;
    match val {
        Value::Shared(h) => v.shared[h as int],
        _ => val,
    }
}

/// Transition of [`Stack::pop_data`]: the top cell leaves the stack.
pub open spec fn pop_data_abs(v: StackAbs) -> StackAbs {
    StackAbs { cells: v.cells.drop_last(), frames: v.frames, shared: v.shared }
}

/// Transition of [`Stack::push_data`]: the value lands on top, after the
/// encoding's normalization of NaN reals.
pub open spec fn push_data_abs(v: StackAbs, d: Value) -> StackAbs {
    StackAbs {
        cells: v.cells.push(Slot::Occupied(norm_value(d))),
        frames: v.frames,
        shared: v.shared,
    }
}

/// Transition of [`Stack::push_frame`]: the current sentinel is overwritten
/// with the caller's continuation, the old stack top becomes the new frame
/// base, and a fresh sentinel goes on top.
pub open spec fn push_frame_abs(v: StackAbs, suspend: Suspend) -> StackAbs {
    StackAbs {
        cells: v.cells.update(v.frames.last() as int, Slot::Suspended(suspend)).push(Slot::Frame),
        frames: v.frames.push(v.cells.len() as usize),
        shared: v.shared,
    }
}

/// Transition of [`Stack::pop_frame`]: the sentinel on top and its base
/// leave, and the previous frame's base slot turns from the suspended
/// continuation back into the sentinel.
pub open spec fn pop_frame_abs(v: StackAbs) -> StackAbs {
    let frames2 = v.frames.drop_last();
    let base = frames2.last() as int;
    StackAbs { cells: v.cells.drop_last().update(base, Slot::Frame), frames: frames2, shared: v.shared }
}

/// The continuation [`Stack::pop_frame`] returns: the one stored at the
/// previous frame's base.
pub open spec fn pop_frame_target(v: StackAbs) -> Suspend {
    v.cells[v.frames.drop_last().last() as int]->Suspended_0
}

/// Position of local `i` of the current frame: locals sit right above the
/// frame sentinel, so local 0 is the cell after the newest base.
pub open spec fn local_index(v: StackAbs, i: int) -> int {
    v.frames.last() + i + 1
}

/// Transition of [`Stack::heapify`]: the local's value moves into a fresh
/// shared cell and the local's slot becomes the indirection to it.
pub open spec fn heapify_abs(v: StackAbs, i: int) -> StackAbs {
    let li = local_index(v, i);
    let val = v.cells[li]->Occupied_0;
    StackAbs {
        cells: v.cells.update(li, Slot::Occupied(Value::Shared(v.shared.len() as usize))),
        frames: v.frames,
        shared: v.shared.push(val),
    }
}

/// The value [`Stack::local_data`] reads: like a pop, a `Shared` indirection
/// is read through to its referent.
pub open spec fn local_read_target(v: StackAbs, i: int) -> Value {
    let val = v.cells[local_index(v, i)]->Occupied_0;
    match val {
        Value::Shared(h) => v.shared[h as int],
        _ => val,
    }
}

/// Transition of [`Stack::set_local`], with its three cases in priority
/// order: a value already sitting where the local lives is a declaration
/// and a no-op; a local holding a `Shared` indirection has its referent
/// replaced, preserving the indirection's identity for every closure that
/// captured it; otherwise the top cell is moved into the local's slot and
/// the old content discarded.
pub open spec fn set_local_abs(v: StackAbs, i: int) -> StackAbs {
    let li = local_index(v, i);
    if li == v.cells.len() - 1 {
        v
    } else if v.cells[li] is Occupied && v.cells[li]->Occupied_0 is Shared {
        let h = v.cells[li]->Occupied_0->Shared_0;
        StackAbs {
            cells: v.cells.drop_last(),
            frames: v.frames,
            shared: v.shared.update(h as int, pop_target(v)),
        }
    } else {
        StackAbs {
            cells: v.cells.drop_last().update(li, v.cells.last()),
            frames: v.frames,
            shared: v.shared,
        }
    }
}

/// Decoded view of a run of tagged cells against a box region.
pub open spec fn cells_view(ts: Seq<Tagged>, boxes: Seq<Slot>) -> Seq<Slot> {
    Seq::new(ts.len(), |i: int| decode_bits(ts[i]@, boxes))
}

/// A stack of tagged cells with its frame bases and its backing heap.
pub struct Stack {
    frames: Vec<usize>,
    stack: Vec<Tagged>,
    heap: Heap,
}

impl View for Stack {
    type V = StackAbs;

    closed spec fn view(&self) -> StackAbs {
        StackAbs {
            cells: cells_view(self.stack@, self.heap@.boxes),
            frames: self.frames@,
            shared: self.heap@.shared,
        }
    }
}

/// The cell and shared regions of a stack always fit the machine word.
proof fn lemma_stack_bounds(s: Stack)
    ensures
        s@.cells.len() <= usize::MAX,
        s@.shared.len() <= usize::MAX,
{
    vstd::std_specs::vec::axiom_spec_len(&s.stack);
    crate::tag::lemma_heap_bounds(&s.heap);
}

/// Every recognized cell keeps its decoding when the box region is extended.
proof fn lemma_cells_view_extend(ts: Seq<Tagged>, boxes: Seq<Slot>, ext: Seq<Slot>)
    requires
        forall|i: int| 0 <= i < ts.len() ==> bits_wf(#[trigger] ts[i]@, boxes.len() as int),
        boxes.is_prefix_of(ext),
    ensures
        cells_view(ts, ext) == cells_view(ts, boxes),
        forall|i: int| 0 <= i < ts.len() ==> bits_wf(#[trigger] ts[i]@, ext.len() as int),
    decreases ts.len(),
{
    assert forall|i: int| 0 <= i < ts.len() implies decode_bits(ts[i]@, ext) == decode_bits(
        ts[i]@,
        boxes,
    ) && bits_wf(ts[i]@, ext.len() as int) by {
        lemma_decode_extend(ts[i]@, boxes, ext);
    }
    assert(cells_view(ts, ext) =~= cells_view(ts, boxes));
}

impl Stack {
    /// Representation invariant: every cell is a recognized encoding against
    /// the heap, and the abstract state is well formed.
    pub closed spec fn inv(self) -> bool {
        &&& forall|i: int|
            0 <= i < self.stack@.len() ==> bits_wf(
                #[trigger] self.stack@[i]@,
                self.heap@.boxes.len() as int,
            )
        &&& stack_wf(self@)
    }

    /// How many box entries the backing heap holds.
    pub closed spec fn boxed_count(self) -> int {
        self.heap@.boxes.len() as int
    }

    /// The heap still has room for `n` boxed cells: a machine limit, since a
    /// pointer-flagged cell addresses boxes through 48 bits.
    pub open spec fn can_alloc(self, n: int) -> bool {
        self.boxed_count() + n <= box_capacity()
    }

    /// A well-formed stack implies its abstraction is well formed; callers
    /// that reason purely at the [`StackAbs`] level start from here.
    pub proof fn lemma_inv_wf(self)
        requires
            self.inv(),
        ensures
            stack_wf(self@),
    {
    }

    /// Creates a new stack holding the single implicit outermost frame: one
    /// base at position zero, one frame sentinel cell.
    pub fn init() -> (s: Stack)
        ensures
            s.inv(),
            s@.cells == seq![Slot::Frame],
            s@.frames == seq![0usize],
            s@.shared == Seq::<Value>::empty(),
            s.boxed_count() <= 1,
    {
        let mut heap = Heap::new();
        let sentinel = Tagged::frame(&mut heap);
        let mut frames: Vec<usize> = Vec::new();
        frames.push(0);
        let mut stack: Vec<Tagged> = Vec::new();
        stack.push(sentinel);
        let s = Stack { frames, stack, heap };
        proof {
            lemma_stack_bounds(s);
            assert(s@.cells =~= seq![Slot::Frame]);
            assert(s@.frames =~= seq![0usize]);
            assert(s@.shared =~= Seq::<Value>::empty());
        }
        s
    }

    /// Number of cells on the stack.
    pub fn len(&self) -> (n: usize)
        ensures
            n == self@.cells.len(),
    {
        self.stack.len()
    }

    /// Number of open frames.
    pub fn frame_count(&self) -> (n: usize)
        ensures
            n == self@.frames.len(),
    {
        self.frames.len()
    }

    /// Base index of the current (innermost) frame.
    fn frame_index(&self) -> (base: usize)
        requires
            self.inv(),
        ensures
            base == self@.frames.last(),
    {
        self.frames[self.frames.len() - 1]
    }

    /// Removes and returns the top cell. An empty stack is a codegen bug:
    /// the contract keeps at least the outermost sentinel in place.
    fn pop(&mut self) -> (t: Tagged)
        requires
            old(self).stack@.len() >= 1,
        ensures
            final(self).stack@ == old(self).stack@.drop_last(),
            t == old(self).stack@.last(),
            final(self).frames@ == old(self).frames@,
            final(self).heap == old(self).heap,
    {
        match self.stack.pop() {
            Some(t) => t,
            None => vstd::pervasive::unreached(),
        }
    }

    /// Replaces the cell at `index`, returning the old one.
    fn swap(&mut self, index: usize, tagged: Tagged) -> (old_cell: Tagged)
        requires
            index < old(self).stack@.len(),
        ensures
            final(self).stack@ == old(self).stack@.update(index as int, tagged),
            old_cell == old(self).stack@[index as int],
            final(self).frames@ == old(self).frames@,
            final(self).heap == old(self).heap,
    {
        let old_cell = self.stack.remove(index);
        self.stack.insert(index, tagged);
        proof {
            assert(self.stack@ =~= old(self).stack@.update(index as int, tagged));
        }
        old_cell
    }

    /// Encodes a slot against this stack's heap, for a later
    /// [`Stack::push_tagged`]. The stack itself is unchanged.
    pub fn tag(&mut self, slot: Slot) -> (t: Tagged)
        requires
            old(self).inv(),
            old(self).can_alloc(1),
        ensures
            final(self).inv(),
            final(self)@ == old(self)@,
            final(self).boxed_count() <= old(self).boxed_count() + 1,
            final(self).owns(t),
            final(self).decode_of(t) == norm_slot(slot),
            forall|x: Tagged|
                old(self).owns(x) ==> final(self).owns(x) && final(self).decode_of(x) == old(
                    self,
                ).decode_of(x),
    {
        let ghost old_boxes = self.heap@.boxes;
        let t = Tagged::new(slot, &mut self.heap);
        proof {
            lemma_cells_view_extend(self.stack@, old_boxes, self.heap@.boxes);
            assert(self@ =~= old(self)@) by {
                assert(self@.cells =~= old(self)@.cells);
            }
            assert forall|x: Tagged| old(self).owns(x) implies self.owns(x) && self.decode_of(x)
                == old(self).decode_of(x) by {
                lemma_decode_extend(x@, old_boxes, self.heap@.boxes);
            }
        }
        t
    }

    /// The cell is a recognized encoding against this stack's heap.
    pub closed spec fn owns(self, t: Tagged) -> bool {
        self.heap.owns(t)
    }

    /// What a cell decodes to against this stack's heap.
    pub closed spec fn decode_of(self, t: Tagged) -> Slot {
        self.heap.decode(t)
    }

    /// Pushes a value onto the stack, tagging it along the way.
    pub fn push_data(&mut self, data: Value)
        requires
            old(self).inv(),
            old(self).can_alloc(1),
            value_ok(data, old(self)@.shared.len() as int),
        ensures
            final(self).inv(),
            final(self)@ == push_data_abs(old(self)@, data),
            final(self).boxed_count() <= old(self).boxed_count() + 1,
    {
        let ghost old_boxes = self.heap@.boxes;
        let t = Tagged::new(Slot::Occupied(data), &mut self.heap);
        self.stack.push(t);
        proof {
            lemma_cells_view_extend(old(self).stack@, old_boxes, self.heap@.boxes);
            assert(self@.cells =~= old(self)@.cells.push(Slot::Occupied(norm_value(data))));
            lemma_stack_bounds(*self);
            assert(stack_wf(self@));
            assert(self@ == push_data_abs(old(self)@, data));
        }
    }

    /// Pushes an already tagged cell onto the stack without re-encoding it.
    pub fn push_tagged(&mut self, tagged: Tagged)
        requires
            old(self).inv(),
            old(self).owns(tagged),
            slot_ok(old(self).decode_of(tagged), old(self)@.shared.len() as int),
        ensures
            final(self).inv(),
            final(self)@.cells == old(self)@.cells.push(old(self).decode_of(tagged)),
            final(self)@.frames == old(self)@.frames,
            final(self)@.shared == old(self)@.shared,
            final(self).boxed_count() == old(self).boxed_count(),
    {
        self.stack.push(tagged);
        proof {
            assert(self@.cells =~= old(self)@.cells.push(old(self).decode_of(tagged)));
            lemma_stack_bounds(*self);
            assert(stack_wf(self@));
        }
    }
    /// Pops the top value off the stack. A `Shared` indirection is read
    /// through: callers never observe a bare indirection from a pop. Popping
    /// anything but an occupied cell — in particular popping a freshly
    /// initialized stack, whose only cell is the outermost sentinel — is a
    /// fatal stack underflow, ruled out by the contract and aborted at run
    /// time.
    pub fn pop_data(&mut self) -> (d: Value)
        requires
            old(self).inv(),
            old(self)@.cells.last() is Occupied,
        ensures
            final(self).inv(),
            final(self)@ == pop_data_abs(old(self)@),
            d == pop_target(old(self)@),
            final(self).boxed_count() == old(self).boxed_count(),
    {
        let t = self.pop();
        let s = t.slot(&self.heap);
        proof {
            assert(self@.cells =~= old(self)@.cells.drop_last());
            let n = old(self)@.cells.len() as int;
            let flen = old(self)@.frames.len() as int;
            assert(old(self)@.frames.last() != n - 1);
            assert forall|i: int| 0 <= i < flen implies #[trigger] old(self)@.frames[i] < n - 1 by {
                if i < flen - 1 {
                    assert(old(self)@.frames[i] < old(self)@.frames[flen - 1]);
                }
            }
            lemma_stack_bounds(*self);
            assert(stack_wf(self@));
        }
        match s {
            Slot::Occupied(v) => match v {
                Value::Shared(h) => self.heap.shared_clone(h),
                other => other,
            },
            _ => vstd::pervasive::unreached(),
        }
    }

    /// Opens a new call frame: records the caller's resume state in the slot
    /// currently acting as the frame sentinel, pushes a new frame base equal
    /// to the current top, and pushes a fresh sentinel.
    pub fn push_frame(&mut self, suspend: Suspend)
        requires
            old(self).inv(),
            old(self).can_alloc(2),
        ensures
            final(self).inv(),
            final(self)@ == push_frame_abs(old(self)@, suspend),
            final(self).boxed_count() <= old(self).boxed_count() + 2,
    {
        let base = self.frame_index();
        let ghost boxes0 = self.heap@.boxes;
        let t = Tagged::new(Slot::Suspended(suspend), &mut self.heap);
        proof {
            lemma_cells_view_extend(self.stack@, boxes0, self.heap@.boxes);
        }
        let _old_sentinel = self.swap(base, t);
        let newbase = self.stack.len();
        self.frames.push(newbase);
        let ghost boxes1 = self.heap@.boxes;
        let sentinel = Tagged::frame(&mut self.heap);
        proof {
            lemma_cells_view_extend(self.stack@, boxes1, self.heap@.boxes);
        }
        self.stack.push(sentinel);
        proof {
            let prior = old(self)@;
            assert(self@.cells =~= prior.cells.update(
                prior.frames.last() as int,
                Slot::Suspended(suspend),
            ).push(Slot::Frame));
            assert(self@.frames =~= prior.frames.push(prior.cells.len() as usize));
            let now = self@;
            let flen = now.frames.len() as int;
            assert(now.cells[now.frames.last() as int] == Slot::Frame);
            assert forall|i: int, j: int| 0 <= i < j < flen implies #[trigger] now.frames[i]
                < #[trigger] now.frames[j] by {
                if j < flen - 1 {
                    assert(prior.frames[i] < prior.frames[j]);
                } else {
                    assert(now.frames[i] < prior.cells.len());
                }
            }
            assert forall|i: int|
                0 <= i < flen - 1 implies #[trigger] now.cells[now.frames[i] as int]
                is Suspended by {
                if i < flen - 2 {
                    assert(prior.frames[i] < prior.frames[flen - 2]);
                    assert(prior.cells[prior.frames[i] as int] is Suspended);
                }
            }
            lemma_stack_bounds(*self);
            assert(stack_wf(self@));
        }
    }

    /// Closes the current call frame: pops its base, pops the sentinel that
    /// must sit on top, and turns the previous frame's base slot from the
    /// suspended continuation back into the sentinel, returning that
    /// continuation. A missing sentinel or a missing outer frame is a
    /// malformed instruction stream, ruled out by the contract and aborted
    /// at run time.
    pub fn pop_frame(&mut self) -> (suspend: Suspend)
        requires
            old(self).inv(),
            old(self)@.frames.len() >= 2,
            old(self)@.frames.last() as int == old(self)@.cells.len() - 1,
            old(self).can_alloc(1),
        ensures
            final(self).inv(),
            final(self)@ == pop_frame_abs(old(self)@),
            suspend == pop_frame_target(old(self)@),
            final(self).boxed_count() <= old(self).boxed_count() + 1,
    {
        let _base = match self.frames.pop() {
            Some(i) => i,
            None => vstd::pervasive::unreached(),
        };
        let t = self.pop();
        let s = t.slot(&self.heap);
        match s {
            Slot::Frame => {},
            _ => vstd::pervasive::unreached(),
        }
        let prev = self.frames[self.frames.len() - 1];
        proof {
            let prior = old(self)@;
            let flen = prior.frames.len() as int;
            assert(prev == prior.frames[flen - 2]);
            assert(prior.frames[flen - 2] < prior.frames[flen - 1]);
        }
        let ghost boxes0 = self.heap@.boxes;
        let sentinel = Tagged::frame(&mut self.heap);
        proof {
            lemma_cells_view_extend(self.stack@, boxes0, self.heap@.boxes);
        }
        let old_cell = self.swap(prev, sentinel);
        let old_slot = old_cell.slot(&self.heap);
        proof {
            let prior = old(self)@;
            let flen = prior.frames.len() as int;
            assert(old_slot == prior.cells[prev as int]);
            assert(prior.cells[prior.frames[flen - 2] as int] is Suspended);
            assert(self@.cells =~= prior.cells.drop_last().update(prev as int, Slot::Frame));
            assert(self@.frames =~= prior.frames.drop_last());
            let now = self@;
            let nflen = now.frames.len() as int;
            assert forall|i: int| 0 <= i < nflen implies #[trigger] now.frames[i]
                < now.cells.len() by {
                if i < nflen - 1 {
                    assert(prior.frames[i] < prior.frames[nflen - 1]);
                }
            }
            assert forall|i: int|
                0 <= i < nflen - 1 implies #[trigger] now.cells[now.frames[i] as int]
                is Suspended by {
                assert(prior.frames[i] < prior.frames[nflen - 1]);
                assert(prior.cells[prior.frames[i] as int] is Suspended);
            }
            lemma_stack_bounds(*self);
            assert(stack_wf(self@));
        }
        match old_slot {
            Slot::Suspended(suspend) => suspend,
            _ => vstd::pervasive::unreached(),
        }
    }

    /// Promotes a local of the current frame from inline storage to a fresh
    /// shared cell, in place, so that closures capturing it keep observing
    /// later mutations after the declaring frame returns. The local must not
    /// already be shared: promoting twice is forbidden.
    pub fn heapify(&mut self, index: usize)
        requires
            old(self).inv(),
            old(self).can_alloc(1),
            local_index(old(self)@, index as int) < old(self)@.cells.len(),
            old(self)@.cells[local_index(old(self)@, index as int)] is Occupied,
            !(old(self)@.cells[local_index(old(self)@, index as int)]->Occupied_0 is Shared),
        ensures
            final(self).inv(),
            final(self)@ == heapify_abs(old(self)@, index as int),
            final(self).boxed_count() <= old(self).boxed_count() + 1,
    {
        let base = self.frame_index();
        let _n = self.stack.len();
        let li = base + index + 1;
        let slot_copy = (&self.stack[li]).copy(&self.heap);
        let val = match slot_copy {
            Slot::Occupied(v) => v,
            _ => vstd::pervasive::unreached(),
        };
        let h = self.heap.shared_push(val);
        let ghost boxes0 = self.heap@.boxes;
        let t = Tagged::new(Slot::Occupied(Value::Shared(h)), &mut self.heap);
        proof {
            lemma_cells_view_extend(self.stack@, boxes0, self.heap@.boxes);
        }
        let _old_cell = self.swap(li, t);
        proof {
            let prior = old(self)@;
            let lii = local_index(prior, index as int);
            assert(self@.cells =~= prior.cells.update(
                lii,
                Slot::Occupied(Value::Shared(prior.shared.len() as usize)),
            ));
            assert(self@.shared =~= prior.shared.push(prior.cells[lii]->Occupied_0));
            let now = self@;
            let flen = now.frames.len() as int;
            assert forall|i: int| 0 <= i < flen implies #[trigger] now.frames[i] < lii by {
                if i < flen - 1 {
                    assert(prior.frames[i] < prior.frames[flen - 1]);
                }
            }
            lemma_stack_bounds(*self);
            assert(stack_wf(self@));
        }
    }

    /// Non-destructive peek at the slot of local `index` of the current
    /// frame.
    pub fn local_slot(&self, index: usize) -> (s: Slot)
        requires
            self.inv(),
            local_index(self@, index as int) < self@.cells.len(),
        ensures
            s == self@.cells[local_index(self@, index as int)],
    {
        let base = self.frame_index();
        let _n = self.stack.len();
        let li = base + index + 1;
        (&self.stack[li]).copy(&self.heap)
    }

    /// Non-destructive peek at the value of local `index` of the current
    /// frame. As with a pop, a `Shared` local is read through to its
    /// referent, so reads observe the mutations of whoever shares the cell.
    pub fn local_data(&self, index: usize) -> (d: Value)
        requires
            self.inv(),
            local_index(self@, index as int) < self@.cells.len(),
            self@.cells[local_index(self@, index as int)] is Occupied,
        ensures
            d == local_read_target(self@, index as int),
    {
        let base = self.frame_index();
        let _n = self.stack.len();
        let li = base + index + 1;
        let slot_copy = (&self.stack[li]).copy(&self.heap);
        match slot_copy {
            Slot::Occupied(v) => match v {
                Value::Shared(h) => self.heap.shared_clone(h),
                other => other,
            },
            _ => vstd::pervasive::unreached(),
        }
    }

    /// Pops the top of the stack into local `index` of the current frame,
    /// with three cases in priority order: if the value already sits where
    /// the local lives this is its declaration and a no-op; if the local
    /// holds a `Shared` indirection the referent is replaced in place,
    /// preserving identity for every capture; otherwise the top cell is
    /// moved into the slot and the old content dropped. Setting a local
    /// that is not yet on the stack is a codegen bug, ruled out by the
    /// contract and aborted at run time.
    pub fn set_local(&mut self, index: usize)
        requires
            old(self).inv(),
            local_index(old(self)@, index as int) < old(self)@.cells.len(),
            local_index(old(self)@, index as int) < old(self)@.cells.len() - 1 ==> !(old(
                self,
            )@.cells[local_index(old(self)@, index as int)] is Frame),
            (local_index(old(self)@, index as int) < old(self)@.cells.len() - 1
                && old(self)@.cells[local_index(old(self)@, index as int)] matches Slot::Occupied(
                Value::Shared(_),
            )) ==> old(self)@.cells.last() is Occupied,
        ensures
            final(self).inv(),
            final(self)@ == set_local_abs(old(self)@, index as int),
            final(self).boxed_count() == old(self).boxed_count(),
    {
        let base = self.frame_index();
        let n = self.stack.len();
        let li = base + index + 1;
        if n - 1 == li {
            // the value is already in the local's position: a declaration
        } else if n - 1 < li {
            vstd::pervasive::unreached()
        } else {
            let slot_copy = (&self.stack[li]).copy(&self.heap);
            match slot_copy {
                Slot::Frame => vstd::pervasive::unreached(),
                Slot::Occupied(Value::Shared(h)) => {
                    let d = self.pop_data();
                    self.heap.shared_set(h, d);
                    proof {
                        let prior = old(self)@;
                        assert(self@.cells =~= prior.cells.drop_last());
                        assert(self@.shared =~= prior.shared.update(
                            h as int,
                            pop_target(prior),
                        ));
                        lemma_stack_bounds(*self);
            assert(stack_wf(self@));
                    }
                },
                _ => {
                    let t = self.pop();
                    let _old_cell = self.swap(li, t);
                    proof {
                        let prior = old(self)@;
                        let lii = local_index(prior, index as int);
                        assert(self@.cells =~= prior.cells.drop_last().update(
                            lii,
                            prior.cells.last(),
                        ));
                        let now = self@;
                        let flen = now.frames.len() as int;
                        assert forall|i: int| 0 <= i < flen implies #[trigger] now.frames[i]
                            < lii by {
                            if i < flen - 1 {
                                assert(prior.frames[i] < prior.frames[flen - 1]);
                            }
                        }
                        lemma_stack_bounds(*self);
            assert(stack_wf(self@));
                    }
                },
            }
        }
    }
}

/// Opening a frame preserves well-formedness and leaves the new sentinel on
/// top, so the matching close is immediately legal.
pub proof fn lemma_push_frame_wf(v: StackAbs, suspend: Suspend)
    requires
        stack_wf(v),
        v.cells.len() <= usize::MAX,
    ensures
        stack_wf(push_frame_abs(v, suspend)),
        push_frame_abs(v, suspend).frames.len() == v.frames.len() + 1,
        push_frame_abs(v, suspend).frames.last() as int == push_frame_abs(
            v,
            suspend,
        ).cells.len() - 1,
{
    let now = push_frame_abs(v, suspend);
    let flen = now.frames.len() as int;
    assert(now.cells[now.frames.last() as int] == Slot::Frame);
    assert forall|i: int, j: int| 0 <= i < j < flen implies #[trigger] now.frames[i]
        < #[trigger] now.frames[j] by {
        if j < flen - 1 {
            assert(v.frames[i] < v.frames[j]);
        } else {
            assert(now.frames[i] < v.cells.len());
        }
    }
    assert forall|i: int|
        0 <= i < flen - 1 implies #[trigger] now.cells[now.frames[i] as int] is Suspended by {
        if i < flen - 2 {
            assert(v.frames[i] < v.frames[flen - 2]);
            assert(v.cells[v.frames[i] as int] is Suspended);
        }
    }
}

/// Closing a frame exactly undoes opening it: the stack state is restored
/// and the continuation handed back is the one that was stored.
pub proof fn lemma_push_pop_frame(v: StackAbs, suspend: Suspend)
    requires
        stack_wf(v),
    ensures
        pop_frame_abs(push_frame_abs(v, suspend)) == v,
        pop_frame_target(push_frame_abs(v, suspend)) == suspend,
{
    let mid = push_frame_abs(v, suspend);
    let base = v.frames.last() as int;
    assert(mid.frames.drop_last() =~= v.frames);
    assert(mid.cells.drop_last() =~= v.cells.update(base, Slot::Suspended(suspend)));
    assert(mid.cells.drop_last().update(base, Slot::Frame) =~= v.cells);
    assert(pop_frame_abs(mid) == v);
    assert(mid.cells[base] == Slot::Suspended(suspend));
}

/// A balanced sequence of frame operations: either nothing, or one
/// open/close pair with a balanced sequence inside and another after.
/// Every balanced bracket string decomposes this way.
pub enum FrameScript {
    Done,
    Nest(Suspend, Box<FrameScript>, Box<FrameScript>),
}

/// State after running a balanced script: `Nest(k, inner, rest)` opens a
/// frame with continuation `k`, runs `inner`, closes the frame, and runs
/// `rest`.
pub open spec fn run_frames(v: StackAbs, script: FrameScript) -> StackAbs
    decreases script,
{
    match script {
        FrameScript::Done => v,
        FrameScript::Nest(k, inner, rest) => run_frames(
            pop_frame_abs(run_frames(push_frame_abs(v, k), *inner)),
            *rest,
        ),
    }
}

/// The continuations the closes of a balanced script hand back, in the
/// order the closes happen.
pub open spec fn run_pops(v: StackAbs, script: FrameScript) -> Seq<Suspend>
    decreases script,
{
    match script {
        FrameScript::Done => Seq::empty(),
        FrameScript::Nest(k, inner, rest) => {
            let opened = push_frame_abs(v, k);
            let after_inner = run_frames(opened, *inner);
            run_pops(opened, *inner).push(pop_frame_target(after_inner)) + run_pops(
                pop_frame_abs(after_inner),
                *rest,
            )
        },
    }
}

/// The continuations the script's opens pass in, listed at the position of
/// their matching close.
pub open spec fn matching_pops(script: FrameScript) -> Seq<Suspend>
    decreases script,
{
    match script {
        FrameScript::Done => Seq::empty(),
        FrameScript::Nest(k, inner, rest) => matching_pops(*inner).push(k) + matching_pops(*rest),
    }
}

/// Greatest number of frames a balanced script holds open at once: how much
/// the stack grows while it runs.
pub open spec fn script_depth(script: FrameScript) -> int
    decreases script,
{
    match script {
        FrameScript::Done => 0,
        FrameScript::Nest(k, inner, rest) => {
            let open_depth = 1 + script_depth(*inner);
            let rest_depth = script_depth(*rest);
            if open_depth >= rest_depth {
                open_depth
            } else {
                rest_depth
            }
        },
    }
}

/// A script never holds a negative number of frames open.
proof fn lemma_script_depth_nonneg(script: FrameScript)
    ensures
        script_depth(script) >= 0,
    decreases script,
{
    match script {
        FrameScript::Done => {},
        FrameScript::Nest(k, inner, rest) => {
            lemma_script_depth_nonneg(*inner);
            lemma_script_depth_nonneg(*rest);
        },
    }
}

/// Frame nesting: running any balanced sequence of frame opens and closes
/// restores the stack exactly — same length, same content, same bases — and
/// each close returns the continuation passed to its matching open.
pub proof fn lemma_frame_nesting(v: StackAbs, script: FrameScript)
    requires
        stack_wf(v),
        v.cells.len() + script_depth(script) <= usize::MAX,
    ensures
        run_frames(v, script) == v,
        run_pops(v, script) == matching_pops(script),
    decreases script,
{
    match script {
        FrameScript::Done => {
            assert(run_pops(v, script) =~= matching_pops(script));
        },
        FrameScript::Nest(k, inner, rest) => {
            lemma_script_depth_nonneg(*inner);
            lemma_script_depth_nonneg(*rest);
            let opened = push_frame_abs(v, k);
            lemma_push_frame_wf(v, k);
            lemma_frame_nesting(opened, *inner);
            lemma_push_pop_frame(v, k);
            lemma_frame_nesting(v, *rest);
            assert(run_pops(v, script) =~= matching_pops(script));
        },
    }
}

/// Promotion aliasing: promoting local `i` plants a single shared referent.
/// The indirection in the local's slot survives a later mutation through
/// `set_local` unchanged — only the referent is replaced — so a read of the
/// local (and any read through a captured copy of the indirection) observes
/// the new value.
pub proof fn lemma_promotion_aliasing(v: StackAbs, i: int, x: Value)
    requires
        stack_wf(v),
        v.shared.len() <= usize::MAX,
        0 <= i,
        local_index(v, i) < v.cells.len(),
        v.cells[local_index(v, i)] is Occupied,
        !(v.cells[local_index(v, i)]->Occupied_0 is Shared),
        !(x is Shared),
    ensures
        heapify_abs(v, i).cells[local_index(v, i)] == Slot::Occupied(
            Value::Shared(v.shared.len() as usize),
        ),
        set_local_abs(push_data_abs(heapify_abs(v, i), x), i).cells[local_index(v, i)]
            == Slot::Occupied(Value::Shared(v.shared.len() as usize)),
        set_local_abs(push_data_abs(heapify_abs(v, i), x), i).shared[v.shared.len() as int]
            == norm_value(x),
        local_read_target(set_local_abs(push_data_abs(heapify_abs(v, i), x), i), i)
            == norm_value(x),
{
    let li = local_index(v, i);
    let h = v.shared.len() as int;
    let promoted = heapify_abs(v, i);
    let pushed = push_data_abs(promoted, x);
    let written = set_local_abs(pushed, i);
    assert(promoted.cells[li] == Slot::Occupied(Value::Shared(h as usize)));
    assert(pushed.cells[li] == Slot::Occupied(Value::Shared(h as usize)));
    assert(local_index(pushed, i) == li);
    assert(li < pushed.cells.len() - 1);
    assert(pushed.cells.last() == Slot::Occupied(norm_value(x)));
    assert(!(norm_value(x) is Shared));
    assert(pop_target(pushed) == norm_value(x));
    assert(written.cells == pushed.cells.drop_last());
    assert(written.cells[li] == Slot::Occupied(Value::Shared(h as usize)));
    assert(written.shared[h] == norm_value(x));
    assert(local_index(written, i) == li);
    assert(local_read_target(written, i) == norm_value(x));
}

/// Underflow is fatal by construction: a freshly initialized stack holds
/// only the outermost frame sentinel, which is not an occupied cell, so the
/// contract of [`Stack::pop_data`] can never be met there — the call aborts
/// instead of producing a value.
pub proof fn lemma_underflow_fatal(v: StackAbs)
    requires
        v.cells == seq![Slot::Frame],
    ensures
        !(v.cells.last() is Occupied),
{
}

} // verus!

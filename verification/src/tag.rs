//! The physical one-word encoding of a [`Slot`].
//!
//! A cell is a single `u64`. A bit pattern that is not a quiet NaN of the
//! reserved shape is a `Real`, read by direct float-bit reinterpretation.
//! Within the reserved quiet-NaN space, two low tag bits select a small fixed
//! immediate set (`Unit`, `Boolean(false)`, `Boolean(true)`), and the sign bit
//! acts as a pointer flag: when it is set, the low 48 bits are the address of
//! a heap-allocated slot. Exactly one fallback path handles every slot that is
//! not one of the inlined scalars, so further heap variants never touch the
//! encoding logic.
//!
//! Heap storage is an explicit arena, [`Heap`]: the 48-bit payload of a
//! pointer-flagged cell indexes its box region. Boxes are written once when a
//! cell is encoded and reclaimed with the arena, which keeps decoding free of
//! use-after-free hazards; a cell is still consumed by moving it into
//! [`Tagged::slot`], so the destructive-read discipline of the encoding is
//! enforced by ownership. The arena also holds the shared cells that
//! [`Value::Shared`] indirections point at; those are mutable in place.

use vstd::prelude::*;

use crate::value::{Slot, Value};

verus! {

/// The reserved quiet-NaN prefix: exponent all ones, quiet bit and the
/// "floating-point indefinite" bit set. Any bit pattern that does not carry
/// this whole prefix is an ordinary float.
pub const QNAN: u64 = 0x7ffe_0000_0000_0000;

/// Sign bit, repurposed as the pointer flag within the reserved space.
pub const P_FLAG: u64 = 0x8000_0000_0000_0000;

/// Mask of the low 48 bits that carry a box index in a pointer-flagged cell.
pub const P_MASK: u64 = 0x0000_ffff_ffff_ffff;

/// Tag bits of the immediate `Unit`.
pub const U_FLAG: u64 = 0x0000_0000_0000_0000;

/// Tag bits of the immediate `Boolean(false)`.
pub const F_FLAG: u64 = 0x0000_0000_0000_0010;

/// Tag bits of the immediate `Boolean(true)`.
pub const T_FLAG: u64 = 0x0000_0000_0000_0011;

/// The canonical quiet NaN, used to represent any NaN real whose own bit
/// pattern would collide with the reserved encoding space.
pub const CANONICAL_NAN: u64 = 0x7ff8_0000_0000_0000;

/// Number of box indices a pointer-flagged cell can address.
pub open spec fn box_capacity() -> int {
    0x1_0000_0000_0000
}

/// The bit pattern is an IEEE 754 NaN: exponent all ones, mantissa non-zero.
pub open spec fn is_nan_bits(bits: u64) -> bool {
    bits & 0x7ff0_0000_0000_0000 == 0x7ff0_0000_0000_0000
        && bits & 0x000f_ffff_ffff_ffff != 0
}

/// The bit pattern a real with float bits `bits` is stored as. A NaN whose
/// own bits fall inside the reserved space is replaced by the canonical NaN;
/// every other float keeps its bits exactly.
pub open spec fn norm_bits(bits: u64) -> u64 {
    if bits & QNAN == QNAN {
        CANONICAL_NAN
    } else {
        bits
    }
}

/// Value-level lifting of [`norm_bits`]: what a value reads back as after a
/// trip through the encoding.
pub open spec fn norm_value(v: Value) -> Value {
    match v {
        Value::Real(bits) => Value::Real(norm_bits(bits)),
        _ => v,
    }
}

/// Slot-level lifting of [`norm_bits`].
pub open spec fn norm_slot(s: Slot) -> Slot {
    match s {
        Slot::Occupied(v) => Slot::Occupied(norm_value(v)),
        _ => s,
    }
}

/// The slot is stored inline; every other slot goes through the single
/// heap-indirection fallback path.
pub open spec fn is_inline(s: Slot) -> bool {
    match s {
        Slot::Occupied(v) => match v {
            Value::Real(_) => true,
            Value::Unit => true,
            Value::Boolean(_) => true,
            _ => false,
        },
        _ => false,
    }
}

/// The bit pattern a slot encodes to, given the box index `idx` the fallback
/// path would store it at.
pub open spec fn encode_bits(s: Slot, idx: u64) -> u64 {
    match s {
        Slot::Occupied(Value::Real(bits)) => norm_bits(bits),
        Slot::Occupied(Value::Unit) => QNAN | U_FLAG,
        Slot::Occupied(Value::Boolean(false)) => QNAN | F_FLAG,
        Slot::Occupied(Value::Boolean(true)) => QNAN | T_FLAG,
        _ => P_FLAG | QNAN | idx,
    }
}

/// The box region after a slot is encoded against it: unchanged for an
/// inline slot, extended by the boxed slot otherwise.
pub open spec fn encode_boxes(s: Slot, boxes: Seq<Slot>) -> Seq<Slot> {
    if is_inline(s) {
        boxes
    } else {
        boxes.push(s)
    }
}

/// The bit pattern is one of the recognized encodings, with any box index in
/// range of a box region of `n_boxes` entries. A pattern that satisfies
/// neither arm is corrupted; decoding it is a fatal error.
pub open spec fn bits_wf(bits: u64, n_boxes: int) -> bool {
    if bits & QNAN != QNAN {
        true
    } else if bits == QNAN | U_FLAG || bits == QNAN | F_FLAG || bits == QNAN | T_FLAG {
        true
    } else {
        bits & P_FLAG == P_FLAG
            && bits == P_FLAG | QNAN | (bits & P_MASK)
            && (bits & P_MASK) < n_boxes
    }
}

/// What a bit pattern decodes to against a box region. Only defined up to
/// [`bits_wf`]: a corrupted pattern is mapped to a placeholder here, and the
/// executable decoder refuses it.
pub open spec fn decode_bits(bits: u64, boxes: Seq<Slot>) -> Slot {
    if bits & QNAN != QNAN {
        Slot::Occupied(Value::Real(bits))
    } else if bits == QNAN | U_FLAG {
        Slot::Occupied(Value::Unit)
    } else if bits == QNAN | F_FLAG {
        Slot::Occupied(Value::Boolean(false))
    } else if bits == QNAN | T_FLAG {
        Slot::Occupied(Value::Boolean(true))
    } else if bits & P_FLAG == P_FLAG && (bits & P_MASK) < boxes.len() {
        boxes[(bits & P_MASK) as int]
    } else {
        Slot::Uninitialized
    }
}

/// The slot holds a NaN real: the one kind of value whose bits the encoding
/// may rewrite (to the canonical NaN).
pub open spec fn is_nan_real(s: Slot) -> bool {
    s matches Slot::Occupied(Value::Real(bits)) && is_nan_bits(bits)
}

/// Backing store for everything a tagged cell cannot hold inline.
///
/// `boxes` is the region pointer-flagged cells index into; each entry is
/// written once, when the owning cell is encoded. `shared` holds the
/// mutable shared cells that `Value::Shared` indirections point at; a shared
/// cell lives until the heap itself is dropped, which stands in for the
/// reference counting an unverified runtime would do.
pub struct Heap {
    boxes: Vec<Slot>,
    shared: Vec<Value>,
}

/// Abstract state of a [`Heap`]: both regions as sequences.
pub ghost struct HeapAbs {
    pub boxes: Seq<Slot>,
    pub shared: Seq<Value>,
}

impl View for Heap {
    type V = HeapAbs;

    closed spec fn view(&self) -> HeapAbs {
        HeapAbs { boxes: self.boxes@, shared: self.shared@ }
    }
}

/// One machine word encoding exactly one slot. Move-only: the only way to
/// read its payload destructively is [`Tagged::slot`], which consumes the
/// cell, so a cell can never be destructively read twice.
#[derive(Debug)]
pub struct Tagged {
    bits: u64,
}

impl View for Tagged {
    type V = u64;

    closed spec fn view(&self) -> u64 {
        self.bits
    }
}

impl Heap {
    /// The box region has room for `n` more entries within the 48-bit
    /// address space of a pointer-flagged cell.
    pub open spec fn can_alloc(self, n: int) -> bool {
        self@.boxes.len() + n <= box_capacity()
    }

    /// The cell is one of the recognized encodings against this heap.
    pub open spec fn owns(self, t: Tagged) -> bool {
        bits_wf(t@, self@.boxes.len() as int)
    }

    /// What the cell decodes to against this heap.
    pub open spec fn decode(self, t: Tagged) -> Slot {
        decode_bits(t@, self@.boxes)
    }

    /// An empty heap.
    pub fn new() -> (h: Heap)
        ensures
            h@.boxes == Seq::<Slot>::empty(),
            h@.shared == Seq::<Value>::empty(),
    {
        Heap { boxes: Vec::new(), shared: Vec::new() }
    }

    /// Stores a slot in the box region, returning its index.
    fn box_push(&mut self, s: Slot) -> (idx: usize)
        requires
            old(self).can_alloc(1),
        ensures
            idx == old(self)@.boxes.len(),
            final(self)@.boxes == old(self)@.boxes.push(s),
            final(self)@.shared == old(self)@.shared,
    {
        let idx = self.boxes.len();
        self.boxes.push(s);
        idx
    }

    /// Reads a copy of a boxed slot.
    fn box_clone(&self, idx: u64) -> (s: Slot)
        requires
            idx < self@.boxes.len(),
        ensures
            s == self@.boxes[idx as int],
    {
        let _n = self.boxes.len();
        proof {
            assert(idx <= usize::MAX as u64);
        }
        (&self.boxes[idx as usize]).clone()
    }

    /// Creates a fresh shared cell holding `v`, returning its index.
    pub(crate) fn shared_push(&mut self, v: Value) -> (h: usize)
        ensures
            h == old(self)@.shared.len(),
            final(self)@.shared == old(self)@.shared.push(v),
            final(self)@.boxes == old(self)@.boxes,
    {
        let h = self.shared.len();
        self.shared.push(v);
        h
    }

    /// Reads a copy of the referent of shared cell `h`.
    pub(crate) fn shared_clone(&self, h: usize) -> (v: Value)
        requires
            h < self@.shared.len(),
        ensures
            v == self@.shared[h as int],
    {
        (&self.shared[h]).clone()
    }

    /// Replaces the referent of shared cell `h`. Every holder of a
    /// `Value::Shared(h)` indirection observes the new referent.
    pub(crate) fn shared_set(&mut self, h: usize, v: Value)
        requires
            h < old(self)@.shared.len(),
        ensures
            final(self)@.shared == old(self)@.shared.update(h as int, v),
            final(self)@.boxes == old(self)@.boxes,
    {
        let _old = self.shared.remove(h);
        self.shared.insert(h, v);
        proof {
            assert(self@.shared =~= old(self)@.shared.update(h as int, v));
        }
    }
}

/// Region lengths always fit the machine word: both regions are vectors.
pub proof fn lemma_heap_bounds(h: &Heap)
    ensures
        h@.boxes.len() <= usize::MAX,
        h@.shared.len() <= usize::MAX,
{
    vstd::std_specs::vec::axiom_spec_len(&h.boxes);
    vstd::std_specs::vec::axiom_spec_len(&h.shared);
}

/// A pointer-flagged pattern built from an in-range index is a recognized
/// encoding distinct from every immediate, and the index reads back exactly.
proof fn lemma_pointer_bits(idx: u64)
    by (bit_vector)
    requires
        idx < 0x1_0000_0000_0000,
    ensures
        (P_FLAG | QNAN | idx) & QNAN == QNAN,
        (P_FLAG | QNAN | idx) != QNAN | U_FLAG,
        (P_FLAG | QNAN | idx) != QNAN | F_FLAG,
        (P_FLAG | QNAN | idx) != QNAN | T_FLAG,
        (P_FLAG | QNAN | idx) & P_FLAG == P_FLAG,
        (P_FLAG | QNAN | idx) & P_MASK == idx,
{
}

/// The three immediates carry the reserved prefix, and a normalized real
/// never does.
proof fn lemma_immediate_bits(bits: u64)
    by (bit_vector)
    ensures
        (QNAN | U_FLAG) & QNAN == QNAN,
        (QNAN | F_FLAG) & QNAN == QNAN,
        (QNAN | T_FLAG) & QNAN == QNAN,
        CANONICAL_NAN & QNAN != QNAN,
        bits & QNAN == QNAN ==> is_nan_bits(bits),
        is_nan_bits(CANONICAL_NAN),
{
}

/// Round trip of the encoding: decoding what a slot encodes to gives the
/// slot back after normalization. Normalization only touches NaN reals, so
/// every slot other than a NaN real reads back exactly, and a NaN real reads
/// back as a NaN real.
pub proof fn lemma_round_trip(s: Slot, boxes: Seq<Slot>)
    requires
        boxes.len() + 1 <= box_capacity(),
    ensures
        bits_wf(encode_bits(s, boxes.len() as u64), encode_boxes(s, boxes).len() as int),
        decode_bits(encode_bits(s, boxes.len() as u64), encode_boxes(s, boxes)) == norm_slot(s),
        !is_nan_real(s) ==> norm_slot(s) == s,
        is_nan_real(s) ==> is_nan_real(norm_slot(s)),
{
    let idx = boxes.len() as u64;
    let bits = encode_bits(s, idx);
    lemma_immediate_bits(bits);
    if is_inline(s) {
        match s {
            Slot::Occupied(Value::Real(b)) => {
                lemma_immediate_bits(b);
                if b & QNAN == QNAN {
                    assert(is_nan_bits(b));
                } else {
                    assert(!(b & 0x7ff0_0000_0000_0000 == 0x7ff0_0000_0000_0000
                        && b & 0x000f_ffff_ffff_ffff != 0) ==> b & QNAN != QNAN)
                        by (bit_vector);
                }
            },
            _ => {
                assert((QNAN | U_FLAG) != (QNAN | F_FLAG) && (QNAN | U_FLAG) != (QNAN | T_FLAG)
                    && (QNAN | F_FLAG) != (QNAN | T_FLAG)) by (bit_vector);
            },
        }
    } else {
        lemma_pointer_bits(idx);
        assert(encode_boxes(s, boxes)[idx as int] == s);
    }
}

/// A cell stays recognized, and decodes the same, when the box region is
/// extended: boxes are written once, so later allocations never disturb an
/// older cell.
pub proof fn lemma_decode_extend(bits: u64, boxes: Seq<Slot>, ext: Seq<Slot>)
    requires
        bits_wf(bits, boxes.len() as int),
        boxes.is_prefix_of(ext),
    ensures
        bits_wf(bits, ext.len() as int),
        decode_bits(bits, ext) == decode_bits(bits, boxes),
{
}

impl Tagged {
    /// Encodes a slot into one machine word, taking ownership of it. The
    /// four inlineable forms (`Real`, `Unit`, the two booleans) become the
    /// literal bit pattern; any other slot is stored on the heap behind a
    /// pointer-flagged pattern.
    pub fn new(slot: Slot, heap: &mut Heap) -> (t: Tagged)
        requires
            old(heap).can_alloc(1),
        ensures
            t@ == encode_bits(slot, old(heap)@.boxes.len() as u64),
            final(heap)@.boxes == encode_boxes(slot, old(heap)@.boxes),
            final(heap)@.shared == old(heap)@.shared,
            final(heap).owns(t),
            final(heap).decode(t) == norm_slot(slot),
    {
        proof {
            lemma_round_trip(slot, heap@.boxes);
        }
        match slot {
            Slot::Occupied(Value::Real(bits)) => {
                let stored: u64 = if bits & QNAN == QNAN {
                    CANONICAL_NAN
                } else {
                    bits
                };
                Tagged { bits: stored }
            },
            Slot::Occupied(Value::Unit) => Tagged { bits: QNAN | U_FLAG },
            Slot::Occupied(Value::Boolean(false)) => Tagged { bits: QNAN | F_FLAG },
            Slot::Occupied(Value::Boolean(true)) => Tagged { bits: QNAN | T_FLAG },
            other => {
                let idx = heap.box_push(other);
                proof {
                    lemma_pointer_bits(idx as u64);
                }
                Tagged { bits: P_FLAG | QNAN | (idx as u64) }
            },
        }
    }

    /// A fresh frame sentinel cell.
    pub fn frame(heap: &mut Heap) -> (t: Tagged)
        requires
            old(heap).can_alloc(1),
        ensures
            t@ == encode_bits(Slot::Frame, old(heap)@.boxes.len() as u64),
            final(heap)@.boxes == encode_boxes(Slot::Frame, old(heap)@.boxes),
            final(heap)@.shared == old(heap)@.shared,
            final(heap).owns(t),
            final(heap).decode(t) == Slot::Frame,
    {
        Tagged::new(Slot::Frame, heap)
    }

    /// The raw bit pattern, for inspection and debugging.
    pub fn bits(&self) -> (bits: u64)
        ensures
            bits == self@,
    {
        self.bits
    }

    /// The single destructive read of a cell: consumes it and returns its
    /// slot. Inline patterns are reconstructed with no heap access; a
    /// pointer-flagged pattern is followed into the box region. A corrupted
    /// pattern is a fatal error.
    pub fn slot(self, heap: &Heap) -> (s: Slot)
        requires
            heap.owns(self),
        ensures
            s == heap.decode(self),
    {
        let bits = self.bits;
        if bits & QNAN != QNAN {
            Slot::Occupied(Value::Real(bits))
        } else if bits == QNAN | U_FLAG {
            Slot::Occupied(Value::Unit)
        } else if bits == QNAN | F_FLAG {
            Slot::Occupied(Value::Boolean(false))
        } else if bits == QNAN | T_FLAG {
            Slot::Occupied(Value::Boolean(true))
        } else if bits & P_FLAG == P_FLAG {
            let idx = bits & P_MASK;
            heap.box_clone(idx)
        } else {
            vstd::pervasive::unreached()
        }
    }

    /// Non-consuming read: decodes and deep-copies the payload, leaving the
    /// cell untouched.
    pub fn copy(&self, heap: &Heap) -> (s: Slot)
        requires
            heap.owns(*self),
        ensures
            s == heap.decode(*self),
    {
        let bits = self.bits;
        if bits & QNAN != QNAN {
            Slot::Occupied(Value::Real(bits))
        } else if bits == QNAN | U_FLAG {
            Slot::Occupied(Value::Unit)
        } else if bits == QNAN | F_FLAG {
            Slot::Occupied(Value::Boolean(false))
        } else if bits == QNAN | T_FLAG {
            Slot::Occupied(Value::Boolean(true))
        } else if bits & P_FLAG == P_FLAG {
            let idx = bits & P_MASK;
            heap.box_clone(idx)
        } else {
            vstd::pervasive::unreached()
        }
    }

    /// Consumes the cell and unwraps it to the value it carries. The cell
    /// must hold an occupied slot: asking a frame sentinel or a suspension
    /// for a value is a codegen bug.
    pub fn data(self, heap: &Heap) -> (v: Value)
        requires
            heap.owns(self),
            heap.decode(self) is Occupied,
        ensures
            v == heap.decode(self)->Occupied_0,
    {
        match self.slot(heap) {
            Slot::Occupied(v) => v,
            _ => vstd::pervasive::unreached(),
        }
    }
}

} // verus!

//! The logical value space of the language and the slot classification of a
//! decoded stack cell.

use vstd::prelude::*;

verus! {

/// Resume state saved for a caller when a new call frame is opened: the
/// instruction position to return to and a reference to the caller's
/// closure environment. The stack stores and returns it opaquely.
#[derive(Clone, Copy, PartialEq, Eq, Debug)]
pub struct Suspend {
    pub ip: usize,
    pub env: usize,
}

/// A value the language manipulates.
///
/// `Real` carries the raw bit pattern of a 64-bit IEEE 754 float, so that the
/// encoding layer can reason about it bit for bit; callers convert with
/// `f64::to_bits` / `f64::from_bits` at the boundary.
///
/// `Shared` is an indirection into the shared-cell store of a [`crate::tag::Heap`]:
/// reference-counted, mutably-aliasable storage used for closure-captured
/// locals. Cloning a `Shared` value clones the indirection, not the referent.
///
/// `FrameMarker` is not user-visible; it exists so that a frame boundary has a
/// value-level name. The stack itself marks frames with [`Slot::Frame`].
#[derive(PartialEq, Debug)]
pub enum Value {
    Unit,
    Boolean(bool),
    Real(u64),
    String(String),
    Shared(usize),
    FrameMarker,
}

/// The decoded content of one stack cell: either an ordinary value, the
/// sentinel that opens a call frame, the suspended continuation of a caller
/// threaded through the stack, or a placeholder that is never observable
/// between instructions.
#[derive(PartialEq, Debug)]
pub enum Slot {
    Occupied(Value),
    Frame,
    Suspended(Suspend),
    Uninitialized,
}

/// A value is well formed with respect to a shared-cell store of `n_shared`
/// cells when every indirection it carries points into the store.
pub open spec fn value_ok(v: Value, n_shared: int) -> bool {
    match v {
        Value::Shared(h) => h < n_shared,
        _ => true,
    }
}

/// Slot-level lifting of [`value_ok`].
pub open spec fn slot_ok(s: Slot, n_shared: int) -> bool {
    match s {
        Slot::Occupied(v) => value_ok(v, n_shared),
        _ => true,
    }
}

impl Clone for Value {
    /// Deep copy of the payload; for `Shared` the indirection itself is
    /// copied, so both copies keep pointing at the same referent.
    fn clone(&self) -> (res: Self)
        ensures
            res == *self,
    {
        match self {
            Value::Unit => Value::Unit,
            Value::Boolean(b) => Value::Boolean(*b),
            Value::Real(bits) => Value::Real(*bits),
            Value::String(s) => Value::String(s.clone()),
            Value::Shared(h) => Value::Shared(*h),
            Value::FrameMarker => Value::FrameMarker,
        }
    }
}

impl Clone for Slot {
    fn clone(&self) -> (res: Self)
        ensures
            res == *self,
    {
        match self {
            Slot::Occupied(v) => Slot::Occupied(v.clone()),
            Slot::Frame => Slot::Frame,
            Slot::Suspended(k) => Slot::Suspended(*k),
            Slot::Uninitialized => Slot::Uninitialized,
        }
    }
}

impl Slot {
    /// True exactly of the frame sentinel.
    pub fn is_frame(&self) -> (r: bool)
        ensures
            r == (*self is Frame),
    {
        match self {
            Slot::Frame => true,
            _ => false,
        }
    }

    /// Extracts the value of an occupied slot. Asking a frame sentinel, a
    /// suspension or a placeholder for its value is a codegen bug, so the
    /// contract rules it out.
    pub fn data(self) -> (v: Value)
        requires
            self is Occupied,
        ensures
            v == self->Occupied_0,
    {
        match self {
            Slot::Occupied(v) => v,
            _ => vstd::pervasive::unreached(),
        }
    }
}

} // verus!

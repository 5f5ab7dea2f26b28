//! The dual allocation arenas.
//!
//! A `Heap` is the mutable arena scoped to one evaluation; a `FrozenHeap`
//! holds permanently immutable data shared across evaluations. Handles in
//! this library own their object graphs directly, so the arena types carry
//! no state of their own: they exist to keep the allocation discipline of
//! the interface — a `Value` can only be made against a `Heap`, a
//! `FrozenValue` only against a `FrozenHeap` or through freezing. Allocation
//! never fails; small integers bypass the arena entirely.

use vstd::prelude::*;
use crate::value::Value;
use crate::value::ValueView;
use crate::value::FrozenValue;
use crate::convert::AllocValue;
use crate::convert::AllocFrozenValue;
use vstd::string::StringExecFns;

verus! {

/// The mutable arena: owns everything allocated during one evaluation and
/// is reclaimed in bulk at its end.
#[derive(Clone, Copy)]
pub struct Heap {
    _private: (),
}

/// The frozen arena: append-only, never reclaims an individual object, and
/// safe for unsynchronized concurrent reads once populated.
#[derive(Clone, Copy)]
pub struct FrozenHeap {
    _private: (),
}

impl Heap {
    /// Create a fresh mutable arena.
    pub fn new() -> Heap {
        Heap { _private: () }
    }

    /// Install a native value into this arena and return its handle.
    pub fn alloc_val<T: AllocValue>(&self, x: T) -> (r: Value)
        requires
            x.alloc_req(),
        ensures
            r.wf(),
            r@ == x.alloc_spec(),
    {
        x.alloc_value(self)
    }

    /// Allocate a string value.
    pub fn alloc_str(&self, s: &str) -> (r: Value)
        ensures
            r.wf(),
            r@ == ValueView::Str(s@),
    {
        Value::Str(String::from_str(s))
    }
}

impl FrozenHeap {
    /// Create a fresh frozen arena.
    pub fn new() -> FrozenHeap {
        FrozenHeap { _private: () }
    }

    /// Install a native value into the frozen arena. Only freezing and code
    /// constructing permanent global state should call this.
    pub fn alloc_val<T: AllocFrozenValue>(&self, x: T) -> (r: FrozenValue)
        requires
            x.alloc_frozen_req(),
        ensures
            r.wf(),
            r@ == x.alloc_frozen_spec(),
    {
        x.alloc_frozen_value(self)
    }
}

/// Performs the freeze traversal against one frozen arena.
pub struct Freezer {
    /// The arena frozen objects are installed into.
    pub heap: FrozenHeap,
}

impl Freezer {
    /// A freezer over the given frozen arena.
    pub fn new(heap: FrozenHeap) -> Freezer {
        Freezer { heap }
    }
}

} // verus!

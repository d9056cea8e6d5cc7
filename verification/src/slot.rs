//! A shared cell that carries one result from an executor to a handle.

use vstd::prelude::*;
use vstd::cell::invcell::InvCell;
use vstd::predicate::Predicate;

verus! {

/// What a slot may hold: with `only` set to `Some(x)`, nothing or `x`;
/// with `only` unset, anything.
pub struct SlotContents<T> {
    pub only: Option<Option<T>>,
}

impl<T> Predicate<Option<T>> for SlotContents<T> {
    open spec fn predicate(&self, v: Option<T>) -> bool {
        match self.only {
            Some(x) => v is None || v == x,
            None => true,
        }
    }
}

/// A cell shared by the copies made with `share`; what one copy puts in,
/// another can take out.
pub struct Slot<T> {
    cell: std::sync::Arc<InvCell<Option<T>, SlotContents<T>>>,
}

impl<T> Slot<T> {
    /// The slot may hold `v`: the cell is empty or holds a value it was made
    /// for. Every copy made with `share` permits the same.
    pub closed spec fn permits(&self, v: Option<T>) -> bool {
        self.cell.inv(v)
    }

    /// A slot that holds `value` and never holds anything else: it only
    /// ever gives back `value`, and nothing once that is taken.
    pub fn new(value: Option<T>) -> (s: Slot<T>)
        ensures
            forall|v: Option<T>| #[trigger] s.permits(v) <==> (v is None || v == value),
    {
        let ghost only = Some(value);
        Slot { cell: std::sync::Arc::new(InvCell::new(value, Ghost(SlotContents { only }))) }
    }

    /// An empty slot that may be filled with any value.
    pub fn empty() -> (s: Slot<T>)
        ensures
            forall|v: Option<T>| #[trigger] s.permits(v),
    {
        Slot { cell: std::sync::Arc::new(InvCell::new(None, Ghost(SlotContents { only: None }))) }
    }

    /// Another handle on the same cell.
    pub fn share(&self) -> (s: Slot<T>)
        ensures
            s == *self,
    {
        Slot { cell: self.cell.clone() }
    }

    /// Stores `value`, replacing what the cell held.
    pub fn put(&self, value: T)
        requires
            self.permits(Some(value)),
    {
        self.cell.set(Some(value));
    }

    /// Takes what the cell holds, leaving it empty: nothing, or a value the
    /// slot permits.
    pub fn take(&self) -> (r: Option<T>)
        ensures
            self.permits(r),
    {
        self.cell.replace(None)
    }
}

} // verus!

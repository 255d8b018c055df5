use vstd::prelude::*;

verus! {

/// A handle on one slot of the single-assignment store.
///
/// Two handles are equal exactly when they carry the same number, so a
/// handle can be copied freely and compared without looking at the store.
#[derive(Clone, Copy, Debug, PartialEq, Eq, Hash, Structural)]
pub struct Variable {
    pub id: u64,
}

impl Variable {
    /// The handle numbered `id`.
    pub fn new(id: u64) -> (variable: Variable)
        ensures
            variable.id == id,
    {
        Variable { id }
    }

    /// The number of this handle.
    pub fn id(&self) -> (id: u64)
        ensures
            id == self.id,
    {
        self.id
    }
}

} // verus!

use vstd::prelude::*;

verus! {

/// Why the machine refused to go on.
///
/// Every kind but the last marks a malformed program, not a condition to
/// recover from. The operation that reports one leaves the machine as it
/// was. Blocking on an unbound variable is no error and is never reported
/// as one.
#[derive(Clone, Copy, Debug, PartialEq, Eq, Hash, Structural)]
pub enum VmError {
    /// A variable was allocated that is allocated already.
    DoubleAllocation,
    /// A variable was bound that was never allocated.
    UnallocatedWrite,
    /// A variable was bound that is bound already.
    DoubleBind,
    /// An identifier has no binding in the environment in force.
    UnresolvedIdentifier,
    /// An operation met a value of a kind it cannot work on.
    TypeMismatch,
    /// A variable was read that was never allocated.
    UnallocatedRead,
    /// The mark of an unbound variable was offered as the value to bind.
    UnboundValue,
    /// Threads remain, and each of them waits for a variable that is still
    /// unbound.
    Deadlock,
}

} // verus!

//! Failure conditions reported by the storage and gate operations.

use vstd::prelude::*;

verus! {

/// Error kinds of the tableau core.
///
/// Every error is a synchronous precondition violation reported to the
/// caller; the operation that reports one leaves the storage unchanged.
/// Construction itself cannot fail here: the standard allocator aborts the
/// process when memory is exhausted, so no allocation error is ever
/// observed as a value.
#[derive(Clone, Copy, Debug, PartialEq, Eq, Structural)]
pub enum TableauError {
    /// A bit, register or qubit index lies beyond the addressed storage.
    IndexOutOfRange,
    /// A column-oriented gate was invoked while the tableau is in
    /// row-major order.
    InvalidLayout,
    /// A two-qubit gate named the same qubit as control and target.
    InvalidOperands,
}

} // verus!

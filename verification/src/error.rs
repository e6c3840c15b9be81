//! The failures that an operation on the ring can end with.
use vstd::prelude::*;

verus! {

/// Why an operation failed. `E` is the error of the call into the ring.
#[derive(Debug, PartialEq, Eq)]
pub enum UringError<E> {
    /// A call into the ring failed; its own error, unchanged.
    Io(E),
    /// The kernel answered with this code, or a system call left this one behind.
    Os(i32),
    /// Anything else, in words.
    Other(&'static str),
}

} // verus!

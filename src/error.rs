use vstd::prelude::*;

verus! {

/// Why an allocator operation failed.
#[derive(Clone, Copy, Debug, PartialEq, Eq, Structural)]
pub enum AllocError {
    /// The requested face has too little room left; nothing changed.
    NoMemory,
    /// The operation is structurally disallowed by this allocator's design.
    Unsupported,
}

} // verus!

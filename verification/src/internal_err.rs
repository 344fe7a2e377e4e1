//! Internal error kinds of the priority queue.
//!
//! These signal programming-invariant violations (a bit shift wider than the
//! word, a bad index, a corrupted state), not caller input errors. No public
//! operation of this crate can actually raise one: each proves that it
//! returns `Ok`. The kinds are kept for the error channel's shape and for
//! future invariant checks.

use vstd::prelude::*;

verus! {

/// An internal invariant violation. Treat a queue that raised one as
/// fatal-to-the-structure: do not keep mutating it.
#[derive(Debug)]
pub enum InternalErr {
    /// A bitwise operation was asked to do something illegal, such as a
    /// shift by at least the word width.
    IllegalOperation { op: String, on: u64, err: String },
    /// An index outside the structure was about to be touched.
    IllegalIndexAccess { idx: usize, msg: String },
    /// A general invariant did not hold.
    IllegalState { msg: String },
}

} // verus!

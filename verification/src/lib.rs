//! Memory-representation core of a typesetting engine: the flat storage
//! arena with its two allocation disciplines, the scoped equivalence table,
//! the group/save stack, and the control-sequence interning table.

pub mod arena;
pub mod array;
pub mod eqtb;
pub mod hash;
pub mod save;
pub mod state;
pub mod word;

use vstd::prelude::*;

verus! {

/// The failure conditions of the core.  All are synchronous and surfaced
/// immediately to the caller; none is transient and none is retried.
#[derive(Clone, Copy, PartialEq, Eq, Structural, Debug)]
pub enum TexError {
    /// The node arena cannot satisfy an allocation request.
    OutOfMemory,
    /// The control-sequence table has no room for a new name.
    HashFull,
    /// The group/save stack would exceed its configured capacity.
    SaveStackOverflow,
    /// `leave_group` was called with no group open.
    UnbalancedGroup,
    /// An equivalence-table location outside the valid range.
    InvalidLocation,
    /// An arena address outside the valid, currently allocated range.
    InvalidAddress,
}

} // verus!

//! The conditions under which the node must halt.
use vstd::prelude::*;

verus! {

/// A condition after which the node can no longer be trusted to serve
/// requests. A handler that returns a fault leaves the state as it found it;
/// the runtime is expected to stop the process rather than to carry on.
#[derive(Clone, Copy, Debug, PartialEq, Eq, Structural)]
pub enum Fault {
    /// A request that needs the node's own address arrived before `init`.
    IdentityMissing,
    /// The store reported a counter value below the last confirmed one.
    CounterRegressed,
    /// The store refused an initialising write because the key exists.
    KeyAlreadyExists,
    /// A counter value or a message id left the range of `u32`.
    Overflow,
}

} // verus!

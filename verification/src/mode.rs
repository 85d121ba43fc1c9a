//! The mode gate: which operations an operating mode permits.

use vstd::prelude::*;

verus! {

/// How a local cache relates to the remote deployment. It is fixed when the
/// cache is configured.
#[derive(Clone, Copy, Debug, PartialEq, Eq, Structural)]
pub enum OperatingMode {
    /// A replica: it may pull the remote state but never publish.
    ReadOnly,
    /// An origin: it may pull and publish.
    ReadWrite,
}

/// A synchronization operation that an operating mode permits or forbids.
#[derive(Clone, Copy, Debug, PartialEq, Eq, Structural)]
pub enum Operation {
    /// Pull the remote head into the local cache.
    Fetch,
    /// Publish the local snapshot as the new remote head.
    Update,
}

/// The policy table: fetching is always permitted, publishing only in
/// read-write mode.
pub open spec fn allowed(operation: Operation, mode: OperatingMode) -> bool {
    operation == Operation::Fetch || mode == OperatingMode::ReadWrite
}

/// Decides whether `operation` may run under `mode`.
pub fn allow(operation: Operation, mode: OperatingMode) -> (permitted: bool)
    ensures
        permitted == allowed(operation, mode),
{
    match operation {
        Operation::Fetch => true,
        Operation::Update => match mode {
            OperatingMode::ReadOnly => false,
            OperatingMode::ReadWrite => true,
        },
    }
}

/// A read-only cache permits exactly the fetch, a read-write cache permits
/// every operation.
pub proof fn lemma_gate_table()
    ensures
        allowed(Operation::Fetch, OperatingMode::ReadOnly),
        !allowed(Operation::Update, OperatingMode::ReadOnly),
        forall|operation: Operation| allowed(operation, OperatingMode::ReadWrite),
{
}

} // verus!

//! The failures of the ordering engine.
use vstd::prelude::*;

verus! {

/// Why an operation of the ordering engine did not take place.
#[derive(Clone, Copy, Debug, PartialEq, Eq, Structural)]
pub enum Error {
    /// No task has this id.
    UnknownTask(u64),
    /// The ordering holds no task at this offset from the top.
    NoTaskAt(u8),
    /// Every task id has been handed out.
    IdsExhausted,
    /// A status code read back from storage names no status: a bug or
    /// corrupted data, not a passing failure.
    InvalidStatus(u8),
    /// The `next` pointers read back from storage do not form one chain from
    /// the root: a bug or corrupted data.
    CorruptChain,
    /// Task rows read back from storage are not in ascending order of id, or
    /// one claims the root's id.
    OutOfOrder(u64),
    /// A task read back from storage has no status record.
    NoStatus(u64),
}

} // verus!

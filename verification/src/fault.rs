//! Why an evaluation stops before it is done.

use vstd::prelude::*;

verus! {

/// Why an evaluation stopped before it was done.
#[derive(Debug, Clone, Copy, PartialEq, Eq, Structural)]
pub enum Fault {
    /// A slot was needed and the arena had handed out all it has.
    ArenaExhausted,
    /// A reference names a slot that was never handed out.
    OutOfBounds,
    /// A reference names a slot that is empty.
    EmptySlot,
    /// A slot holds an agent where a wire is needed, or a wire where an
    /// agent is needed.
    KindMismatch,
    /// A counter is at its maximum, or a total of counters would pass it.
    CounterOverflow,
    /// The evaluation took as many steps as it was allowed.
    StepLimit,
}

/// The fault of a result, if it is one.
pub open spec fn fault_of<T>(result: Result<T, Fault>) -> Option<Fault> {
    match result {
        Ok(_) => None,
        Err(fault) => Some(fault),
    }
}

} // verus!

use vstd::prelude::*;

verus! {

/// What can go wrong at the boundary between a foreign caller and its counters.
#[derive(Clone, Copy, Debug, PartialEq, Eq, Structural)]
pub enum PingPongError {
    /// The handle is null, was released, or was never handed out.
    InvalidHandle,
    /// A counter was requested with a trigger of zero, whose multiples are undefined.
    DivisionPrecondition,
    /// The host runtime failed while running the registered callback.
    CallbackDispatch,
    /// Every slot of the handle table is either in use or retired.
    HandlesExhausted,
}

} // verus!

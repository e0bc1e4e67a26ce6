//! What can go wrong while a state machine runs.
use vstd::prelude::*;

verus! {

/// The error type of a state machine's operations.
#[derive(Debug)]
pub enum StateError<TState, TEvent> {
    /// The state machine was started while it was already started.
    AlreadyStarted {
        /// The current state of the machine.
        current_state: TState,
    },
    /// An event came in after the state machine had ended.
    EndState {
        /// The current state of the machine.
        end: TState,
    },
    /// An event came in for which the current state has no transition.
    InvalidTransition {
        /// The invalid event.
        event: TEvent,
        /// The current state of the machine.
        current_state: TState,
    },
    /// The state machine was started with an event that starts nothing.
    NotAStartEvent {
        /// The invalid event.
        event: TEvent,
    },
    /// An event came in before the state machine was started.
    NotStarted,
}

} // verus!

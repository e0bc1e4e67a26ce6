//! What can go wrong while a state machine is defined.
use vstd::prelude::*;

verus! {

/// The error type of the state machine builder's operations.
#[derive(Debug)]
pub enum BuilderError<TState, TEvent> {
    /// The initial state was declared. It stands for the machine before it
    /// starts and cannot be a state of its own.
    RedefinedInitialState,
    /// A state was declared a second time.
    StateAlreadyDefined {
        /// The state that was already declared.
        state: TState,
    },
    /// A transition was defined for a state and an event that have one.
    TransitionAlreadyDefined {
        /// The event to transition on.
        event: TEvent,
        /// The state that the event already leads to.
        existing: TState,
    },
    /// The definition as a whole failed validation.
    ValidationError {
        /// All transition targets that were never declared.
        undefined_states: Vec<TState>,
        /// All declared states that no transition leads to.
        unreachable: Vec<TState>,
    },
}

} // verus!

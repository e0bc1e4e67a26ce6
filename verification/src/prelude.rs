//! What is needed to define and to run a state machine, grouped for
//! convenience.
pub use crate::builder::{
    BuilderError, BuilderState, EndTriggerState, EndTriggersState, InitialState,
    StateMachineBuilder, TransitionState, TransitionsState, TriggerState, TriggersState,
};
pub use crate::state_machine::{FiniteStateMachine, StateError, StateMachineDefinition};

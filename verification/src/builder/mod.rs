//! Generic state machine builder.
//!
//! The builder passes through phases, each of which offers only the
//! declarations that make sense at that point, and validates the definition
//! as a whole when it is built.
pub mod build_states;
#[allow(clippy::module_inception)]
pub mod builder;
pub mod error;
pub mod phase;
pub mod types;

pub use build_states::{
    BuilderState, EndTriggerState, EndTriggersState, InitialState, TransitionState,
    TransitionsState, TriggerState, TriggersState,
};
pub use builder::{BuilderView, StateMachineBuilder};
pub use error::BuilderError;
pub use types::NodeType;

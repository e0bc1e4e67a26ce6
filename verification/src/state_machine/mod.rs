//! Generic finite state machine.
//!
//! A state machine occupies one state at a time and moves to the next state
//! only on the events that its definition prescribes.
pub mod definition;
pub mod detect;
pub mod error;
pub mod fsm;
pub mod machine;
pub mod table;
pub mod triggers;

pub use definition::{DefinitionView, StateMachineDefinition};
pub use detect::{detect_cycles, detect_cycles_impl};
pub use error::StateError;
pub use fsm::{FiniteStateMachine, MachineView};
pub use machine::StateMachine;

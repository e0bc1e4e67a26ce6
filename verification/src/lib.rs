//! # Stately
//!
//! Stately is a finite state machine library.
//!
//! A state machine is defined with a fluent builder, which passes through
//! phases and offers in each only the declarations that are in order there.
//! What the phases cannot rule out is checked when a declaration is made
//! (duplicate states, duplicate transitions, a declaration of the initial
//! state) and when the definition is built (unreachable and undefined
//! states).
//!
//! A definition is shared by the state machines created from it. Each of
//! them is in one state at a time and moves on the events that the
//! definition prescribes, calling the triggers registered for the state it
//! enters.
//!
//! The transitions of a definition form a directed graph, which may hold
//! cycles; [`detect_cycles`] and [`FiniteStateMachine::has_cycles`] tell
//! whether it does.
//!
//! States and events are values that compare by value and hash
//! accordingly, and triggers are values of one callable type. Code that is
//! verified against the contracts of this library does well to stay generic
//! in the type of its triggers, and to name a function or a closure only
//! where it hands one in: of sequences of a function's or a closure's own
//! type Verus knows too little to follow a builder's or a machine's view.
pub mod builder;
pub mod contents;
pub mod graph;
pub mod prelude;
pub mod state_machine;

pub use builder::StateMachineBuilder;
pub use state_machine::{detect_cycles, FiniteStateMachine, StateMachineDefinition};

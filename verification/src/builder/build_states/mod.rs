//! The phases that a builder passes through.
//!
//! Each phase is a trait, and a builder implements the trait of the phase
//! that it is in, and no other:
//!
//! * [`InitialState`]: a start state comes first; its triggers follow
//!   ([`TriggerState`], or [`EndTriggerState`] where it also ends the
//!   machine).
//! * [`TriggerState`] and [`TriggersState`]: the triggers of a state that
//!   has transitions, one, several or none; its transitions follow
//!   ([`TransitionState`]).
//! * [`TransitionState`] and [`TransitionsState`]: the transitions of a
//!   state, one or several; then the state is defined ([`BuilderState`]).
//! * [`EndTriggerState`] and [`EndTriggersState`]: the triggers of an end
//!   state, one, several or none; then the state is defined
//!   ([`BuilderState`]).
//! * [`BuilderState`]: another state of any kind, or the end of the
//!   definition.
//!
//! So a state that is no end state cannot be left without a transition. What
//! a builder owes in each phase is stated by
//! [`BuilderView::pending`](crate::builder::BuilderView::pending) and
//! [`BuilderView::settled`](crate::builder::BuilderView::settled).
//!
//! The phases lead back to each other. A phase's trait therefore asks of the
//! phases that follow it only that they are views of a builder; which phases
//! they are is said where the trait is implemented.
pub mod builder;
pub mod initial;
pub mod transition;
pub mod trigger;

pub use builder::BuilderState;
pub use initial::InitialState;
pub use transition::{TransitionState, TransitionsState};
pub use trigger::{EndTriggerState, EndTriggersState, TriggerState, TriggersState};

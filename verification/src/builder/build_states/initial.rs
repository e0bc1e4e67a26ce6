//! The phase in which a builder starts.
use std::hash::Hash;
use vstd::prelude::*;
use crate::builder::builder::{follows, BuilderView, StateMachineBuilder};
use crate::builder::error::BuilderError;
use crate::builder::phase::{EndTriggerPhase, InitialPhase, TriggerPhase};
use crate::builder::types::NodeType;

verus! {

/// The initial builder in the state machine builder's phased build states.
///
/// It ensures that a state machine starts with the declaration of a start
/// state.
pub trait InitialState<
    TState: Copy + Eq + Hash,
    TEvent: Copy + Eq + Hash,
    TTrigger: Fn(TEvent, TState, TState),
>: View<V = BuilderView<TState, TEvent, TTrigger>> + Sized {
    /// The next build phase for end states.
    type EndState: View<V = BuilderView<TState, TEvent, TTrigger>>;

    /// The next build phase for start states.
    type TriggerState: View<V = BuilderView<TState, TEvent, TTrigger>>;

    /// Defines a start state and its starting transition.
    ///
    /// A start state is an initial entry point into the state machine; a
    /// state machine can have several.
    fn add_start_state(self, event: TEvent, state: TState) -> (next: Result<
        Self::TriggerState,
        BuilderError<TState, TEvent>,
    >)
        ensures
            follows(next, self@.declare_start(event, state, NodeType::Start)),
            next matches Ok(builder) ==> builder@.pending(),
    ;

    /// Defines a start state that is also an end state, and its starting
    /// transition.
    fn add_start_end_state(self, event: TEvent, state: TState) -> (next: Result<
        Self::EndState,
        BuilderError<TState, TEvent>,
    >)
        ensures
            follows(next, self@.declare_start(event, state, NodeType::StartEnd)),
            next matches Ok(builder) ==> builder@.settled(),
    ;
}

impl<
    TState: Copy + Eq + Hash,
    TEvent: Copy + Eq + Hash,
    TTrigger: Fn(TEvent, TState, TState),
> InitialState<TState, TEvent, TTrigger> for StateMachineBuilder<
    TState,
    TEvent,
    TTrigger,
    InitialPhase,
> {
    type EndState = StateMachineBuilder<TState, TEvent, TTrigger, EndTriggerPhase>;

    type TriggerState = StateMachineBuilder<TState, TEvent, TTrigger, TriggerPhase>;

    #[inline]
    fn add_start_state(self, event: TEvent, state: TState) -> (next: Result<
        Self::TriggerState,
        BuilderError<TState, TEvent>,
    >) {
        proof {
            use_type_invariant(&self);
            if self@.declare_start(event, state, NodeType::Start) is Ok {
                self@.lemma_declare_start(event, state, NodeType::Start);
            }
        }
        self.add_start_state_impl(event, state)
    }

    #[inline]
    fn add_start_end_state(self, event: TEvent, state: TState) -> (next: Result<
        Self::EndState,
        BuilderError<TState, TEvent>,
    >) {
        proof {
            use_type_invariant(&self);
            if self@.declare_start(event, state, NodeType::StartEnd) is Ok {
                self@.lemma_declare_start(event, state, NodeType::StartEnd);
            }
        }
        self.add_start_end_state_impl(event, state)
    }
}

} // verus!

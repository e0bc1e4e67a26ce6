//! The phase in which a state's further transitions are defined.
use std::hash::Hash;
use vstd::prelude::*;
use crate::builder::builder::{follows, BuilderView, StateMachineBuilder};
use crate::builder::error::BuilderError;
use crate::builder::phase::{BuilderPhase, TransitionsPhase};

verus! {

/// The multiple transitions builder in the state machine builder's phased
/// build states.
///
/// It lets you define any number of further transitions of a state.
pub trait TransitionsState<
    TState: Copy + Eq + Hash,
    TEvent: Copy + Eq + Hash,
    TTrigger: Fn(TEvent, TState, TState),
>: View<V = BuilderView<TState, TEvent, TTrigger>> + Sized {
    /// The next build phase once the state's transitions are defined.
    type BuilderState: View<V = BuilderView<TState, TEvent, TTrigger>>;

    /// Defines one more transition of the current state.
    fn transition_on(self, event: TEvent, next_state: TState) -> (next: Result<
        Self,
        BuilderError<TState, TEvent>,
    >)
        ensures
            follows(next, self@.connect(self@.current, event, next_state)),
            next matches Ok(builder) ==> builder@.pending(),
    ;

    /// Defines the last transition of the current state.
    fn final_transition_on(self, event: TEvent, next_state: TState) -> (next: Result<
        Self::BuilderState,
        BuilderError<TState, TEvent>,
    >)
        ensures
            follows(next, self@.connect(self@.current, event, next_state)),
            next matches Ok(builder) ==> builder@.settled(),
    ;
}

impl<
    TState: Copy + Eq + Hash,
    TEvent: Copy + Eq + Hash,
    TTrigger: Fn(TEvent, TState, TState),
> TransitionsState<TState, TEvent, TTrigger> for StateMachineBuilder<
    TState,
    TEvent,
    TTrigger,
    TransitionsPhase,
> {
    type BuilderState = StateMachineBuilder<TState, TEvent, TTrigger, BuilderPhase>;

    #[inline]
    fn transition_on(self, event: TEvent, next_state: TState) -> (next: Result<
        Self,
        BuilderError<TState, TEvent>,
    >) {
        proof {
            use_type_invariant(&self);
            if self@.connect(self@.current, event, next_state) is Ok {
                self@.lemma_connect_current(event, next_state);
            }
        }
        self.add_transition_impl(event, next_state)
    }

    #[inline]
    fn final_transition_on(self, event: TEvent, next_state: TState) -> (next: Result<
        Self::BuilderState,
        BuilderError<TState, TEvent>,
    >) {
        proof {
            use_type_invariant(&self);
            if self@.connect(self@.current, event, next_state) is Ok {
                self@.lemma_connect_current(event, next_state);
            }
        }
        self.add_transition_impl(event, next_state)
    }
}

} // verus!

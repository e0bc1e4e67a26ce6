//! The phase in which a state's first transition is defined.
use std::hash::Hash;
use vstd::prelude::*;
use crate::builder::builder::{follows, BuilderView, StateMachineBuilder};
use crate::builder::error::BuilderError;
use crate::builder::phase::{BuilderPhase, TransitionPhase, TransitionsPhase};

verus! {

/// The transition builder in the state machine builder's phased build
/// states.
///
/// It ensures that a state which is no end state defines at least one
/// transition.
pub trait TransitionState<
    TState: Copy + Eq + Hash,
    TEvent: Copy + Eq + Hash,
    TTrigger: Fn(TEvent, TState, TState),
>: View<V = BuilderView<TState, TEvent, TTrigger>> + Sized {
    /// The next build phase once the state's transitions are defined.
    type BuilderState: View<V = BuilderView<TState, TEvent, TTrigger>>;

    /// The next build phase for defining more transitions.
    type MultiState: View<V = BuilderView<TState, TEvent, TTrigger>>;

    /// Defines the first of several transitions of the current state.
    fn transition_on(self, event: TEvent, state: TState) -> (next: Result<
        Self::MultiState,
        BuilderError<TState, TEvent>,
    >)
        ensures
            follows(next, self@.connect(self@.current, event, state)),
            next matches Ok(builder) ==> builder@.pending(),
    ;

    /// Defines the only transition of the current state.
    fn only_transition_on(self, event: TEvent, state: TState) -> (next: Result<
        Self::BuilderState,
        BuilderError<TState, TEvent>,
    >)
        ensures
            follows(next, self@.connect(self@.current, event, state)),
            next matches Ok(builder) ==> builder@.settled(),
    ;
}

impl<
    TState: Copy + Eq + Hash,
    TEvent: Copy + Eq + Hash,
    TTrigger: Fn(TEvent, TState, TState),
> TransitionState<TState, TEvent, TTrigger> for StateMachineBuilder<
    TState,
    TEvent,
    TTrigger,
    TransitionPhase,
> {
    type BuilderState = StateMachineBuilder<TState, TEvent, TTrigger, BuilderPhase>;

    type MultiState = StateMachineBuilder<TState, TEvent, TTrigger, TransitionsPhase>;

    #[inline]
    fn transition_on(self, event: TEvent, state: TState) -> (next: Result<
        Self::MultiState,
        BuilderError<TState, TEvent>,
    >) {
        proof {
            use_type_invariant(&self);
            if self@.connect(self@.current, event, state) is Ok {
                self@.lemma_connect_current(event, state);
            }
        }
        self.add_transition_impl(event, state)
    }

    #[inline]
    fn only_transition_on(self, event: TEvent, state: TState) -> (next: Result<
        Self::BuilderState,
        BuilderError<TState, TEvent>,
    >) {
        proof {
            use_type_invariant(&self);
            if self@.connect(self@.current, event, state) is Ok {
                self@.lemma_connect_current(event, state);
            }
        }
        self.add_transition_impl(event, state)
    }
}

} // verus!

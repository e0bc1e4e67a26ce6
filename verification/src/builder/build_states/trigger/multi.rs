//! The phase in which a state's further triggers are defined.
use std::hash::Hash;
use vstd::prelude::*;
use crate::builder::builder::{BuilderView, StateMachineBuilder};
use crate::builder::phase::{TransitionPhase, TriggersPhase};
use crate::state_machine::triggers::accepts;

verus! {

/// The multiple triggers builder in the state machine builder's phased
/// build states.
///
/// It lets you define any number of further triggers for a state that goes
/// on to define its transitions.
pub trait TriggersState<
    TState: Copy + Eq + Hash,
    TEvent: Copy + Eq + Hash,
    TTrigger: Fn(TEvent, TState, TState),
>: View<V = BuilderView<TState, TEvent, TTrigger>> + Sized {
    /// The next build phase once the state's triggers are defined.
    type TransitionState: View<V = BuilderView<TState, TEvent, TTrigger>>;

    /// Defines one more trigger of the current state.
    #[must_use]
    fn trigger(self, trigger: TTrigger) -> (next: Self)
        requires
            accepts::<TState, TEvent, TTrigger>(trigger, self@.current),
        ensures
            next@ == self@.with_trigger(self@.current, trigger),
            next@.pending(),
    ;

    /// Defines the last trigger of the current state.
    #[must_use]
    fn final_trigger(self, trigger: TTrigger) -> (next: Self::TransitionState)
        requires
            accepts::<TState, TEvent, TTrigger>(trigger, self@.current),
        ensures
            next@ == self@.with_trigger(self@.current, trigger),
            next@.pending(),
    ;
}

impl<
    TState: Copy + Eq + Hash,
    TEvent: Copy + Eq + Hash,
    TTrigger: Fn(TEvent, TState, TState),
> TriggersState<TState, TEvent, TTrigger> for StateMachineBuilder<
    TState,
    TEvent,
    TTrigger,
    TriggersPhase,
> {
    type TransitionState = StateMachineBuilder<TState, TEvent, TTrigger, TransitionPhase>;

    #[inline]
    fn trigger(self, trigger: TTrigger) -> (next: Self) {
        proof {
            use_type_invariant(&self);
            self@.lemma_with_trigger(self@.current, trigger);
        }
        self.trigger_on_impl(trigger)
    }

    #[inline]
    fn final_trigger(self, trigger: TTrigger) -> (next: Self::TransitionState) {
        proof {
            use_type_invariant(&self);
            self@.lemma_with_trigger(self@.current, trigger);
        }
        self.trigger_on_impl(trigger)
    }
}

} // verus!

//! The phase in which an end state's further triggers are defined.
use std::hash::Hash;
use vstd::prelude::*;
use crate::builder::builder::{BuilderView, StateMachineBuilder};
use crate::builder::phase::{BuilderPhase, EndTriggersPhase};
use crate::state_machine::triggers::accepts;

verus! {

/// The multiple end state triggers builder in the state machine builder's
/// phased build states.
///
/// It lets you define any number of further triggers for an end state.
pub trait EndTriggersState<
    TState: Copy + Eq + Hash,
    TEvent: Copy + Eq + Hash,
    TTrigger: Fn(TEvent, TState, TState),
>: View<V = BuilderView<TState, TEvent, TTrigger>> + Sized {
    /// The next build phase once the state's triggers are defined.
    type BuilderState: View<V = BuilderView<TState, TEvent, TTrigger>>;

    /// Defines one more trigger of the current state.
    #[must_use]
    fn trigger(self, trigger: TTrigger) -> (next: Self)
        requires
            accepts::<TState, TEvent, TTrigger>(trigger, self@.current),
        ensures
            next@ == self@.with_trigger(self@.current, trigger),
            next@.settled(),
    ;

    /// Defines the last trigger of the current state.
    #[must_use]
    fn final_trigger(self, trigger: TTrigger) -> (next: Self::BuilderState)
        requires
            accepts::<TState, TEvent, TTrigger>(trigger, self@.current),
        ensures
            next@ == self@.with_trigger(self@.current, trigger),
            next@.settled(),
    ;
}

impl<
    TState: Copy + Eq + Hash,
    TEvent: Copy + Eq + Hash,
    TTrigger: Fn(TEvent, TState, TState),
> EndTriggersState<TState, TEvent, TTrigger> for StateMachineBuilder<
    TState,
    TEvent,
    TTrigger,
    EndTriggersPhase,
> {
    type BuilderState = StateMachineBuilder<TState, TEvent, TTrigger, BuilderPhase>;

    #[inline]
    fn trigger(self, trigger: TTrigger) -> (next: Self) {
        proof {
            use_type_invariant(&self);
            self@.lemma_with_trigger(self@.current, trigger);
        }
        self.trigger_on_impl(trigger)
    }

    #[inline]
    fn final_trigger(self, trigger: TTrigger) -> (next: Self::BuilderState) {
        proof {
            use_type_invariant(&self);
            self@.lemma_with_trigger(self@.current, trigger);
        }
        self.trigger_on_impl(trigger)
    }
}

} // verus!

//! The phase in which a state's first trigger is defined.
use std::hash::Hash;
use vstd::prelude::*;
use crate::builder::builder::{BuilderView, StateMachineBuilder};
use crate::builder::phase::{TransitionPhase, TriggerPhase, TriggersPhase};
use crate::state_machine::triggers::accepts;

verus! {

/// The trigger builder in the state machine builder's phased build states.
///
/// It lets you define any number of triggers, or none, for a state that
/// goes on to define its transitions.
pub trait TriggerState<
    TState: Copy + Eq + Hash,
    TEvent: Copy + Eq + Hash,
    TTrigger: Fn(TEvent, TState, TState),
>: View<V = BuilderView<TState, TEvent, TTrigger>> + Sized {
    /// The next build phase once the state's triggers are defined.
    type TransitionState: View<V = BuilderView<TState, TEvent, TTrigger>>;

    /// The next build phase for defining more triggers.
    type MultiState: View<V = BuilderView<TState, TEvent, TTrigger>>;

    /// Defines the first of several triggers of the current state.
    #[must_use]
    fn trigger(self, trigger: TTrigger) -> (next: Self::MultiState)
        requires
            accepts::<TState, TEvent, TTrigger>(trigger, self@.current),
        ensures
            next@ == self@.with_trigger(self@.current, trigger),
            next@.pending(),
    ;

    /// Defines no trigger for the current state.
    #[must_use]
    fn no_triggers(self) -> (next: Self::TransitionState)
        ensures
            next@ == self@,
            next@.pending(),
    ;

    /// Defines the only trigger of the current state.
    #[must_use]
    fn only_trigger(self, trigger: TTrigger) -> (next: Self::TransitionState)
        requires
            accepts::<TState, TEvent, TTrigger>(trigger, self@.current),
        ensures
            next@ == self@.with_trigger(self@.current, trigger),
            next@.pending(),
    ;
}

impl<
    TState: Copy + Eq + Hash,
    TEvent: Copy + Eq + Hash,
    TTrigger: Fn(TEvent, TState, TState),
> TriggerState<TState, TEvent, TTrigger> for StateMachineBuilder<
    TState,
    TEvent,
    TTrigger,
    TriggerPhase,
> {
    type TransitionState = StateMachineBuilder<TState, TEvent, TTrigger, TransitionPhase>;

    type MultiState = StateMachineBuilder<TState, TEvent, TTrigger, TriggersPhase>;

    #[inline]
    fn trigger(self, trigger: TTrigger) -> (next: Self::MultiState) {
        proof {
            use_type_invariant(&self);
            self@.lemma_with_trigger(self@.current, trigger);
        }
        self.trigger_on_impl(trigger)
    }

    #[inline]
    fn no_triggers(self) -> (next: Self::TransitionState) {
        proof {
            use_type_invariant(&self);
        }
        self.advance()
    }

    #[inline]
    fn only_trigger(self, trigger: TTrigger) -> (next: Self::TransitionState) {
        proof {
            use_type_invariant(&self);
            self@.lemma_with_trigger(self@.current, trigger);
        }
        self.trigger_on_impl(trigger)
    }
}

} // verus!

//! The phase in which an end state's first trigger is defined.
use std::hash::Hash;
use vstd::prelude::*;
use crate::builder::builder::{BuilderView, StateMachineBuilder};
use crate::builder::phase::{BuilderPhase, EndTriggerPhase, EndTriggersPhase};
use crate::state_machine::triggers::accepts;

verus! {

/// The end state trigger builder in the state machine builder's phased
/// build states.
///
/// It lets you define any number of triggers, or none, for an end state,
/// which has no transitions.
pub trait EndTriggerState<
    TState: Copy + Eq + Hash,
    TEvent: Copy + Eq + Hash,
    TTrigger: Fn(TEvent, TState, TState),
>: View<V = BuilderView<TState, TEvent, TTrigger>> + Sized {
    /// The next build phase once the state's triggers are defined.
    type BuilderState: View<V = BuilderView<TState, TEvent, TTrigger>>;

    /// The next build phase for defining more triggers.
    type MultiState: View<V = BuilderView<TState, TEvent, TTrigger>>;

    /// Defines the first of several triggers of the current state.
    #[must_use]
    fn trigger(self, trigger: TTrigger) -> (next: Self::MultiState)
        requires
            accepts::<TState, TEvent, TTrigger>(trigger, self@.current),
        ensures
            next@ == self@.with_trigger(self@.current, trigger),
            next@.settled(),
    ;

    /// Defines no trigger for the current state.
    #[must_use]
    fn no_triggers(self) -> (next: Self::BuilderState)
        ensures
            next@ == self@,
            next@.settled(),
    ;

    /// Defines the only trigger of the current state.
    #[must_use]
    fn only_trigger(self, trigger: TTrigger) -> (next: Self::BuilderState)
        requires
            accepts::<TState, TEvent, TTrigger>(trigger, self@.current),
        ensures
            next@ == self@.with_trigger(self@.current, trigger),
            next@.settled(),
    ;
}

impl<
    TState: Copy + Eq + Hash,
    TEvent: Copy + Eq + Hash,
    TTrigger: Fn(TEvent, TState, TState),
> EndTriggerState<TState, TEvent, TTrigger> for StateMachineBuilder<
    TState,
    TEvent,
    TTrigger,
    EndTriggerPhase,
> {
    type BuilderState = StateMachineBuilder<TState, TEvent, TTrigger, BuilderPhase>;

    type MultiState = StateMachineBuilder<TState, TEvent, TTrigger, EndTriggersPhase>;

    #[inline]
    fn trigger(self, trigger: TTrigger) -> (next: Self::MultiState) {
        proof {
            use_type_invariant(&self);
            self@.lemma_with_trigger(self@.current, trigger);
        }
        self.trigger_on_impl(trigger)
    }

    #[inline]
    fn no_triggers(self) -> (next: Self::BuilderState) {
        proof {
            use_type_invariant(&self);
        }
        self.advance()
    }

    #[inline]
    fn only_trigger(self, trigger: TTrigger) -> (next: Self::BuilderState) {
        proof {
            use_type_invariant(&self);
            self@.lemma_with_trigger(self@.current, trigger);
        }
        self.trigger_on_impl(trigger)
    }
}

} // verus!

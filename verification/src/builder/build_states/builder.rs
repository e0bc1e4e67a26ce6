//! The phase between two states, in which the definition can be built.
use std::hash::Hash;
use vstd::prelude::*;
use crate::builder::builder::{follows, BuilderView, StateMachineBuilder};
use crate::builder::error::BuilderError;
use crate::builder::phase::{BuilderPhase, EndTriggerPhase, TriggerPhase};
use crate::builder::types::NodeType;
use crate::state_machine::definition::StateMachineDefinition;

verus! {

/// The final builder in the state machine builder's phased build states.
///
/// It lets you define more states or build the state machine definition.
pub trait BuilderState<
    TState: Copy + Eq + Hash,
    TEvent: Copy + Eq + Hash,
    TTrigger: Fn(TEvent, TState, TState),
>: View<V = BuilderView<TState, TEvent, TTrigger>> + Sized {
    /// The next build phase for end states.
    type EndState: View<V = BuilderView<TState, TEvent, TTrigger>>;

    /// The next build phase for all other states.
    type TriggerState: View<V = BuilderView<TState, TEvent, TTrigger>>;

    /// Defines an end state.
    ///
    /// An end state indicates that a state machine has completed; a state
    /// machine can have several.
    fn add_end_state(self, state: TState) -> (next: Result<
        Self::EndState,
        BuilderError<TState, TEvent>,
    >)
        ensures
            follows(next, self@.declare(state, NodeType::End)),
            next matches Ok(builder) ==> builder@.settled(),
    ;

    /// Defines a start state and its starting transition.
    fn add_start_state(self, event: TEvent, state: TState) -> (next: Result<
        Self::TriggerState,
        BuilderError<TState, TEvent>,
    >)
        ensures
            follows(next, self@.declare_start(event, state, NodeType::Start)),
            next matches Ok(builder) ==> builder@.pending(),
    ;

    /// Defines a start state that is also an end state, and its starting
    /// transition.
    fn add_start_end_state(self, event: TEvent, state: TState) -> (next: Result<
        Self::EndState,
        BuilderError<TState, TEvent>,
    >)
        ensures
            follows(next, self@.declare_start(event, state, NodeType::StartEnd)),
            next matches Ok(builder) ==> builder@.settled(),
    ;

    /// Defines a state: one of the intermediary states of a state machine.
    fn add_state(self, state: TState) -> (next: Result<
        Self::TriggerState,
        BuilderError<TState, TEvent>,
    >)
        ensures
            follows(next, self@.declare(state, NodeType::State)),
            next matches Ok(builder) ==> builder@.pending(),
    ;

    /// Builds a validated state machine definition.
    ///
    /// Fails with all transition targets that were never declared and all
    /// declared states that no transition leads to, if there are any; and
    /// succeeds if there are none. The states of a failure are listed once
    /// each, in no particular order.
    fn build(self) -> (built: Result<
        StateMachineDefinition<TState, TEvent, TTrigger>,
        BuilderError<TState, TEvent>,
    >)
        ensures
            match built {
                Ok(definition) => definition@ == self@.definition && definition@.valid(),
                Err(BuilderError::ValidationError { undefined_states, unreachable }) => {
                    &&& undefined_states@.no_duplicates()
                    &&& undefined_states@.to_set() == self@.definition.undefined_states()
                    &&& unreachable@.no_duplicates()
                    &&& unreachable@.to_set() == self@.definition.unreachable_states()
                    &&& undefined_states@.len() > 0 || unreachable@.len() > 0
                },
                Err(_) => false,
            },
            forall|state: TState|
                self@.definition.undefined_states().contains(state) ==> (built matches Err(
                    BuilderError::ValidationError { undefined_states, .. },
                ) && undefined_states@.contains(state)),
            forall|state: TState|
                self@.definition.unreachable_states().contains(state) ==> (built matches Err(
                    BuilderError::ValidationError { unreachable, .. },
                ) && unreachable@.contains(state)),
    ;
}

impl<
    TState: Copy + Eq + Hash,
    TEvent: Copy + Eq + Hash,
    TTrigger: Fn(TEvent, TState, TState),
> BuilderState<TState, TEvent, TTrigger> for StateMachineBuilder<
    TState,
    TEvent,
    TTrigger,
    BuilderPhase,
> {
    type EndState = StateMachineBuilder<TState, TEvent, TTrigger, EndTriggerPhase>;

    type TriggerState = StateMachineBuilder<TState, TEvent, TTrigger, TriggerPhase>;

    #[inline]
    fn add_end_state(self, state: TState) -> (next: Result<
        Self::EndState,
        BuilderError<TState, TEvent>,
    >) {
        proof {
            use_type_invariant(&self);
            if self@.declare(state, NodeType::End) is Ok {
                self@.lemma_declare(state, NodeType::End);
            }
        }
        self.add_state_impl(state, NodeType::End)
    }

    #[inline]
    fn add_start_state(self, event: TEvent, state: TState) -> (next: Result<
        Self::TriggerState,
        BuilderError<TState, TEvent>,
    >) {
        proof {
            use_type_invariant(&self);
            if self@.declare_start(event, state, NodeType::Start) is Ok {
                self@.lemma_declare_start(event, state, NodeType::Start);
            }
        }
        self.add_start_state_impl(event, state)
    }

    fn add_start_end_state(self, event: TEvent, state: TState) -> (next: Result<
        Self::EndState,
        BuilderError<TState, TEvent>,
    >) {
        proof {
            use_type_invariant(&self);
            if self@.declare_start(event, state, NodeType::StartEnd) is Ok {
                self@.lemma_declare_start(event, state, NodeType::StartEnd);
            }
        }
        self.add_start_end_state_impl(event, state)
    }

    #[inline]
    fn add_state(self, state: TState) -> (next: Result<
        Self::TriggerState,
        BuilderError<TState, TEvent>,
    >) {
        proof {
            use_type_invariant(&self);
            if self@.declare(state, NodeType::State) is Ok {
                self@.lemma_declare(state, NodeType::State);
            }
        }
        self.add_state_impl(state, NodeType::State)
    }

    fn build(self) -> (built: Result<
        StateMachineDefinition<TState, TEvent, TTrigger>,
        BuilderError<TState, TEvent>,
    >) {
        self.build_impl()
    }
}

} // verus!

//! The builder's data and the declarations that its phases are made of.
use std::collections::HashSet;
use std::marker::PhantomData;
use std::hash::Hash;
use vstd::prelude::*;
use vstd::laws_eq::obeys_concrete_eq;
use vstd::std_specs::hash::obeys_key_model;
use crate::builder::error::BuilderError;
use crate::builder::phase::{InitialPhase, Phase};
use crate::builder::types::NodeType;
use crate::contents::{lemma_push_to_set, set_items};
use crate::state_machine::definition::{DefinitionView, StateMachineDefinition};
use crate::state_machine::table::{
    arrow, has_target, holds_target, leads_to, lemma_has_target_step, lemma_targets,
    TransitionTable,
};
use crate::state_machine::triggers::{accepts, triggers_for, TriggerTable};

verus! {

/// What a builder stands for: the definition as declared so far, and the
/// state that transitions and triggers are currently added to.
#[verifier::reject_recursive_types(TState)]
#[verifier::reject_recursive_types(TEvent)]
pub struct BuilderView<TState, TEvent, TTrigger> {
    pub current: TState,
    pub definition: DefinitionView<TState, TEvent, TTrigger>,
}

/// Whether an operation's result is what its description says: the same
/// error, or a value with the described view.
pub open spec fn follows<Built: View, Failure>(
    result: Result<Built, Failure>,
    described: Result<Built::V, Failure>,
) -> bool {
    match (result, described) {
        (Ok(built), Ok(view)) => built@ == view,
        (Err(error), Err(failure)) => error == failure,
        _ => false,
    }
}

impl<TState: Eq, TEvent: Eq, TTrigger: Fn(TEvent, TState, TState)> BuilderView<
    TState,
    TEvent,
    TTrigger,
> {
    /// A builder that has declared nothing yet.
    pub open spec fn empty(initial_state: TState) -> Self {
        BuilderView {
            current: initial_state,
            definition: DefinitionView {
                initial_state,
                states: Set::empty(),
                start_states: Set::empty(),
                end_states: Set::empty(),
                transitions: Map::empty(),
                triggers: Map::empty(),
            },
        }
    }

    /// The declarations so far are sound, and the current state is the
    /// initial marker or a declared state.
    pub open spec fn wf(self) -> bool {
        &&& self.definition.wf()
        &&& self.current == self.definition.initial_state || self.definition.states.contains(
            self.current,
        )
    }

    /// Nothing is owed: every declared state that is no end state has a
    /// transition that leaves it.
    pub open spec fn settled(self) -> bool {
        &&& self.wf()
        &&& self.definition.complete()
    }

    /// The current state is a declared state that is no end state, and it is
    /// the only one that may still be without a transition that leaves it.
    pub open spec fn pending(self) -> bool {
        &&& self.wf()
        &&& self.definition.states.contains(self.current)
        &&& !self.definition.end_states.contains(self.current)
        &&& forall|state: TState| #[trigger]
            self.definition.states.contains(state) && !self.definition.end_states.contains(state)
                && state != self.current ==> self.definition.has_exit(state)
    }

    /// Declares `state` as a state of the given kind and makes it the
    /// current state. The initial marker and a declared state are refused.
    pub open spec fn declare(self, state: TState, kind: NodeType) -> Result<
        Self,
        BuilderError<TState, TEvent>,
    > {
        if state == self.definition.initial_state {
            Err(BuilderError::RedefinedInitialState)
        } else if self.definition.states.contains(state) {
            Err(BuilderError::StateAlreadyDefined { state })
        } else {
            Ok(
                BuilderView {
                    current: state,
                    definition: DefinitionView {
                        states: self.definition.states.insert(state),
                        start_states: if kind.is_start() {
                            self.definition.start_states.insert(state)
                        } else {
                            self.definition.start_states
                        },
                        end_states: if kind.is_end() {
                            self.definition.end_states.insert(state)
                        } else {
                            self.definition.end_states
                        },
                        ..self.definition
                    },
                },
            )
        }
    }

    /// Adds the transition from `from` on `event` to `to`. A second
    /// transition for a state and an event is refused, with the target of the
    /// first.
    pub open spec fn connect(self, from: TState, event: TEvent, to: TState) -> Result<
        Self,
        BuilderError<TState, TEvent>,
    > {
        if self.definition.transitions.contains_key((from, event)) {
            Err(
                BuilderError::TransitionAlreadyDefined {
                    event,
                    existing: self.definition.transitions[(from, event)],
                },
            )
        } else {
            Ok(
                BuilderView {
                    definition: DefinitionView {
                        transitions: self.definition.transitions.insert((from, event), to),
                        ..self.definition
                    },
                    ..self
                },
            )
        }
    }

    /// Declares `state` as a start state of the given kind and adds the
    /// transition that leads to it from the initial marker on `event`.
    pub open spec fn declare_start(self, event: TEvent, state: TState, kind: NodeType) -> Result<
        Self,
        BuilderError<TState, TEvent>,
    > {
        match self.declare(state, kind) {
            Ok(declared) => declared.connect(self.definition.initial_state, event, state),
            Err(error) => Err(error),
        }
    }

    /// Registers `trigger` as the last trigger of `state`.
    pub open spec fn with_trigger(self, state: TState, trigger: TTrigger) -> Self {
        BuilderView {
            definition: DefinitionView {
                triggers: self.definition.triggers.insert(
                    state,
                    triggers_for(self.definition.triggers, state).push(trigger),
                ),
                ..self.definition
            },
            ..self
        }
    }

    /// A state that was declared cannot be declared again, whatever its kind:
    /// the second declaration fails with the state.
    pub proof fn lemma_declare_twice(self, state: TState, first: NodeType, second: NodeType)
        requires
            self.declare(state, first) is Ok,
        ensures
            self.declare(state, first)->Ok_0.declare(state, second) == Err::<
                Self,
                BuilderError<TState, TEvent>,
            >(BuilderError::StateAlreadyDefined { state }),
    {
    }

    /// A start state that was declared cannot be declared again, neither as
    /// a start state nor as any other state.
    pub proof fn lemma_declare_start_twice(
        self,
        event: TEvent,
        state: TState,
        first: NodeType,
        again: TEvent,
        second: NodeType,
    )
        requires
            self.declare_start(event, state, first) is Ok,
        ensures
            self.declare_start(event, state, first)->Ok_0.declare(state, second) == Err::<
                Self,
                BuilderError<TState, TEvent>,
            >(BuilderError::StateAlreadyDefined { state }),
            self.declare_start(event, state, first)->Ok_0.declare_start(again, state, second)
                == Err::<Self, BuilderError<TState, TEvent>>(
                BuilderError::StateAlreadyDefined { state },
            ),
    {
    }

    /// A second transition for a state and an event fails with the event and
    /// the target of the first, wherever the second was to lead.
    pub proof fn lemma_connect_twice(
        self,
        from: TState,
        event: TEvent,
        first: TState,
        second: TState,
    )
        requires
            self.connect(from, event, first) is Ok,
        ensures
            self.connect(from, event, first)->Ok_0.connect(from, event, second) == Err::<
                Self,
                BuilderError<TState, TEvent>,
            >(BuilderError::TransitionAlreadyDefined { event, existing: first }),
    {
    }

    /// Declaring a state that is no start state where nothing is owed leaves
    /// nothing owed if it is an end state, and the new state owing its
    /// transitions otherwise.
    pub proof fn lemma_declare(self, state: TState, kind: NodeType)
        requires
            self.settled(),
            !kind.is_start(),
            self.declare(state, kind) is Ok,
        ensures
            kind.is_end() ==> self.declare(state, kind)->Ok_0.settled(),
            !kind.is_end() ==> self.declare(state, kind)->Ok_0.pending(),
    {
        let next = self.declare(state, kind)->Ok_0;
        assert forall|other: TState| #[trigger]
            next.definition.start_states.contains(other) <==> next.definition.starts_with(
                other,
            ) by {
            self.definition.lemma_starts_with(next.definition, other);
        }
        assert forall|other: TState| #[trigger]
            next.definition.states.contains(other) && !next.definition.end_states.contains(other)
                && other != state implies next.definition.has_exit(other) by {
            assert(self.definition.states.contains(other));
            assert(self.definition.has_exit(other));
            let event = choose|event: TEvent| #[trigger]
                self.definition.transitions.contains_key((other, event));
            assert(next.definition.transitions.contains_key((other, event)));
        }
    }

    /// A start state declared where nothing is owed leaves nothing owed if it
    /// is an end state too, and owes its transitions otherwise.
    pub proof fn lemma_declare_start(self, event: TEvent, state: TState, kind: NodeType)
        requires
            self.settled(),
            kind.is_start(),
            self.declare_start(event, state, kind) is Ok,
        ensures
            kind.is_end() ==> self.declare_start(event, state, kind)->Ok_0.settled(),
            !kind.is_end() ==> self.declare_start(event, state, kind)->Ok_0.pending(),
    {
        let initial = self.definition.initial_state;
        let before = self.definition;
        let next = self.declare_start(event, state, kind)->Ok_0;
        let after = next.definition;
        assert(after.initial_state == initial);
        assert(after.transitions == before.transitions.insert((initial, event), state));
        assert(arrow(after.transitions, after.initial_state, event, state));
        assert forall|other: TState| #[trigger]
            after.start_states.contains(other) <==> after.starts_with(other) by {
            assert(before.start_states.contains(other) <==> before.starts_with(other));
            if other == state {
                assert(after.start_states.contains(state));
                assert(after.starts_with(state));
            } else {
                assert(after.start_states.contains(other) == before.start_states.contains(other));
                if before.starts_with(other) {
                    let known = choose|known: TEvent| #[trigger]
                        arrow(before.transitions, initial, known, other);
                    assert(arrow(after.transitions, initial, known, other));
                    assert(after.starts_with(other));
                }
                if after.starts_with(other) {
                    let known = choose|known: TEvent| #[trigger]
                        arrow(after.transitions, initial, known, other);
                    assert(arrow(before.transitions, initial, known, other));
                    assert(before.starts_with(other));
                }
            }
        }
        assert forall|other: TState| #[trigger]
            after.states.contains(other) && !after.end_states.contains(other) && other
                != state implies after.has_exit(other) by {
            assert(before.states.contains(other));
            assert(before.has_exit(other));
            let known = choose|known: TEvent| #[trigger]
                before.transitions.contains_key((other, known));
            assert(after.transitions.contains_key((other, known)));
        }
    }

    /// A transition that leaves the current state settles what was owed.
    pub proof fn lemma_connect_current(self, event: TEvent, to: TState)
        requires
            self.pending(),
            self.connect(self.current, event, to) is Ok,
        ensures
            self.connect(self.current, event, to)->Ok_0.settled(),
            self.connect(self.current, event, to)->Ok_0.pending(),
    {
        let initial = self.definition.initial_state;
        let before = self.definition;
        let after = self.connect(self.current, event, to)->Ok_0.definition;
        assert(after.transitions.contains_key((self.current, event)));
        assert forall|other: TState| #[trigger]
            after.start_states.contains(other) <==> after.starts_with(other) by {
            assert(before.start_states.contains(other) <==> before.starts_with(other));
            if before.starts_with(other) {
                let known = choose|known: TEvent| #[trigger]
                    arrow(before.transitions, initial, known, other);
                assert(arrow(after.transitions, initial, known, other));
            }
            if after.starts_with(other) {
                let known = choose|known: TEvent| #[trigger]
                    arrow(after.transitions, initial, known, other);
                assert(arrow(before.transitions, initial, known, other));
            }
        }
        assert forall|other: TState| before.has_exit(other) implies after.has_exit(other) by {
            let known = choose|known: TEvent| #[trigger]
                before.transitions.contains_key((other, known));
            assert(after.transitions.contains_key((other, known)));
        }
    }

    /// A trigger that may be called for the transitions that land on its
    /// state changes nothing but the trigger table.
    pub proof fn lemma_with_trigger(self, state: TState, trigger: TTrigger)
        requires
            self.wf(),
            accepts::<TState, TEvent, TTrigger>(trigger, state),
        ensures
            self.with_trigger(state, trigger).wf(),
            self.settled() ==> self.with_trigger(state, trigger).settled(),
            self.pending() ==> self.with_trigger(state, trigger).pending(),
    {
        let next = self.with_trigger(state, trigger);
        let before = triggers_for(self.definition.triggers, state);
        assert forall|other: TState| #[trigger]
            next.definition.start_states.contains(other) <==> next.definition.starts_with(
                other,
            ) by {
            self.definition.lemma_starts_with(next.definition, other);
        }
        assert forall|other: TState|
            self.definition.has_exit(other) implies next.definition.has_exit(other) by {
            let event = choose|event: TEvent| #[trigger]
                self.definition.transitions.contains_key((other, event));
            assert(next.definition.transitions.contains_key((other, event)));
        }
        assert forall|other: TState, i: int|
            next.definition.triggers.contains_key(other) && 0 <= i
                < next.definition.triggers[other].len() implies accepts::<TState, TEvent, TTrigger>(
            #[trigger] next.definition.triggers[other][i],
            other,
        ) by {
            if other == state {
                if i < before.len() {
                    assert(next.definition.triggers[state][i] == before[i]);
                }
            } else {
                assert(self.definition.triggers[other][i] == next.definition.triggers[other][i]);
            }
        }
    }
}

/// Fluent state machine builder, which is used to build a validated
/// [`StateMachineDefinition`](crate::state_machine::StateMachineDefinition).
///
/// Validation occurs in three separate phases:
///
/// 1. the builder passes through phases, each of which offers only the
///    declarations that are in order there;
/// 2. every declaration is checked against those made before it;
/// 3. when the definition is built, unreachable and undefined states are
///    detected.
///
/// `TPhase` is the builder's phase, one of the markers of
/// [`phase`](crate::builder::phase). A builder always holds declarations
/// that are sound for its phase.
pub struct StateMachineBuilder<
    TState: Copy + Eq + Hash,
    TEvent: Copy + Eq + Hash,
    TTrigger: Fn(TEvent, TState, TState),
    TPhase: Phase = InitialPhase,
> {
    pub(crate) phase: PhantomData<TPhase>,
    pub(crate) current: TState,
    pub(crate) initial_state: TState,
    pub(crate) end_states: HashSet<TState>,
    pub(crate) start_states: HashSet<TState>,
    pub(crate) states: HashSet<TState>,
    pub(crate) transitions: TransitionTable<TState, TEvent>,
    pub(crate) triggers: TriggerTable<TState, TTrigger>,
}

impl<
    TState: Copy + Eq + Hash,
    TEvent: Copy + Eq + Hash,
    TTrigger: Fn(TEvent, TState, TState),
    TPhase: Phase,
> View for StateMachineBuilder<TState, TEvent, TTrigger, TPhase> {
    type V = BuilderView<TState, TEvent, TTrigger>;

    closed spec fn view(&self) -> BuilderView<TState, TEvent, TTrigger> {
        BuilderView {
            current: self.current,
            definition: DefinitionView {
                initial_state: self.initial_state,
                states: self.states@,
                start_states: self.start_states@,
                end_states: self.end_states@,
                transitions: self.transitions@,
                triggers: self.triggers@,
            },
        }
    }
}

impl<
    TState: Copy + Default + Eq + Hash,
    TEvent: Copy + Eq + Hash,
    TTrigger: Fn(TEvent, TState, TState),
> StateMachineBuilder<TState, TEvent, TTrigger, InitialPhase> {
    /// Creates a new builder in its initial phase, in which a start state is
    /// to be declared. The default value of `TState` is the initial state.
    ///
    /// States and events have to compare by value, and to hash accordingly:
    /// two of them are equal exactly if `==` says so, and equal values have
    /// equal hashes.
    #[must_use]
    pub fn new() -> (builder: Self)
        requires
            obeys_concrete_eq::<TState>(),
            obeys_concrete_eq::<TEvent>(),
            obeys_key_model::<TState>(),
            obeys_key_model::<TEvent>(),
        ensures
            call_ensures(TState::default, (), builder@.definition.initial_state),
            builder@ == BuilderView::<TState, TEvent, TTrigger>::empty(
                builder@.definition.initial_state,
            ),
            builder@.settled(),
    {
        broadcast use vstd::std_specs::hash::group_hash_axioms;

        let initial_state = TState::default();
        let end_states: HashSet<TState> = HashSet::new();
        let start_states: HashSet<TState> = HashSet::new();
        let states: HashSet<TState> = HashSet::new();
        let transitions = TransitionTable::new();
        let triggers = TriggerTable::new();
        proof {
            let view = BuilderView::<TState, TEvent, TTrigger>::empty(initial_state);
            assert forall|state: TState| !view.definition.starts_with(state) by {
                if view.definition.starts_with(state) {
                    let event = choose|event: TEvent| #[trigger]
                        arrow(view.definition.transitions, initial_state, event, state);
                }
            }
            assert(view.settled());
        }
        StateMachineBuilder {
            phase: PhantomData,
            current: initial_state,
            initial_state,
            end_states,
            start_states,
            states,
            transitions,
            triggers,
        }
    }
}

impl<
    TState: Copy + Eq + Hash,
    TEvent: Copy + Eq + Hash,
    TTrigger: Fn(TEvent, TState, TState),
    TPhase: Phase,
> StateMachineBuilder<TState, TEvent, TTrigger, TPhase> {
    /// What a builder owes in its phase: while it defines a state that has
    /// transitions, that state alone may be without one; otherwise no state
    /// may. And past its initial phase a builder has declared a start state.
    #[verifier::type_invariant]
    pub open spec fn inv(&self) -> bool {
        &&& if TPhase::defining() {
            self@.pending()
        } else {
            self@.settled()
        }
        &&& TPhase::begun() ==> self@.definition.can_start()
    }

    /// The same builder in a phase that owes the same.
    pub(crate) fn advance<TNext: Phase>(self) -> (next: StateMachineBuilder<
        TState,
        TEvent,
        TTrigger,
        TNext,
    >)
        requires
            TNext::defining() == TPhase::defining(),
            TNext::begun() ==> TPhase::begun(),
        ensures
            next@ == self@,
    {
        proof {
            use_type_invariant(&self);
        }
        StateMachineBuilder {
            phase: PhantomData,
            current: self.current,
            initial_state: self.initial_state,
            end_states: self.end_states,
            start_states: self.start_states,
            states: self.states,
            transitions: self.transitions,
            triggers: self.triggers,
        }
    }

    /// Declares a new state of the given kind, which is no start state, and
    /// makes it the current state.
    pub(crate) fn add_state_impl<TNext: Phase>(self, state: TState, node_type: NodeType) -> (next:
        Result<StateMachineBuilder<TState, TEvent, TTrigger, TNext>, BuilderError<TState, TEvent>>)
        requires
            !TPhase::defining(),
            !node_type.is_start(),
            TNext::defining() == !node_type.is_end(),
            TNext::begun() ==> TPhase::begun(),
        ensures
            follows(next, self@.declare(state, node_type)),
    {
        broadcast use vstd::std_specs::hash::group_hash_axioms;

        let ghost before = self@;
        proof {
            use_type_invariant(&self);
            reveal(obeys_concrete_eq);
        }
        // the initial state stands for the machine before it starts
        if state == self.initial_state {
            return Err(BuilderError::RedefinedInitialState);
        }
        if self.states.contains(&state) {
            return Err(BuilderError::StateAlreadyDefined { state });
        }
        let mut states = self.states;
        let mut end_states = self.end_states;
        proof {
            before.lemma_declare(state, node_type);
            if before.definition.can_start() {
                let first = choose|first: TState| #[trigger]
                    before.definition.start_states.contains(first);
                assert(before.declare(state, node_type)->Ok_0.definition.start_states.contains(
                    first,
                ));
            }
        }
        states.insert(state);
        if node_type.ends() {
            end_states.insert(state);
        }
        Ok(
            StateMachineBuilder {
                phase: PhantomData,
                current: state,
                initial_state: self.initial_state,
                end_states,
                start_states: self.start_states,
                states,
                transitions: self.transitions,
                triggers: self.triggers,
            },
        )
    }

    /// Declares a new start state of the given kind, makes it the current
    /// state, and adds the transition that starts the machine with it.
    pub(crate) fn add_start_impl<TNext: Phase>(
        self,
        event: TEvent,
        state: TState,
        node_type: NodeType,
    ) -> (next: Result<
        StateMachineBuilder<TState, TEvent, TTrigger, TNext>,
        BuilderError<TState, TEvent>,
    >)
        requires
            !TPhase::defining(),
            node_type.is_start(),
            TNext::defining() == !node_type.is_end(),
        ensures
            follows(next, self@.declare_start(event, state, node_type)),
    {
        broadcast use vstd::std_specs::hash::group_hash_axioms;

        let ghost before = self@;
        proof {
            use_type_invariant(&self);
            reveal(obeys_concrete_eq);
        }
        // the initial state stands for the machine before it starts
        if state == self.initial_state {
            return Err(BuilderError::RedefinedInitialState);
        }
        if self.states.contains(&state) {
            return Err(BuilderError::StateAlreadyDefined { state });
        }
        let transitions = match self.transitions.insert(self.initial_state, event, state) {
            Ok(transitions) => transitions,
            Err(existing) => {
                return Err(BuilderError::TransitionAlreadyDefined { event, existing });
            },
        };
        let mut states = self.states;
        let mut start_states = self.start_states;
        let mut end_states = self.end_states;
        proof {
            before.lemma_declare_start(event, state, node_type);
            assert(before.declare_start(
                event,
                state,
                node_type,
            )->Ok_0.definition.start_states.contains(state));
        }
        states.insert(state);
        start_states.insert(state);
        if node_type.ends() {
            end_states.insert(state);
        }
        Ok(
            StateMachineBuilder {
                phase: PhantomData,
                current: state,
                initial_state: self.initial_state,
                end_states,
                start_states,
                states,
                transitions,
                triggers: self.triggers,
            },
        )
    }

    /// Declares a start state and the transition that starts the machine
    /// with it.
    #[inline]
    pub(crate) fn add_start_state_impl<TNext: Phase>(self, event: TEvent, state: TState) -> (next:
        Result<StateMachineBuilder<TState, TEvent, TTrigger, TNext>, BuilderError<TState, TEvent>>)
        requires
            !TPhase::defining(),
            TNext::defining(),
        ensures
            follows(next, self@.declare_start(event, state, NodeType::Start)),
    {
        self.add_start_impl(event, state, NodeType::Start)
    }

    /// Declares a state that starts and ends the machine, and the transition
    /// that starts the machine with it.
    #[inline]
    pub(crate) fn add_start_end_state_impl<TNext: Phase>(
        self,
        event: TEvent,
        state: TState,
    ) -> (next: Result<
        StateMachineBuilder<TState, TEvent, TTrigger, TNext>,
        BuilderError<TState, TEvent>,
    >)
        requires
            !TPhase::defining(),
            !TNext::defining(),
        ensures
            follows(next, self@.declare_start(event, state, NodeType::StartEnd)),
    {
        self.add_start_impl(event, state, NodeType::StartEnd)
    }

    /// Adds a transition from the current state on `event` to `next`.
    pub(crate) fn add_transition_impl<TNext: Phase>(self, event: TEvent, next: TState) -> (built:
        Result<StateMachineBuilder<TState, TEvent, TTrigger, TNext>, BuilderError<TState, TEvent>>)
        requires
            TPhase::defining(),
            TNext::begun() ==> TPhase::begun(),
        ensures
            follows(built, self@.connect(self@.current, event, next)),
    {
        let ghost before = self@;
        proof {
            use_type_invariant(&self);
        }
        match self.transitions.insert(self.current, event, next) {
            Ok(transitions) => {
                proof {
                    before.lemma_connect_current(event, next);
                    if before.definition.can_start() {
                        let first = choose|first: TState| #[trigger]
                            before.definition.start_states.contains(first);
                        assert(before.connect(
                            before.current,
                            event,
                            next,
                        )->Ok_0.definition.start_states.contains(first));
                    }
                }
                Ok(
                    StateMachineBuilder {
                        phase: PhantomData,
                        current: self.current,
                        initial_state: self.initial_state,
                        end_states: self.end_states,
                        start_states: self.start_states,
                        states: self.states,
                        transitions,
                        triggers: self.triggers,
                    },
                )
            },
            Err(existing) => Err(BuilderError::TransitionAlreadyDefined { event, existing }),
        }
    }

    /// Registers a trigger to call on every transition that lands on the
    /// current state.
    pub(crate) fn trigger_on_impl<TNext: Phase>(self, trigger: TTrigger) -> (next:
        StateMachineBuilder<TState, TEvent, TTrigger, TNext>)
        requires
            TNext::defining() == TPhase::defining(),
            TNext::begun() ==> TPhase::begun(),
            accepts::<TState, TEvent, TTrigger>(trigger, self@.current),
        ensures
            next@ == self@.with_trigger(self@.current, trigger),
    {
        let ghost before = self@;
        proof {
            use_type_invariant(&self);
            before.lemma_with_trigger(before.current, trigger);
            if before.definition.can_start() {
                let first = choose|first: TState| #[trigger]
                    before.definition.start_states.contains(first);
                assert(before.with_trigger(
                    before.current,
                    trigger,
                ).definition.start_states.contains(first));
            }
        }
        let mut triggers = self.triggers;
        triggers.add(self.current, trigger);
        StateMachineBuilder {
            phase: PhantomData,
            current: self.current,
            initial_state: self.initial_state,
            end_states: self.end_states,
            start_states: self.start_states,
            states: self.states,
            transitions: self.transitions,
            triggers,
        }
    }

    /// Validates the declarations as a whole and builds the definition.
    ///
    /// Fails with all transition targets that were never declared and all
    /// declared states that no transition leads to, if there are any.
    pub(crate) fn build_impl(self) -> (built: Result<
        StateMachineDefinition<TState, TEvent, TTrigger>,
        BuilderError<TState, TEvent>,
    >)
        requires
            !TPhase::defining(),
            TPhase::begun(),
        ensures
            match built {
                Ok(definition) => definition@ == self@.definition && definition@.valid(),
                Err(BuilderError::ValidationError { undefined_states, unreachable }) => {
                    &&& undefined_states@.no_duplicates()
                    &&& undefined_states@.to_set() == self@.definition.undefined_states()
                    &&& unreachable@.no_duplicates()
                    &&& unreachable@.to_set() == self@.definition.unreachable_states()
                    &&& undefined_states@.len() > 0 || unreachable@.len() > 0
                },
                Err(_) => false,
            },
            forall|state: TState|
                self@.definition.undefined_states().contains(state) ==> (built matches Err(
                    BuilderError::ValidationError { undefined_states, .. },
                ) && undefined_states@.contains(state)),
            forall|state: TState|
                self@.definition.unreachable_states().contains(state) ==> (built matches Err(
                    BuilderError::ValidationError { unreachable, .. },
                ) && unreachable@.contains(state)),
    {
        broadcast use vstd::std_specs::hash::group_hash_axioms;

        proof {
            use_type_invariant(&self);
        }
        let ghost table = self.transitions@;
        let ghost declared = self.states@;
        let rows = self.transitions.rows();
        let count = rows.len();
        let mut undefined: HashSet<TState> = HashSet::new();
        let mut i: usize = 0;
        while i < count
            invariant
                obeys_key_model::<TState>(),
                declared == self.states@,
                count == rows@.len(),
                i <= count,
                forall|state: TState|
                    undefined@.contains(state) <==> !declared.contains(state) && has_target(
                        rows@.take(i as int),
                        state,
                    ),
            decreases count - i,
        {
            let row = rows[i];
            if !self.states.contains(&row.to) {
                undefined.insert(row.to);
            }
            proof {
                assert forall|state: TState|
                    undefined@.contains(state) <==> !declared.contains(state) && has_target(
                        rows@.take(i + 1),
                        state,
                    ) by {
                    lemma_has_target_step(rows@, i as int, state);
                }
            }
            i += 1;
        }
        let undefined_states = set_items(&undefined);
        let states = set_items(&self.states);
        let total = states.len();
        let mut unreachable: Vec<TState> = Vec::new();
        let mut k: usize = 0;
        while k < total
            invariant
                obeys_concrete_eq::<TState>(),
                states@.no_duplicates(),
                total == states@.len(),
                k <= total,
                unreachable@.no_duplicates(),
                forall|state: TState|
                    unreachable@.to_set().contains(state) <==> !has_target(rows@, state)
                        && states@.take(k as int).to_set().contains(state),
            decreases total - k,
        {
            let state = states[k];
            proof {
                assert(states@.take(k + 1) =~= states@.take(k as int).push(state));
                lemma_push_to_set(states@.take(k as int), state);
                lemma_push_to_set(unreachable@, state);
                if unreachable@.to_set().contains(state) {
                    let earlier = states@.take(k as int);
                    let j = choose|j: int| 0 <= j < earlier.len() && earlier[j] == state;
                    assert(states@[j] == states@[k as int]);
                }
            }
            if !holds_target(&rows, state) {
                unreachable.push(state);
            }
            k += 1;
        }
        proof {
            let definition = self@.definition;
            assert(rows@.take(count as int) =~= rows@);
            assert(states@.take(total as int) =~= states@);
            assert forall|state: TState| leads_to(table, state) <==> has_target(rows@, state) by {
                lemma_targets(rows@, state);
            }
            assert(undefined_states@.to_set() =~= definition.undefined_states());
            assert(unreachable@.to_set() =~= definition.unreachable_states());
        }
        if undefined_states.len() == 0 && unreachable.len() == 0 {
            proof {
                let definition = self@.definition;
                assert forall|state: TState|
                    definition.leads_to(state) implies definition.states.contains(state) by {
                    assert(!undefined_states@.contains(state));
                    assert(!definition.undefined_states().contains(state));
                }
                assert forall|state: TState| #[trigger]
                    definition.states.contains(state) implies definition.leads_to(state) by {
                    assert(!unreachable@.contains(state));
                    assert(!definition.unreachable_states().contains(state));
                }
            }
            Ok(
                StateMachineDefinition::assemble(
                    self.initial_state,
                    self.states,
                    self.start_states,
                    self.end_states,
                    self.transitions,
                    self.triggers,
                ),
            )
        } else {
            Err(BuilderError::ValidationError { undefined_states, unreachable })
        }
    }
}

} // verus!

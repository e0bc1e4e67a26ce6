//! The validated description of a state machine, shared by its instances.
use std::collections::HashSet;
use std::rc::Rc;
use std::hash::Hash;
use vstd::prelude::*;
use vstd::laws_eq::obeys_concrete_eq;
use vstd::std_specs::hash::obeys_key_model;
use crate::graph::has_cycle;
use crate::state_machine::fsm::{FiniteStateMachine, MachineView};
use crate::state_machine::machine::StateMachine;
use crate::state_machine::table::{arrow, leads_to, TransitionTable};
use crate::state_machine::triggers::{all_accept, TriggerTable};

verus! {

/// What a state machine definition stands for: the initial marker, the
/// declared states with those among them that start and end the machine,
/// the transition table and the trigger table.
#[verifier::reject_recursive_types(TState)]
#[verifier::reject_recursive_types(TEvent)]
pub struct DefinitionView<TState, TEvent, TTrigger> {
    pub initial_state: TState,
    pub states: Set<TState>,
    pub start_states: Set<TState>,
    pub end_states: Set<TState>,
    pub transitions: Map<(TState, TEvent), TState>,
    pub triggers: Map<TState, Seq<TTrigger>>,
}

impl<TState: Eq, TEvent: Eq, TTrigger: Fn(TEvent, TState, TState)> DefinitionView<
    TState,
    TEvent,
    TTrigger,
> {
    /// Whether some transition has `target` as its target.
    pub open spec fn leads_to(self, target: TState) -> bool {
        leads_to(self.transitions, target)
    }

    /// Whether some event leads from the initial marker to `state`.
    pub open spec fn starts_with(self, state: TState) -> bool {
        exists|event: TEvent| #[trigger] arrow(self.transitions, self.initial_state, event, state)
    }

    /// Whether the initial marker leads to a state depends on the initial
    /// marker and the transitions alone.
    pub proof fn lemma_starts_with(self, other: Self, state: TState)
        requires
            self.initial_state == other.initial_state,
            self.transitions == other.transitions,
        ensures
            self.starts_with(state) == other.starts_with(state),
    {
        if self.starts_with(state) {
            let event = choose|event: TEvent| #[trigger]
                arrow(self.transitions, self.initial_state, event, state);
            assert(arrow(other.transitions, other.initial_state, event, state));
        }
        if other.starts_with(state) {
            let event = choose|event: TEvent| #[trigger]
                arrow(other.transitions, other.initial_state, event, state);
            assert(arrow(self.transitions, self.initial_state, event, state));
        }
    }

    /// Whether some transition leaves `state`.
    pub open spec fn has_exit(self, state: TState) -> bool {
        exists|event: TEvent| #[trigger] self.transitions.contains_key((state, event))
    }

    /// The transition targets that were never declared.
    pub open spec fn undefined_states(self) -> Set<TState> {
        Set::new(|state: TState| self.leads_to(state) && !self.states.contains(state))
    }

    /// The declared states that no transition has as its target.
    pub open spec fn unreachable_states(self) -> Set<TState> {
        Set::new(|state: TState| self.states.contains(state) && !self.leads_to(state))
    }

    /// What every step of building keeps: states and events compare by
    /// value and hash accordingly, the initial marker is no declared state, start and end states
    /// are declared, the start states are the states that the initial marker
    /// leads to, transitions leave only the initial marker and declared
    /// states that are no end states, and every trigger may be called for the
    /// transitions that land on its state.
    pub open spec fn wf(self) -> bool {
        &&& obeys_concrete_eq::<TState>()
        &&& obeys_concrete_eq::<TEvent>()
        &&& obeys_key_model::<TState>()
        &&& obeys_key_model::<TEvent>()
        &&& !self.states.contains(self.initial_state)
        &&& forall|state: TState| #[trigger]
            self.start_states.contains(state) ==> self.states.contains(state)
        &&& forall|state: TState| #[trigger]
            self.end_states.contains(state) ==> self.states.contains(state)
        &&& forall|state: TState| #[trigger]
            self.start_states.contains(state) <==> self.starts_with(state)
        &&& forall|from: TState, event: TEvent| #[trigger]
            self.transitions.contains_key((from, event)) ==> {
                &&& from == self.initial_state || self.states.contains(from)
                &&& !self.end_states.contains(from)
            }
        &&& all_accept::<TState, TEvent, TTrigger>(self.triggers)
    }

    /// Every declared state that is no end state has a transition that
    /// leaves it.
    pub open spec fn complete(self) -> bool {
        forall|state: TState| #[trigger]
            self.states.contains(state) && !self.end_states.contains(state) ==> self.has_exit(
                state,
            )
    }

    /// Whether some state starts the machine.
    pub open spec fn can_start(self) -> bool {
        exists|state: TState| #[trigger] self.start_states.contains(state)
    }

    /// What holds of a definition that was built: beyond [`Self::wf`] and
    /// [`Self::complete`], some state starts the machine, every transition
    /// target is a declared state and every declared state is the target of
    /// a transition.
    pub open spec fn valid(self) -> bool {
        &&& self.wf()
        &&& self.complete()
        &&& self.can_start()
        &&& forall|state: TState| self.leads_to(state) ==> self.states.contains(state)
        &&& forall|state: TState| #[trigger] self.states.contains(state) ==> self.leads_to(state)
    }

    /// In a valid definition some event leads from the initial marker to a
    /// state, every declared state that is no end state has a transition
    /// that leaves it, every transition leads to a declared state, and every
    /// start state and every end state is declared.
    pub proof fn lemma_valid(self)
        requires
            self.valid(),
        ensures
            exists|event: TEvent| #[trigger]
                self.transitions.contains_key((self.initial_state, event)),
            forall|state: TState|
                self.states.contains(state) && !self.end_states.contains(state) ==> exists|
                    event: TEvent,
                | #[trigger] self.transitions.contains_key((state, event)),
            forall|from: TState, event: TEvent| #[trigger]
                self.transitions.contains_key((from, event)) ==> self.states.contains(
                    self.transitions[(from, event)],
                ),
            forall|state: TState|
                self.start_states.contains(state) || self.end_states.contains(state)
                    ==> self.states.contains(state),
    {
        let first = choose|state: TState| #[trigger] self.start_states.contains(state);
        assert(self.starts_with(first));
        let start = choose|event: TEvent| #[trigger]
            arrow(self.transitions, self.initial_state, event, first);
        assert(self.transitions.contains_key((self.initial_state, start)));
        assert forall|state: TState|
            self.states.contains(state) && !self.end_states.contains(state) implies exists|
            event: TEvent,
        | #[trigger] self.transitions.contains_key((state, event)) by {
            assert(self.has_exit(state));
        }
        assert forall|from: TState, event: TEvent| #[trigger]
            self.transitions.contains_key((from, event)) implies self.states.contains(
            self.transitions[(from, event)],
        ) by {
            assert(arrow(self.transitions, from, event, self.transitions[(from, event)]));
            assert(self.leads_to(self.transitions[(from, event)]));
        }
    }

    /// The definition with another trigger table.
    pub open spec fn with_triggers(self, triggers: Map<TState, Seq<TTrigger>>) -> Self {
        DefinitionView { triggers, ..self }
    }

    /// Another trigger table, whose triggers may be called for the
    /// transitions that land on their states, leaves a definition valid and
    /// its cycles what they are.
    pub proof fn lemma_with_triggers(self, triggers: Map<TState, Seq<TTrigger>>)
        requires
            self.valid(),
            all_accept::<TState, TEvent, TTrigger>(triggers),
        ensures
            self.with_triggers(triggers).valid(),
            self.with_triggers(triggers).has_cycles() == self.has_cycles(),
    {
        let after = self.with_triggers(triggers);
        let first = choose|state: TState| #[trigger] self.start_states.contains(state);
        assert(after.start_states.contains(first));
        assert forall|state: TState| #[trigger]
            after.start_states.contains(state) <==> after.starts_with(state) by {
            self.lemma_starts_with(after, state);
        }
        assert forall|state: TState| self.has_exit(state) implies after.has_exit(state) by {
            let event = choose|event: TEvent| #[trigger]
                self.transitions.contains_key((state, event));
            assert(after.transitions.contains_key((state, event)));
        }
        assert(after.cycle_edges() =~= self.cycle_edges());
    }

    /// The edges of the graph in which cycles are looked for: the
    /// transitions between declared states, with end states as sinks.
    pub open spec fn cycle_edges(self) -> Set<(TState, TState)> {
        Set::new(
            |edge: (TState, TState)|
                edge.0 != self.initial_state && !self.end_states.contains(edge.0) && exists|
                    event: TEvent,
                | #[trigger] arrow(self.transitions, edge.0, event, edge.1),
        )
    }

    /// Whether the transitions between declared states hold a cycle.
    pub open spec fn has_cycles(self) -> bool {
        has_cycle(self.cycle_edges())
    }
}

/// Definition of a state machine: all states, transition edges and optional
/// triggers.
///
/// A definition comes out of a builder validated, and is shared by the
/// instances created from it. It is always valid, in the sense of
/// [`DefinitionView::valid`].
pub struct StateMachineDefinition<
    TState: Copy + Eq + Hash,
    TEvent: Copy + Eq + Hash,
    TTrigger: Fn(TEvent, TState, TState),
> {
    pub(crate) initial_state: TState,
    pub(crate) states: Rc<HashSet<TState>>,
    pub(crate) start_states: Rc<HashSet<TState>>,
    pub(crate) end_states: Rc<HashSet<TState>>,
    pub(crate) transitions: Rc<TransitionTable<TState, TEvent>>,
    pub(crate) triggers: Rc<TriggerTable<TState, TTrigger>>,
}

impl<
    TState: Copy + Eq + Hash,
    TEvent: Copy + Eq + Hash,
    TTrigger: Fn(TEvent, TState, TState),
> View for StateMachineDefinition<TState, TEvent, TTrigger> {
    type V = DefinitionView<TState, TEvent, TTrigger>;

    closed spec fn view(&self) -> DefinitionView<TState, TEvent, TTrigger> {
        DefinitionView {
            initial_state: self.initial_state,
            states: self.states@,
            start_states: self.start_states@,
            end_states: self.end_states@,
            transitions: self.transitions@,
            triggers: self.triggers@,
        }
    }
}

/// A second handle to the value that `handle` refers to.
///
/// This is `Rc::clone` of the standard library. That the new handle holds
/// the same value as the first is taken from its documentation, and not
/// proved here.
#[verifier::external_body]
fn share<T>(handle: &Rc<T>) -> (shared: Rc<T>)
    ensures
        shared == *handle,
{
    Rc::clone(handle)
}

impl<
    TState: Copy + Eq + Hash,
    TEvent: Copy + Eq + Hash,
    TTrigger: Fn(TEvent, TState, TState),
> Clone for StateMachineDefinition<TState, TEvent, TTrigger> {
    /// A definition that shares its tables with this one.
    fn clone(&self) -> (copy: Self)
        ensures
            copy@ == self@,
    {
        proof {
            use_type_invariant(self);
        }
        StateMachineDefinition {
            initial_state: self.initial_state,
            states: share(&self.states),
            start_states: share(&self.start_states),
            end_states: share(&self.end_states),
            transitions: share(&self.transitions),
            triggers: share(&self.triggers),
        }
    }
}

impl<
    TState: Copy + Eq + Hash,
    TEvent: Copy + Eq + Hash,
    TTrigger: Fn(TEvent, TState, TState),
> StateMachineDefinition<TState, TEvent, TTrigger> {
    /// A definition is valid.
    #[verifier::type_invariant]
    pub open spec fn inv(&self) -> bool {
        self@.valid()
    }

    /// Creates a new state machine from the state machine definition. The
    /// machine is not started.
    pub fn create(&self) -> (machine: impl FiniteStateMachine<TState, TEvent, TTrigger>)
        ensures
            machine@ == MachineView::fresh(self@),
            machine@.wf(),
    {
        proof {
            use_type_invariant(self);
        }
        StateMachine::new(self.clone())
    }

    /// Puts a definition together from its parts.
    pub(crate) fn assemble(
        initial_state: TState,
        states: HashSet<TState>,
        start_states: HashSet<TState>,
        end_states: HashSet<TState>,
        transitions: TransitionTable<TState, TEvent>,
        triggers: TriggerTable<TState, TTrigger>,
    ) -> (definition: Self)
        requires
            (DefinitionView {
                initial_state,
                states: states@,
                start_states: start_states@,
                end_states: end_states@,
                transitions: transitions@,
                triggers: triggers@,
            }).valid(),
        ensures
            definition@ == (DefinitionView {
                initial_state,
                states: states@,
                start_states: start_states@,
                end_states: end_states@,
                transitions: transitions@,
                triggers: triggers@,
            }),
    {
        StateMachineDefinition {
            initial_state,
            states: Rc::new(states),
            start_states: Rc::new(start_states),
            end_states: Rc::new(end_states),
            transitions: Rc::new(transitions),
            triggers: Rc::new(triggers),
        }
    }

    /// The marker that stands for the machine before it starts.
    pub fn initial_state(&self) -> (initial_state: TState)
        ensures
            initial_state == self@.initial_state,
            self@.valid(),
    {
        proof {
            use_type_invariant(self);
        }
        self.initial_state
    }

    /// The declared states.
    pub fn states(&self) -> (states: &HashSet<TState>)
        ensures
            states@ == self@.states,
    {
        &self.states
    }

    /// The states that start the machine.
    pub fn start_states(&self) -> (start_states: &HashSet<TState>)
        ensures
            start_states@ == self@.start_states,
    {
        &self.start_states
    }

    /// The states that end the machine.
    pub fn end_states(&self) -> (end_states: &HashSet<TState>)
        ensures
            end_states@ == self@.end_states,
    {
        &self.end_states
    }

    /// The transition table.
    pub fn transitions(&self) -> (transitions: &TransitionTable<TState, TEvent>)
        ensures
            transitions@ == self@.transitions,
    {
        &self.transitions
    }

    /// The trigger table.
    pub fn triggers(&self) -> (triggers: &TriggerTable<TState, TTrigger>)
        ensures
            triggers@ == self@.triggers,
    {
        &self.triggers
    }

    /// A definition with a trigger table of its own, which shares its other
    /// tables with this one.
    pub fn with_triggers(&self, triggers: TriggerTable<TState, TTrigger>) -> (definition: Self)
        requires
            all_accept::<TState, TEvent, TTrigger>(triggers@),
        ensures
            definition@ == self@.with_triggers(triggers@),
    {
        proof {
            use_type_invariant(self);
            self@.lemma_with_triggers(triggers@);
        }
        StateMachineDefinition {
            initial_state: self.initial_state,
            states: share(&self.states),
            start_states: share(&self.start_states),
            end_states: share(&self.end_states),
            transitions: share(&self.transitions),
            triggers: Rc::new(triggers),
        }
    }
}

} // verus!

//! A running instance of a state machine definition.
use std::ops::Deref;
use std::hash::Hash;
use vstd::prelude::*;
use vstd::laws_eq::obeys_concrete_eq;
use crate::state_machine::definition::StateMachineDefinition;
use crate::state_machine::detect::detect_cycles;
use crate::state_machine::error::StateError;
use crate::state_machine::fsm::{FiniteStateMachine, MachineView};
use crate::state_machine::table::{arrow, lemma_table_of, Transition};
use crate::state_machine::triggers::{fire_all, triggers_of, TriggerTable};

verus! {

/// A state machine: a definition and the state that the machine is in.
///
/// A state machine is always sound, in the sense of [`MachineView::wf`].
pub struct StateMachine<
    TState: Copy + Eq + Hash,
    TEvent: Copy + Eq + Hash,
    TTrigger: Fn(TEvent, TState, TState),
> {
    pub(crate) current_state: TState,
    pub(crate) has_cycle: Option<bool>,
    pub(crate) definition: StateMachineDefinition<TState, TEvent, TTrigger>,
}

impl<
    TState: Copy + Eq + Hash,
    TEvent: Copy + Eq + Hash,
    TTrigger: Fn(TEvent, TState, TState),
> View for StateMachine<TState, TEvent, TTrigger> {
    type V = MachineView<TState, TEvent, TTrigger>;

    closed spec fn view(&self) -> MachineView<TState, TEvent, TTrigger> {
        MachineView {
            current_state: self.current_state,
            has_cycle: self.has_cycle,
            definition: self.definition@,
        }
    }
}

impl<
    TState: Copy + Eq + Hash,
    TEvent: Copy + Eq + Hash,
    TTrigger: Fn(TEvent, TState, TState),
> Deref for StateMachine<TState, TEvent, TTrigger> {
    type Target = TState;

    fn deref(&self) -> (current: &TState)
        ensures
            *current == self@.current_state,
    {
        &self.current_state
    }
}

/// The events and targets of the rows at the given places.
spec fn edges_at<TState, TEvent>(
    rows: Seq<Transition<TState, TEvent>>,
    places: Seq<int>,
) -> Seq<(TEvent, TState)> {
    Seq::new(places.len(), |a: int| (rows[places[a]].event, rows[places[a]].to))
}

impl<
    TState: Copy + Eq + Hash,
    TEvent: Copy + Eq + Hash,
    TTrigger: Fn(TEvent, TState, TState),
> StateMachine<TState, TEvent, TTrigger> {
    /// A state machine is sound.
    #[verifier::type_invariant]
    pub open spec fn inv(&self) -> bool {
        self@.wf()
    }

    /// Initializes a new instance of a state machine, which is not started.
    pub fn new(definition: StateMachineDefinition<TState, TEvent, TTrigger>) -> (machine: Self)
        ensures
            machine@ == MachineView::fresh(definition@),
            machine@.wf(),
    {
        StateMachine { current_state: definition.initial_state(), has_cycle: None, definition }
    }

    /// Follows the transition on `event` from the current state, and calls
    /// the triggers of the state that it leads to.
    fn transition_on(&mut self, event: TEvent) -> (outcome: Result<
        TState,
        StateError<TState, TEvent>,
    >)
        ensures
            outcome == old(self)@.step(event),
            final(self)@ == old(self)@.moved(outcome),
            final(self)@.wf(),
            outcome matches Ok(next) ==> old(self)@.fired(event, old(self)@.current_state, next),
    {
        broadcast use vstd::std_specs::hash::group_hash_axioms;

        proof {
            use_type_invariant(&*self);
        }
        if self.definition.end_states().contains(&self.current_state) {
            return Err(StateError::EndState { end: self.current_state });
        }
        let transition = match self.definition.transitions().get(self.current_state, event) {
            Some(transition) => transition,
            None => {
                return Err(
                    StateError::InvalidTransition { event, current_state: self.current_state },
                );
            },
        };
        proof {
            assert(arrow(self@.definition.transitions, self.current_state, event, transition));
            assert(self@.definition.leads_to(transition));
        }
        if let Some(triggers) = self.definition.triggers().get(transition) {
            fire_all(triggers, event, self.current_state, transition);
        }
        self.current_state = transition;
        Ok(transition)
    }
}

impl<
    TState: Copy + Eq + Hash,
    TEvent: Copy + Eq + Hash,
    TTrigger: Fn(TEvent, TState, TState),
> FiniteStateMachine<TState, TEvent, TTrigger> for StateMachine<TState, TEvent, TTrigger> {
    fn clear_triggers(&mut self) {
        proof {
            use_type_invariant(&*self);
            self@.lemma_with_triggers(Map::empty());
        }
        self.definition = self.definition.with_triggers(TriggerTable::new());
    }

    fn current_state(&self) -> (current: TState) {
        self.current_state
    }

    fn event(&mut self, event: TEvent) -> (outcome: Result<TState, StateError<TState, TEvent>>) {
        proof {
            use_type_invariant(&*self);
        }
        if !self.is_started() {
            return Err(StateError::NotStarted);
        }
        self.transition_on(event)
    }

    fn has_cycles(&mut self) -> (cyclic: Option<bool>) {
        proof {
            use_type_invariant(&*self);
        }
        if self.has_cycle.is_none() {
            self.has_cycle = Some(detect_cycles(&self.definition));
        }
        self.has_cycle
    }

    fn is_end(&self) -> (end: bool) {
        broadcast use vstd::std_specs::hash::group_hash_axioms;

        proof {
            use_type_invariant(self);
        }
        self.definition.end_states().contains(&self.current_state)
    }

    fn is_started(&self) -> (started: bool) {
        proof {
            use_type_invariant(self);
            reveal(obeys_concrete_eq);
        }
        self.current_state != self.definition.initial_state()
    }

    fn new_triggers(&mut self, triggers: Vec<(TState, Vec<TTrigger>)>) {
        proof {
            use_type_invariant(&*self);
            self@.lemma_with_triggers(triggers_of(triggers@));
        }
        self.definition = self.definition.with_triggers(TriggerTable::from_lists(triggers));
    }

    fn next_states(&self) -> (edges: Vec<(TEvent, TState)>) {
        proof {
            use_type_invariant(self);
        }
        let mut edges: Vec<(TEvent, TState)> = Vec::new();
        if self.is_end() {
            assert(edges@.to_set() =~= self@.next_states());
            return edges;
        }
        let table = self.definition.transitions();
        let listed = table.rows();
        let count = listed.len();
        let ghost rows = listed@;
        let ghost mut places: Seq<int> = Seq::empty();
        let mut i: usize = 0;
        while i < count
            invariant
                obeys_concrete_eq::<TState>(),
                rows == listed@,
                count == rows.len(),
                i <= count,
                edges@ == edges_at(rows, places),
                forall|a: int| 0 <= a < places.len() ==> 0 <= #[trigger] places[a] < i,
                forall|a: int, b: int| 0 <= a < b < places.len() ==> places[a] < places[b],
                forall|a: int|
                    0 <= a < places.len() ==> (#[trigger] rows[places[a]]).from
                        == self.current_state,
                forall|j: int|
                    0 <= j < i && (#[trigger] rows[j]).from == self.current_state
                        ==> places.contains(j),
            decreases count - i,
        {
            proof {
                reveal(obeys_concrete_eq);
            }
            let row = listed[i];
            if row.from == self.current_state {
                edges.push((row.event, row.to));
                proof {
                    let ghost before = places;
                    places = places.push(i as int);
                    assert(edges@ =~= edges_at(rows, places));
                    assert forall|j: int|
                        0 <= j < i + 1 && (#[trigger] rows[j]).from
                            == self.current_state implies places.contains(j) by {
                        if j < i {
                            let a = choose|a: int| 0 <= a < before.len() && before[a] == j;
                            assert(places[a] == j);
                        } else {
                            assert(places[before.len() as int] == j);
                        }
                    }
                }
            }
            i += 1;
        }
        proof {
            lemma_table_of(rows);
            assert forall|a: int, b: int|
                0 <= a < edges@.len() && 0 <= b < edges@.len() && a != b implies edges@[a]
                != edges@[b] by {
                assert(rows[places[a]].key() != rows[places[b]].key());
            }
            assert forall|edge: (TEvent, TState)|
                edges@.to_set().contains(edge) <==> self@.next_states().contains(edge) by {
                if edges@.contains(edge) {
                    let a = choose|a: int| 0 <= a < edges@.len() && edges@[a] == edge;
                    assert(rows[places[a]].key() == (self.current_state, edge.0));
                }
                if self@.next_states().contains(edge) {
                    let j = choose|j: int|
                        0 <= j < rows.len() && (#[trigger] rows[j]).key() == (
                            self.current_state,
                            edge.0,
                        );
                    assert(rows[j].from == self.current_state);
                    let a = choose|a: int| 0 <= a < places.len() && places[a] == j;
                    assert(edges@[a] == edge);
                }
            }
            assert(edges@.to_set() =~= self@.next_states());
        }
        edges
    }

    fn reset(&mut self) -> (last: TState) {
        proof {
            use_type_invariant(&*self);
        }
        let last = self.current_state;
        self.current_state = self.definition.initial_state();
        last
    }

    fn start(&mut self, event: TEvent) -> (outcome: Result<TState, StateError<TState, TEvent>>) {
        proof {
            use_type_invariant(&*self);
        }
        if self.is_started() {
            return Err(StateError::AlreadyStarted { current_state: self.current_state });
        }
        if self.definition.transitions().get(self.definition.initial_state(), event).is_none() {
            return Err(StateError::NotAStartEvent { event });
        }
        self.transition_on(event)
    }
}

} // verus!

//! What a running state machine offers.
use std::ops::Deref;
use std::hash::Hash;
use vstd::prelude::*;
use crate::state_machine::definition::DefinitionView;
use crate::state_machine::error::StateError;
use crate::state_machine::table::arrow;
use crate::state_machine::triggers::{all_accept, triggers_for, triggers_of};

verus! {

/// What a running state machine stands for: the state it is in, what it
/// remembers of its definition having cycles, and its definition with the
/// instance's own triggers.
#[verifier::reject_recursive_types(TState)]
#[verifier::reject_recursive_types(TEvent)]
pub struct MachineView<TState, TEvent, TTrigger> {
    pub current_state: TState,
    pub has_cycle: Option<bool>,
    pub definition: DefinitionView<TState, TEvent, TTrigger>,
}

impl<TState: Eq, TEvent: Eq, TTrigger: Fn(TEvent, TState, TState)> MachineView<
    TState,
    TEvent,
    TTrigger,
> {
    /// A machine as it is created from `definition`: not started, and with
    /// nothing remembered.
    pub open spec fn fresh(definition: DefinitionView<TState, TEvent, TTrigger>) -> Self {
        MachineView { current_state: definition.initial_state, has_cycle: None, definition }
    }

    /// The definition is valid, the current state is the initial marker or a
    /// declared state, and what is remembered of cycles is true.
    pub open spec fn wf(self) -> bool {
        &&& self.definition.valid()
        &&& self.current_state == self.definition.initial_state
            || self.definition.states.contains(self.current_state)
        &&& self.has_cycle matches Some(cyclic) ==> cyclic == self.definition.has_cycles()
    }

    /// Whether the machine has left the initial marker.
    pub open spec fn is_started(self) -> bool {
        self.current_state != self.definition.initial_state
    }

    /// Whether the machine is in an end state.
    pub open spec fn is_end(self) -> bool {
        self.definition.end_states.contains(self.current_state)
    }

    /// What a transition on `event` from the current state gives: the next
    /// state, or why there is none.
    pub open spec fn step(self, event: TEvent) -> Result<TState, StateError<TState, TEvent>> {
        if self.is_end() {
            Err(StateError::EndState { end: self.current_state })
        } else if !self.definition.transitions.contains_key((self.current_state, event)) {
            Err(StateError::InvalidTransition { event, current_state: self.current_state })
        } else {
            Ok(self.definition.transitions[(self.current_state, event)])
        }
    }

    /// What starting the machine with `event` gives.
    pub open spec fn on_start(self, event: TEvent) -> Result<TState, StateError<TState, TEvent>> {
        if self.is_started() {
            Err(StateError::AlreadyStarted { current_state: self.current_state })
        } else if !self.definition.transitions.contains_key(
            (self.definition.initial_state, event),
        ) {
            Err(StateError::NotAStartEvent { event })
        } else {
            self.step(event)
        }
    }

    /// What `event` gives once the machine is started.
    pub open spec fn on_event(self, event: TEvent) -> Result<TState, StateError<TState, TEvent>> {
        if !self.is_started() {
            Err(StateError::NotStarted)
        } else {
            self.step(event)
        }
    }

    /// The machine after an operation with the given outcome: in the next
    /// state if there is one, unchanged if not.
    pub open spec fn moved(self, outcome: Result<TState, StateError<TState, TEvent>>) -> Self {
        match outcome {
            Ok(next) => MachineView { current_state: next, ..self },
            Err(_) => self,
        }
    }

    /// The machine back at the initial marker.
    pub open spec fn reset(self) -> Self {
        MachineView { current_state: self.definition.initial_state, ..self }
    }

    /// The machine with another trigger table.
    pub open spec fn with_triggers(self, triggers: Map<TState, Seq<TTrigger>>) -> Self {
        MachineView { definition: self.definition.with_triggers(triggers), ..self }
    }

    /// An event that leads nowhere from the initial marker does not start a
    /// machine that is not started.
    pub proof fn lemma_start_needs_start_event(self, event: TEvent)
        requires
            !self.is_started(),
            !self.definition.transitions.contains_key((self.definition.initial_state, event)),
        ensures
            self.on_start(event) == Err::<TState, StateError<TState, TEvent>>(
                StateError::NotAStartEvent { event },
            ),
            self.moved(self.on_start(event)) == self,
    {
    }

    /// A machine that was started cannot be started again before it is
    /// reset: the second start fails with the state that the first led to.
    pub proof fn lemma_start_twice(self, first: TEvent, second: TEvent)
        requires
            self.wf(),
            self.on_start(first) is Ok,
        ensures
            self.moved(self.on_start(first)).on_start(second) == Err::<
                TState,
                StateError<TState, TEvent>,
            >(StateError::AlreadyStarted { current_state: self.on_start(first)->Ok_0 }),
    {
        let next = self.on_start(first)->Ok_0;
        assert(arrow(self.definition.transitions, self.current_state, first, next));
        assert(self.definition.leads_to(next));
    }

    /// After a reset the machine is at the initial marker and not started,
    /// and starting it gives what starting a machine just created from its
    /// definition gives, and leaves it as it leaves that machine, but for
    /// what it remembers of cycles. A second reset changes nothing.
    pub proof fn lemma_reset_starts_afresh(self, event: TEvent)
        ensures
            self.reset().current_state == self.definition.initial_state,
            !self.reset().is_started(),
            self.reset().on_start(event) == Self::fresh(self.definition).on_start(event),
            self.reset().moved(self.reset().on_start(event)) == (MachineView {
                has_cycle: self.has_cycle,
                ..Self::fresh(self.definition).moved(Self::fresh(self.definition).on_start(event))
            }),
            self.reset().reset() == self.reset(),
    {
    }

    /// A started machine moves as its definition's transition table says:
    /// on an event that the table holds for the current state it goes to the
    /// table's target, and nowhere else.
    pub proof fn lemma_event_follows_table(self, event: TEvent)
        requires
            self.is_started(),
            !self.is_end(),
            self.definition.transitions.contains_key((self.current_state, event)),
        ensures
            self.on_event(event) == Ok::<_, StateError<TState, TEvent>>(
                self.definition.transitions[(self.current_state, event)],
            ),
    {
    }

    /// Another trigger table, whose triggers may be called for the
    /// transitions that land on their states, leaves the machine sound.
    pub proof fn lemma_with_triggers(self, triggers: Map<TState, Seq<TTrigger>>)
        requires
            self.wf(),
            all_accept::<TState, TEvent, TTrigger>(triggers),
        ensures
            self.with_triggers(triggers).wf(),
    {
        self.definition.lemma_with_triggers(triggers);
    }

    /// The events that lead on from the current state, each with the state
    /// that it leads to. From an end state nothing leads on.
    pub open spec fn next_states(self) -> Set<(TEvent, TState)> {
        Set::new(
            |edge: (TEvent, TState)|
                !self.is_end() && arrow(
                    self.definition.transitions,
                    self.current_state,
                    edge.0,
                    edge.1,
                ),
        )
    }

    /// Whether every trigger registered for `next` has been called, and has
    /// returned, for the transition from `prior` to `next` on `event`.
    pub open spec fn fired(self, event: TEvent, prior: TState, next: TState) -> bool {
        forall|i: int|
            0 <= i < triggers_for(self.definition.triggers, next).len() ==> call_ensures(
                #[trigger] triggers_for(self.definition.triggers, next)[i],
                (event, prior, next),
                (),
            )
    }
}

/// The api of a state machine.
///
/// A state machine dereferences to its current state.
pub trait FiniteStateMachine<
    TState: Copy + Eq + Hash,
    TEvent: Copy + Eq + Hash,
    TTrigger: Fn(TEvent, TState, TState),
>: View<V = MachineView<TState, TEvent, TTrigger>> + Deref<Target = TState> {
    /// Clears all triggers for this instance of a state machine. The shared
    /// definition and the other instances keep theirs.
    fn clear_triggers(&mut self)
        ensures
            final(self)@ == old(self)@.with_triggers(Map::empty()),
            final(self)@.wf(),
    ;

    /// Gets the current state of the state machine.
    fn current_state(&self) -> (current: TState)
        ensures
            current == self@.current_state,
    ;

    /// Transitions the state machine from the current state to the next
    /// state on `event`, and calls the triggers of the next state in the
    /// order of their registration.
    fn event(&mut self, event: TEvent) -> (outcome: Result<TState, StateError<TState, TEvent>>)
        ensures
            outcome == old(self)@.on_event(event),
            final(self)@ == old(self)@.moved(outcome),
            final(self)@.wf(),
            outcome matches Ok(next) ==> old(self)@.fired(event, old(self)@.current_state, next),
    ;

    /// Indicates if the state machine's definition has cycles. The answer is
    /// worked out once and remembered.
    fn has_cycles(&mut self) -> (cyclic: Option<bool>)
        ensures
            cyclic == Some(old(self)@.definition.has_cycles()),
            final(self)@ == (MachineView { has_cycle: cyclic, ..old(self)@ }),
            final(self)@.wf(),
    ;

    /// Checks if the current state of the state machine is an end state.
    fn is_end(&self) -> (end: bool)
        ensures
            end == self@.is_end(),
    ;

    /// Checks if the state machine has started.
    fn is_started(&self) -> (started: bool)
        ensures
            started == self@.is_started(),
    ;

    /// Defines new triggers for this instance of a state machine, in place
    /// of those it had. The shared definition and the other instances keep
    /// theirs. Where a state is given more than once, its last list counts.
    fn new_triggers(&mut self, triggers: Vec<(TState, Vec<TTrigger>)>)
        requires
            all_accept::<TState, TEvent, TTrigger>(triggers_of(triggers@)),
        ensures
            final(self)@ == old(self)@.with_triggers(triggers_of(triggers@)),
            final(self)@.wf(),
    ;

    /// Gets all of the transitions that leave the current state, each as
    /// its event and the state that it leads to.
    fn next_states(&self) -> (edges: Vec<(TEvent, TState)>)
        ensures
            edges@.no_duplicates(),
            edges@.to_set() == self@.next_states(),
    ;

    /// Resets the state machine to its initial state, and returns the state
    /// that it was in.
    fn reset(&mut self) -> (last: TState)
        ensures
            last == old(self)@.current_state,
            final(self)@ == old(self)@.reset(),
            final(self)@.wf(),
    ;

    /// Starts the state machine with `event`, and calls the triggers of the
    /// start state in the order of their registration.
    fn start(&mut self, event: TEvent) -> (outcome: Result<TState, StateError<TState, TEvent>>)
        ensures
            outcome == old(self)@.on_start(event),
            final(self)@ == old(self)@.moved(outcome),
            final(self)@.wf(),
            outcome matches Ok(next) ==> old(self)@.fired(event, old(self)@.current_state, next),
    ;
}

} // verus!

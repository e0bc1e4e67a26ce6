//! The trigger table: the callbacks to call on entering each state.
use std::collections::HashMap;
use std::hash::Hash;
use vstd::prelude::*;
use vstd::std_specs::hash::obeys_key_model;

verus! {

/// Whether `trigger` may be called for every transition that lands on `state`.
pub open spec fn accepts<TState, TEvent, TTrigger: Fn(TEvent, TState, TState)>(
    trigger: TTrigger,
    state: TState,
) -> bool {
    forall|event: TEvent, prior: TState| call_requires(trigger, (event, prior, state))
}

/// Whether every trigger of the table may be called for every transition
/// that lands on the state it is registered for.
pub open spec fn all_accept<TState, TEvent, TTrigger: Fn(TEvent, TState, TState)>(
    triggers: Map<TState, Seq<TTrigger>>,
) -> bool {
    forall|state: TState, i: int|
        triggers.contains_key(state) && 0 <= i < triggers[state].len() ==> accepts::<
            TState,
            TEvent,
            TTrigger,
        >(#[trigger] triggers[state][i], state)
}

/// The triggers registered for `state`, in the order of their registration.
pub open spec fn triggers_for<TState, TTrigger>(
    triggers: Map<TState, Seq<TTrigger>>,
    state: TState,
) -> Seq<TTrigger> {
    if triggers.contains_key(state) {
        triggers[state]
    } else {
        Seq::empty()
    }
}

/// The map that a sequence of per-state trigger lists stands for. Where a
/// state occurs more than once, its last list counts.
pub open spec fn triggers_of<TState, TTrigger>(lists: Seq<(TState, Vec<TTrigger>)>) -> Map<
    TState,
    Seq<TTrigger>,
>
    decreases lists.len(),
{
    if lists.len() == 0 {
        Map::empty()
    } else {
        triggers_of(lists.drop_last()).insert(lists.last().0, lists.last().1@)
    }
}

/// The map from each state that has a list to what its list holds.
spec fn seqs_of<TState, TTrigger>(lists: Map<TState, Vec<TTrigger>>) -> Map<
    TState,
    Seq<TTrigger>,
> {
    Map::new(|state: TState| lists.contains_key(state), |state: TState| lists[state]@)
}

/// Calls every trigger of `triggers`, first to last, for the transition from
/// `prior` to `next` on `event`.
pub fn fire_all<TState: Copy, TEvent: Copy, TTrigger: Fn(TEvent, TState, TState)>(
    triggers: &Vec<TTrigger>,
    event: TEvent,
    prior: TState,
    next: TState,
)
    requires
        forall|i: int|
            0 <= i < triggers@.len() ==> call_requires(
                #[trigger] triggers@[i],
                (event, prior, next),
            ),
    ensures
        forall|i: int|
            0 <= i < triggers@.len() ==> call_ensures(
                #[trigger] triggers@[i],
                (event, prior, next),
                (),
            ),
{
    let mut i: usize = 0;
    while i < triggers.len()
        invariant
            i <= triggers@.len(),
            forall|j: int|
                0 <= j < triggers@.len() ==> call_requires(
                    #[trigger] triggers@[j],
                    (event, prior, next),
                ),
            forall|j: int|
                0 <= j < i ==> call_ensures(#[trigger] triggers@[j], (event, prior, next), ()),
        decreases triggers@.len() - i,
    {
        (triggers[i])(event, prior, next);
        i += 1;
    }
}

/// For each state the triggers to call on entering it, in the order of their
/// registration.
pub struct TriggerTable<TState, TTrigger> {
    lists: HashMap<TState, Vec<TTrigger>>,
}

impl<TState, TTrigger> View for TriggerTable<TState, TTrigger> {
    type V = Map<TState, Seq<TTrigger>>;

    closed spec fn view(&self) -> Map<TState, Seq<TTrigger>> {
        seqs_of(self.lists@)
    }
}

impl<TState: Copy + Eq + Hash, TTrigger> TriggerTable<TState, TTrigger> {
    /// Creates a table without triggers.
    pub fn new() -> (table: Self)
        requires
            obeys_key_model::<TState>(),
        ensures
            table@ == Map::<TState, Seq<TTrigger>>::empty(),
    {
        broadcast use vstd::std_specs::hash::group_hash_axioms;

        let table = TriggerTable { lists: HashMap::new() };
        assert(table@ =~= Map::<TState, Seq<TTrigger>>::empty());
        table
    }

    /// Creates a table from the trigger lists of states. Where a state is
    /// given more than once, its last list counts.
    pub fn from_lists(lists: Vec<(TState, Vec<TTrigger>)>) -> (table: Self)
        requires
            obeys_key_model::<TState>(),
        ensures
            table@ == triggers_of(lists@),
    {
        broadcast use vstd::std_specs::hash::group_hash_axioms;

        let ghost given = lists@;
        let mut rest = lists;
        let mut kept: HashMap<TState, Vec<TTrigger>> = HashMap::new();
        while rest.len() > 0
            invariant
                obeys_key_model::<TState>(),
                forall|state: TState|
                    triggers_of(given).contains_key(state) <==> kept@.contains_key(state)
                        || triggers_of(rest@).contains_key(state),
                forall|state: TState|
                    triggers_of(given).contains_key(state) ==> triggers_of(given)[state] == (
                    if kept@.contains_key(state) {
                        kept@[state]@
                    } else {
                        triggers_of(rest@)[state]
                    }),
            decreases rest@.len(),
        {
            let ghost before = rest@;
            let (state, list) = rest.pop().unwrap();
            proof {
                assert(rest@ =~= before.drop_last());
                assert(before.last() == (state, list));
            }
            if !kept.contains_key(&state) {
                kept.insert(state, list);
            }
        }
        let table = TriggerTable { lists: kept };
        proof {
            assert(table@ =~= triggers_of(given));
        }
        table
    }

    /// The triggers registered for `state`, if any were.
    pub fn get(&self, state: TState) -> (found: Option<&Vec<TTrigger>>)
        requires
            obeys_key_model::<TState>(),
        ensures
            match found {
                Some(list) => self@.contains_key(state) && list@ == self@[state],
                None => !self@.contains_key(state),
            },
    {
        broadcast use vstd::std_specs::hash::group_hash_axioms;

        self.lists.get(&state)
    }

    /// Registers `trigger` as the last trigger of `state`.
    pub fn add(&mut self, state: TState, trigger: TTrigger)
        requires
            obeys_key_model::<TState>(),
        ensures
            final(self)@ == old(self)@.insert(
                state,
                triggers_for(old(self)@, state).push(trigger),
            ),
    {
        broadcast use vstd::std_specs::hash::group_hash_axioms;

        let mut list = match self.lists.remove(&state) {
            Some(list) => list,
            None => Vec::new(),
        };
        list.push(trigger);
        self.lists.insert(state, list);
        proof {
            assert(self@ =~= old(self)@.insert(
                state,
                triggers_for(old(self)@, state).push(trigger),
            ));
        }
    }
}

} // verus!

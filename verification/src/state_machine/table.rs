//! The transition table: which state each event leads to from each state.
use std::collections::HashMap;
use std::hash::Hash;
use vstd::prelude::*;
use vstd::laws_eq::obeys_concrete_eq;
use vstd::std_specs::hash::obeys_key_model;
use crate::contents::{map_keys, map_pairs};

verus! {

/// One row of the table: from `from`, `event` leads to `to`.
pub struct Transition<TState, TEvent> {
    pub from: TState,
    pub event: TEvent,
    pub to: TState,
}

impl<TState: Copy, TEvent: Copy> Clone for Transition<TState, TEvent> {
    fn clone(&self) -> (copy: Self)
        ensures
            copy == *self,
    {
        *self
    }
}

impl<TState: Copy, TEvent: Copy> Copy for Transition<TState, TEvent> {

}

impl<TState, TEvent> Transition<TState, TEvent> {
    /// What the row is found by: its source state and its event.
    pub open spec fn key(self) -> (TState, TEvent) {
        (self.from, self.event)
    }
}

/// The map that a sequence of rows stands for.
pub open spec fn table_of<TState, TEvent>(rows: Seq<Transition<TState, TEvent>>) -> Map<
    (TState, TEvent),
    TState,
>
    decreases rows.len(),
{
    if rows.len() == 0 {
        Map::empty()
    } else {
        table_of(rows.drop_last()).insert(rows.last().key(), rows.last().to)
    }
}

/// Whether, by `table`, `event` leads from `from` to `to`.
pub open spec fn arrow<TState, TEvent>(
    table: Map<(TState, TEvent), TState>,
    from: TState,
    event: TEvent,
    to: TState,
) -> bool {
    table.contains_key((from, event)) && table[(from, event)] == to
}

/// Whether some transition of `table` has `target` as its target.
pub open spec fn leads_to<TState, TEvent>(
    table: Map<(TState, TEvent), TState>,
    target: TState,
) -> bool {
    exists|from: TState, event: TEvent| #[trigger] arrow(table, from, event, target)
}

/// Whether some row of `rows` has `target` as its target.
pub open spec fn has_target<TState, TEvent>(
    rows: Seq<Transition<TState, TEvent>>,
    target: TState,
) -> bool {
    exists|i: int| 0 <= i < rows.len() && (#[trigger] rows[i]).to == target
}

/// A target among the first `i + 1` rows is a target among the first `i`
/// rows or the target of row `i`.
pub proof fn lemma_has_target_step<TState, TEvent>(
    rows: Seq<Transition<TState, TEvent>>,
    i: int,
    target: TState,
)
    requires
        0 <= i < rows.len(),
    ensures
        has_target(rows.take(i + 1), target) <==> has_target(rows.take(i), target) || rows[i].to
            == target,
{
    let shorter = rows.take(i);
    let longer = rows.take(i + 1);
    if has_target(shorter, target) {
        let j = choose|j: int| 0 <= j < shorter.len() && (#[trigger] shorter[j]).to == target;
        assert(longer[j].to == target);
    }
    if rows[i].to == target {
        assert(longer[i].to == target);
    }
    if has_target(longer, target) {
        let j = choose|j: int| 0 <= j < longer.len() && (#[trigger] longer[j]).to == target;
        if j < i {
            assert(shorter[j].to == target);
        }
    }
}

/// No two rows share a source state and an event.
pub open spec fn distinct_keys<TState, TEvent>(rows: Seq<Transition<TState, TEvent>>) -> bool {
    forall|i: int, j: int|
        0 <= i < rows.len() && 0 <= j < rows.len() && i != j ==> (#[trigger] rows[i]).key() != (
        #[trigger] rows[j]).key()
}

/// The map holds exactly the rows.
pub proof fn lemma_table_of<TState, TEvent>(rows: Seq<Transition<TState, TEvent>>)
    requires
        distinct_keys(rows),
    ensures
        table_of(rows).dom().finite(),
        forall|i: int|
            0 <= i < rows.len() ==> table_of(rows).contains_key((#[trigger] rows[i]).key())
                && table_of(rows)[rows[i].key()] == rows[i].to,
        forall|k: (TState, TEvent)| #[trigger]
            table_of(rows).contains_key(k) ==> exists|i: int|
                0 <= i < rows.len() && (#[trigger] rows[i]).key() == k,
    decreases rows.len(),
{
    if rows.len() > 0 {
        let rest = rows.drop_last();
        assert forall|i: int, j: int|
            0 <= i < rest.len() && 0 <= j < rest.len() && i != j implies (#[trigger] rest[i]).key()
            != (#[trigger] rest[j]).key() by {
            assert(rest[i] == rows[i] && rest[j] == rows[j]);
        }
        lemma_table_of(rest);
        assert forall|i: int| 0 <= i < rows.len() implies table_of(rows).contains_key(
            (#[trigger] rows[i]).key(),
        ) && table_of(rows)[rows[i].key()] == rows[i].to by {
            if i < rest.len() {
                assert(rest[i] == rows[i]);
                assert(rows[i].key() != rows[rows.len() - 1].key());
            }
        }
        assert forall|k: (TState, TEvent)| #[trigger]
            table_of(rows).contains_key(k) implies exists|i: int|
            0 <= i < rows.len() && (#[trigger] rows[i]).key() == k by {
            if k == rows.last().key() {
                assert(rows[rows.len() - 1].key() == k);
            } else {
                assert(table_of(rest).contains_key(k));
                let i = choose|i: int| 0 <= i < rest.len() && (#[trigger] rest[i]).key() == k;
                assert(rows[i].key() == k);
            }
        }
    }
}

/// The targets of the map are the targets of the rows.
pub proof fn lemma_targets<TState, TEvent>(rows: Seq<Transition<TState, TEvent>>, target: TState)
    requires
        distinct_keys(rows),
    ensures
        leads_to(table_of(rows), target) <==> has_target(rows, target),
{
    lemma_table_of(rows);
    let table = table_of(rows);
    if leads_to(table, target) {
        let (from, event) = choose|from: TState, event: TEvent| #[trigger]
            arrow(table, from, event, target);
        let j = choose|j: int| 0 <= j < rows.len() && (#[trigger] rows[j]).key() == (from, event);
        assert(rows[j].to == target);
    }
    if has_target(rows, target) {
        let j = choose|j: int| 0 <= j < rows.len() && (#[trigger] rows[j]).to == target;
        assert(arrow(table, rows[j].from, rows[j].event, target));
    }
}

/// Whether some row of `rows` is found by `key`.
spec fn has_key<TState, TEvent>(
    rows: Seq<Transition<TState, TEvent>>,
    key: (TState, TEvent),
) -> bool {
    exists|i: int| 0 <= i < rows.len() && (#[trigger] rows[i]).key() == key
}

/// Whether some pair of `pairs` begins with `event`.
spec fn has_event<TState, TEvent>(pairs: Seq<(TEvent, TState)>, event: TEvent) -> bool {
    exists|i: int| 0 <= i < pairs.len() && (#[trigger] pairs[i]).0 == event
}

/// The map that the rows of the states stand for: a state and an event
/// lead where the state's row says that the event leads.
spec fn flat<TState, TEvent>(rows: Map<TState, HashMap<TEvent, TState>>) -> Map<
    (TState, TEvent),
    TState,
> {
    Map::new(
        |key: (TState, TEvent)| rows.contains_key(key.0) && rows[key.0]@.contains_key(key.1),
        |key: (TState, TEvent)| rows[key.0]@[key.1],
    )
}

/// A table of transitions that holds at most one target for a state and an
/// event: for each state the events that lead on from it, each with the
/// state that it leads to.
pub struct TransitionTable<TState: Copy + Eq + Hash, TEvent: Copy + Eq + Hash> {
    rows: HashMap<TState, HashMap<TEvent, TState>>,
}

impl<TState: Copy + Eq + Hash, TEvent: Copy + Eq + Hash> View for TransitionTable<
    TState,
    TEvent,
> {
    type V = Map<(TState, TEvent), TState>;

    closed spec fn view(&self) -> Map<(TState, TEvent), TState> {
        flat(self.rows@)
    }
}

impl<TState: Copy + Eq + Hash, TEvent: Copy + Eq + Hash> TransitionTable<TState, TEvent> {
    /// States and events compare by value and hash accordingly.
    #[verifier::type_invariant]
    pub open spec fn wf(&self) -> bool {
        &&& obeys_concrete_eq::<TState>()
        &&& obeys_concrete_eq::<TEvent>()
        &&& obeys_key_model::<TState>()
        &&& obeys_key_model::<TEvent>()
    }

    /// Creates an empty table.
    pub fn new() -> (table: Self)
        requires
            obeys_concrete_eq::<TState>(),
            obeys_concrete_eq::<TEvent>(),
            obeys_key_model::<TState>(),
            obeys_key_model::<TEvent>(),
        ensures
            table@ == Map::<(TState, TEvent), TState>::empty(),
    {
        broadcast use vstd::std_specs::hash::group_hash_axioms;

        let table = TransitionTable { rows: HashMap::new() };
        assert(table@ =~= Map::<(TState, TEvent), TState>::empty());
        table
    }

    /// The state that `event` leads to from `from`, if the table holds one.
    pub fn get(&self, from: TState, event: TEvent) -> (target: Option<TState>)
        ensures
            target == if self@.contains_key((from, event)) {
                Some(self@[(from, event)])
            } else {
                None
            },
    {
        broadcast use vstd::std_specs::hash::group_hash_axioms;

        proof {
            use_type_invariant(self);
        }
        match self.rows.get(&from) {
            Some(row) => match row.get(&event) {
                Some(to) => Some(*to),
                None => None,
            },
            None => None,
        }
    }

    /// The rows of the table, each once, in no particular order.
    pub fn rows(&self) -> (rows: Vec<Transition<TState, TEvent>>)
        ensures
            distinct_keys(rows@),
            table_of(rows@) == self@,
            self.wf(),
    {
        broadcast use vstd::std_specs::hash::group_hash_axioms;

        proof {
            use_type_invariant(self);
        }
        let ghost table = self@;
        let keys = map_keys(&self.rows);
        let mut rows: Vec<Transition<TState, TEvent>> = Vec::new();
        let mut a: usize = 0;
        while a < keys.len()
            invariant
                self.wf(),
                table == self@,
                a <= keys@.len(),
                keys@.no_duplicates(),
                keys@.to_set() == self.rows@.dom(),
                distinct_keys(rows@),
                forall|i: int|
                    0 <= i < rows@.len() ==> arrow(
                        table,
                        (#[trigger] rows@[i]).from,
                        rows@[i].event,
                        rows@[i].to,
                    ) && keys@.take(a as int).contains(rows@[i].from),
                forall|key: (TState, TEvent)| #[trigger]
                    table.contains_key(key) && keys@.take(a as int).contains(key.0) ==> has_key(
                        rows@,
                        key,
                    ),
            decreases keys@.len() - a,
        {
            let from = keys[a];
            proof {
                assert(keys@.to_set().contains(from));
            }
            let row = self.rows.get(&from).unwrap();
            let pairs = map_pairs(row);
            let ghost done = keys@.take(a as int);
            let mut b: usize = 0;
            while b < pairs.len()
                invariant
                    self.wf(),
                    table == self@,
                    a < keys@.len(),
                    keys@.no_duplicates(),
                    from == keys@[a as int],
                    done == keys@.take(a as int),
                    self.rows@.contains_key(from),
                    row@ == self.rows@[from]@,
                    b <= pairs@.len(),
                    forall|i: int, j: int|
                        0 <= i < pairs@.len() && 0 <= j < pairs@.len() && i != j ==> (
                        #[trigger] pairs@[i]).0 != (#[trigger] pairs@[j]).0,
                    forall|i: int|
                        0 <= i < pairs@.len() ==> row@.contains_key((#[trigger] pairs@[i]).0)
                            && row@[pairs@[i].0] == pairs@[i].1,
                    distinct_keys(rows@),
                    forall|i: int|
                        0 <= i < rows@.len() ==> arrow(
                            table,
                            (#[trigger] rows@[i]).from,
                            rows@[i].event,
                            rows@[i].to,
                        ) && (done.contains(rows@[i].from) || (rows@[i].from == from && has_event(
                            pairs@.take(b as int),
                            rows@[i].event,
                        ))),
                    forall|key: (TState, TEvent)| #[trigger]
                        table.contains_key(key) && (done.contains(key.0) || (key.0 == from
                            && has_event(pairs@.take(b as int), key.1))) ==> has_key(rows@, key),
                decreases pairs@.len() - b,
            {
                let pair = pairs[b];
                let ghost before = rows@;
                let ghost row_new = Transition { from, event: pair.0, to: pair.1 };
                proof {
                    assert forall|i: int| 0 <= i < before.len() implies (#[trigger] before[i]).key()
                        != row_new.key() by {
                        if before[i].key() == row_new.key() {
                            if done.contains(from) {
                                let c = choose|c: int| 0 <= c < done.len() && done[c] == from;
                                assert(keys@[c] == from);
                            } else {
                                let taken = pairs@.take(b as int);
                                let c = choose|c: int|
                                    0 <= c < taken.len() && (#[trigger] taken[c]).0 == pair.0;
                                assert(pairs@[c].0 == pairs@[b as int].0);
                            }
                        }
                    }
                }
                rows.push(Transition { from, event: pair.0, to: pair.1 });
                proof {
                    let shorter = pairs@.take(b as int);
                    let longer = pairs@.take(b + 1);
                    assert(longer[b as int] == pair);
                    assert forall|event: TEvent| has_event(shorter, event) implies has_event(
                        longer,
                        event,
                    ) by {
                        let c = choose|c: int|
                            0 <= c < shorter.len() && (#[trigger] shorter[c]).0 == event;
                        assert(longer[c].0 == event);
                    }
                    assert forall|event: TEvent| has_event(longer, event) implies has_event(
                        shorter,
                        event,
                    ) || event == pair.0 by {
                        let c = choose|c: int|
                            0 <= c < longer.len() && (#[trigger] longer[c]).0 == event;
                        if c < b {
                            assert(shorter[c].0 == event);
                        }
                    }
                    assert forall|key: (TState, TEvent)| has_key(before, key) implies has_key(
                        rows@,
                        key,
                    ) by {
                        let c = choose|c: int|
                            0 <= c < before.len() && (#[trigger] before[c]).key() == key;
                        assert(rows@[c].key() == key);
                    }
                    assert(rows@[before.len() as int].key() == row_new.key());
                    assert(has_key(rows@, row_new.key()));
                    assert(has_event(longer, pair.0));
                    assert forall|i: int, j: int|
                        0 <= i < rows@.len() && 0 <= j < rows@.len() && i != j implies (
                    #[trigger] rows@[i]).key() != (#[trigger] rows@[j]).key() by {
                        if i < before.len() && j < before.len() {
                            assert(before[i].key() != before[j].key());
                        }
                    }
                    assert forall|i: int| 0 <= i < rows@.len() implies arrow(
                        table,
                        (#[trigger] rows@[i]).from,
                        rows@[i].event,
                        rows@[i].to,
                    ) && (done.contains(rows@[i].from) || (rows@[i].from == from && has_event(
                        longer,
                        rows@[i].event,
                    ))) by {
                        if i < before.len() {
                            assert(before[i] == rows@[i]);
                        }
                    }
                }
                b += 1;
            }
            proof {
                let next = keys@.take(a + 1);
                assert(pairs@.take(pairs@.len() as int) =~= pairs@);
                assert(next[a as int] == from);
                assert forall|state: TState| done.contains(state) implies next.contains(state) by {
                    let c = choose|c: int| 0 <= c < done.len() && done[c] == state;
                    assert(next[c] == state);
                }
                assert forall|state: TState| next.contains(state) implies done.contains(state)
                    || state == from by {
                    let c = choose|c: int| 0 <= c < next.len() && next[c] == state;
                    if c < a {
                        assert(done[c] == state);
                    }
                }
                assert forall|key: (TState, TEvent)| #[trigger]
                    table.contains_key(key) && next.contains(key.0) implies has_key(rows@, key) by {
                    if !done.contains(key.0) {
                        let c = choose|c: int|
                            0 <= c < pairs@.len() && (#[trigger] pairs@[c]).0 == key.1;
                        assert(has_event(pairs@, key.1));
                    }
                }
            }
            a += 1;
        }
        proof {
            assert(keys@.take(keys@.len() as int) =~= keys@);
            lemma_table_of(rows@);
            let built = table_of(rows@);
            assert forall|key: (TState, TEvent)| built.contains_key(key) <==> table.contains_key(
                key,
            ) by {
                if built.contains_key(key) {
                    let i = choose|i: int|
                        0 <= i < rows@.len() && (#[trigger] rows@[i]).key() == key;
                    assert(arrow(table, rows@[i].from, rows@[i].event, rows@[i].to));
                }
                if table.contains_key(key) {
                    assert(keys@.to_set().contains(key.0));
                    assert(has_key(rows@, key));
                    let i = choose|i: int|
                        0 <= i < rows@.len() && (#[trigger] rows@[i]).key() == key;
                    assert(built.contains_key(rows@[i].key()));
                }
            }
            assert forall|key: (TState, TEvent)| built.contains_key(key) implies built[key]
                == table[key] by {
                let i = choose|i: int| 0 <= i < rows@.len() && (#[trigger] rows@[i]).key() == key;
                assert(arrow(table, rows@[i].from, rows@[i].event, rows@[i].to));
                assert(built[rows@[i].key()] == rows@[i].to);
            }
            assert(built =~= table);
        }
        rows
    }

    /// Whether some transition has `target` as its target.
    pub fn leads_to(&self, target: TState) -> (found: bool)
        ensures
            found == leads_to(self@, target),
    {
        let rows = self.rows();
        let found = holds_target(&rows, target);
        proof {
            lemma_targets(rows@, target);
        }
        found
    }

    /// The table with one more row, which leads from `from` on `event` to
    /// `to`. Where the table holds a target for `from` and `event`, that
    /// target comes back and nothing is added: the first row counts.
    pub fn insert(self, from: TState, event: TEvent, to: TState) -> (outcome: Result<Self, TState>)
        ensures
            match outcome {
                Ok(table) => {
                    &&& !self@.contains_key((from, event))
                    &&& table@ == self@.insert((from, event), to)
                },
                Err(existing) => {
                    &&& self@.contains_key((from, event))
                    &&& existing == self@[(from, event)]
                },
            },
    {
        broadcast use vstd::std_specs::hash::group_hash_axioms;

        proof {
            use_type_invariant(&self);
        }
        if let Some(existing) = self.get(from, event) {
            return Err(existing);
        }
        let ghost before = self.rows@;
        let mut rows = self.rows;
        let mut row = match rows.remove(&from) {
            Some(row) => row,
            None => HashMap::new(),
        };
        row.insert(event, to);
        rows.insert(from, row);
        let table = TransitionTable { rows };
        proof {
            assert(table@ =~= flat(before).insert((from, event), to));
        }
        Ok(table)
    }
}

/// Whether some row of `rows` has `target` as its target.
pub fn holds_target<TState: Copy + Eq, TEvent: Copy>(
    rows: &Vec<Transition<TState, TEvent>>,
    target: TState,
) -> (found: bool)
    requires
        obeys_concrete_eq::<TState>(),
    ensures
        found == has_target(rows@, target),
{
    let mut i: usize = 0;
    while i < rows.len()
        invariant
            obeys_concrete_eq::<TState>(),
            i <= rows@.len(),
            forall|j: int| 0 <= j < i ==> (#[trigger] rows@[j]).to != target,
        decreases rows@.len() - i,
    {
        proof {
            reveal(obeys_concrete_eq);
        }
        if rows[i].to == target {
            return true;
        }
        i += 1;
    }
    false
}

} // verus!

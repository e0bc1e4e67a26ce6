//! Detecting cycles among the transitions of a state machine.
use std::collections::HashSet;
use std::hash::Hash;
use vstd::prelude::*;
use vstd::laws_eq::obeys_concrete_eq;
use vstd::std_specs::hash::obeys_key_model;
use crate::graph::{has_cycle, is_cycle, step, Graph};
use crate::state_machine::definition::{DefinitionView, StateMachineDefinition};
use crate::state_machine::table::{arrow, lemma_table_of, Transition, TransitionTable};

verus! {

/// The edges that the transitions of `table` make, with the states of
/// `end_states` as sinks: no edge leaves them.
pub open spec fn sink_edges<TState, TEvent>(
    table: Map<(TState, TEvent), TState>,
    end_states: Set<TState>,
) -> Set<(TState, TState)> {
    Set::new(
        |edge: (TState, TState)|
            !end_states.contains(edge.0) && exists|event: TEvent| #[trigger]
                arrow(table, edge.0, event, edge.1),
    )
}

/// The edges that the first `count` rows make, with the states of
/// `end_states` as sinks.
pub open spec fn row_edges<TState, TEvent>(
    rows: Seq<Transition<TState, TEvent>>,
    end_states: Set<TState>,
    count: int,
) -> Set<(TState, TState)> {
    Set::new(
        |edge: (TState, TState)|
            !end_states.contains(edge.0) && exists|j: int|
                0 <= j < count && (#[trigger] rows[j]).from == edge.0 && rows[j].to == edge.1,
    )
}

/// Detects if a state machine definition has any cycles among its declared
/// states. End states are sinks, and the initial marker is no state.
#[inline]
pub fn detect_cycles<
    TState: Copy + Eq + Hash,
    TEvent: Copy + Eq + Hash,
    TTrigger: Fn(TEvent, TState, TState),
>(
    fsm: &StateMachineDefinition<TState, TEvent, TTrigger>,
) -> (cyclic: bool)
    ensures
        cyclic == fsm@.has_cycles(),
{
    proof {
        use_type_invariant(fsm);
        lemma_initial_is_on_no_cycle(fsm@);
    }
    detect_cycles_impl(fsm.transitions(), fsm.end_states())
}

/// Detects if the transitions of a table hold a cycle, with the given end
/// states as sinks.
pub fn detect_cycles_impl<TState: Copy + Eq + Hash, TEvent: Copy + Eq + Hash>(
    transitions: &TransitionTable<TState, TEvent>,
    end_states: &HashSet<TState>,
) -> (cyclic: bool)
    ensures
        cyclic == has_cycle(sink_edges(transitions@, end_states@)),
{
    broadcast use vstd::std_specs::hash::group_hash_axioms;

    let listed = transitions.rows();
    let count = listed.len();
    let ghost rows = listed@;
    let ghost sinks = end_states@;
    proof {
        lemma_table_of(rows);
    }
    let mut nodes: Vec<TState> = Vec::new();
    let mut i: usize = 0;
    while i < count
        invariant
            rows == listed@,
            count == rows.len(),
            i <= count,
            forall|j: int|
                0 <= j < i ==> nodes@.contains((#[trigger] rows[j]).from) && nodes@.contains(
                    rows[j].to,
                ),
        decreases count - i,
    {
        let row = listed[i];
        let ghost before = nodes@;
        nodes.push(row.from);
        nodes.push(row.to);
        proof {
            assert(nodes@[before.len() as int] == row.from);
            assert(nodes@[before.len() as int + 1] == row.to);
            assert forall|j: int| 0 <= j < i + 1 implies nodes@.contains((#[trigger] rows[j]).from)
                && nodes@.contains(rows[j].to) by {
                if j < i {
                    let a = choose|a: int| 0 <= a < before.len() && before[a] == rows[j].from;
                    assert(nodes@[a] == rows[j].from);
                    let b = choose|b: int| 0 <= b < before.len() && before[b] == rows[j].to;
                    assert(nodes@[b] == rows[j].to);
                }
            }
        }
        i += 1;
    }
    let ghost given = nodes@;
    let mut graph = Graph::new(nodes);
    let mut i: usize = 0;
    while i < count
        invariant
            obeys_concrete_eq::<TState>(),
            obeys_key_model::<TState>(),
            rows == listed@,
            count == rows.len(),
            sinks == end_states@,
            i <= count,
            graph.wf(),
            graph@.nodes == given.to_set(),
            forall|j: int|
                0 <= j < count ==> given.contains((#[trigger] rows[j]).from) && given.contains(
                    rows[j].to,
                ),
            graph@.edges == row_edges(rows, sinks, i as int),
        decreases count - i,
    {
        let row = listed[i];
        let ghost before = graph@.edges;
        if !end_states.contains(&row.from) {
            graph.add_edge(row.from, row.to);
        }
        proof {
            assert forall|edge: (TState, TState)|
                graph@.edges.contains(edge) <==> row_edges(rows, sinks, i + 1).contains(edge) by {
                if before.contains(edge) {
                    let j = choose|j: int|
                        0 <= j < i && (#[trigger] rows[j]).from == edge.0 && rows[j].to == edge.1;
                    assert(rows[j].from == edge.0 && rows[j].to == edge.1 && j < i + 1);
                }
                if row_edges(rows, sinks, i + 1).contains(edge) {
                    let j = choose|j: int|
                        0 <= j < i + 1 && (#[trigger] rows[j]).from == edge.0 && rows[j].to
                            == edge.1;
                    if j < i {
                        assert(before.contains(edge));
                    }
                }
                if edge == (row.from, row.to) && !sinks.contains(row.from) {
                    assert(rows[i as int].from == edge.0 && rows[i as int].to == edge.1);
                }
            }
            assert(graph@.edges =~= row_edges(rows, sinks, i + 1));
        }
        i += 1;
    }
    proof {
        lemma_table_of(rows);
        let table = transitions@;
        assert forall|edge: (TState, TState)|
            row_edges(rows, sinks, count as int).contains(edge) <==> sink_edges(
                table,
                sinks,
            ).contains(edge) by {
            if row_edges(rows, sinks, count as int).contains(edge) {
                let j = choose|j: int|
                    0 <= j < count && (#[trigger] rows[j]).from == edge.0 && rows[j].to == edge.1;
                assert(table.contains_key(rows[j].key()));
                assert(arrow(table, edge.0, rows[j].event, edge.1));
            }
            if sink_edges(table, sinks).contains(edge) {
                let event = choose|event: TEvent| #[trigger] arrow(table, edge.0, event, edge.1);
                let j = choose|j: int|
                    0 <= j < rows.len() && (#[trigger] rows[j]).key() == (edge.0, event);
                assert(rows[j].from == edge.0 && rows[j].to == edge.1);
            }
        }
        assert(graph@.edges =~= sink_edges(table, sinks));
        assert forall|edge: (TState, TState)| #[trigger]
            graph@.edges.contains(edge) implies graph@.nodes.contains(edge.1) by {
            let j = choose|j: int|
                0 <= j < count && (#[trigger] rows[j]).from == edge.0 && rows[j].to == edge.1;
            assert(given.contains(rows[j].to));
        }
    }
    graph.is_cyclical()
}

/// In a valid definition no transition leads to the initial marker, so that
/// it is on no cycle: the cycles among all transitions are those among the
/// declared states.
pub proof fn lemma_initial_is_on_no_cycle<
    TState: Eq,
    TEvent: Eq,
    TTrigger: Fn(TEvent, TState, TState),
>(definition: DefinitionView<TState, TEvent, TTrigger>)
    requires
        definition.valid(),
    ensures
        has_cycle(sink_edges(definition.transitions, definition.end_states))
            == definition.has_cycles(),
{
    let all = sink_edges(definition.transitions, definition.end_states);
    let inner = definition.cycle_edges();
    if has_cycle(all) {
        let walk = choose|walk: Seq<TState>| is_cycle(all, walk);
        assert forall|i: int| 0 <= i < walk.len() - 1 implies #[trigger] step(inner, walk, i) by {
            assert(step(all, walk, i));
            if walk[i] == definition.initial_state {
                let before = if i == 0 {
                    walk.len() - 2
                } else {
                    i - 1
                };
                assert(step(all, walk, before));
                assert(walk[before + 1] == definition.initial_state);
                let event = choose|event: TEvent| #[trigger]
                    arrow(definition.transitions, walk[before], event, walk[before + 1]);
                assert(definition.leads_to(definition.initial_state));
            }
        }
        assert(is_cycle(inner, walk));
    }
    if has_cycle(inner) {
        let walk = choose|walk: Seq<TState>| is_cycle(inner, walk);
        assert forall|i: int| 0 <= i < walk.len() - 1 implies #[trigger] step(all, walk, i) by {
            assert(step(inner, walk, i));
        }
        assert(is_cycle(all, walk));
    }
}

} // verus!

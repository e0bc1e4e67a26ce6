use std::cell::RefCell;
use std::collections::HashSet;
use std::rc::Rc;

use stately::builder::NodeType;
use stately::contents::{map_keys, map_pairs, set_items};
use stately::state_machine::detect_cycles_impl;
use stately::state_machine::table::TransitionTable;
use stately::state_machine::triggers::{fire_all, TriggerTable};

type Note = Box<dyn Fn(char, u8, u8)>;

#[test]
fn the_items_of_a_set_come_out_once_each() {
    let mut items = set_items(&HashSet::from([3u8, 1, 2]));
    items.sort();

    assert_eq!(vec![1, 2, 3], items);
    assert!(set_items(&HashSet::<u8>::new()).is_empty());
}

#[test]
fn the_keys_and_pairs_of_a_map_come_out_once_each() {
    let map = std::collections::HashMap::from([(1u8, 'a'), (2, 'b')]);
    let mut keys = map_keys(&map);
    let mut pairs = map_pairs(&map);
    keys.sort();
    pairs.sort();

    assert_eq!(vec![1, 2], keys);
    assert_eq!(vec![(1, 'a'), (2, 'b')], pairs);
}

#[test]
fn a_node_type_knows_what_it_starts_and_ends() {
    assert!(!NodeType::State.starts());
    assert!(!NodeType::State.ends());
    assert!(NodeType::Start.starts());
    assert!(!NodeType::Start.ends());
    assert!(!NodeType::End.starts());
    assert!(NodeType::End.ends());
    assert!(NodeType::StartEnd.starts());
    assert!(NodeType::StartEnd.ends());
}

#[test]
fn a_transition_table_holds_what_was_inserted() {
    let table = table_of(&[(1, 'a', 2), (1, 'b', 3), (2, 'a', 1)]);

    assert_eq!(3, table.rows().len());
    assert_eq!(Some(2), table.get(1, 'a'));
    assert_eq!(Some(3), table.get(1, 'b'));
    assert_eq!(Some(1), table.get(2, 'a'));
    assert_eq!(None, table.get(2, 'b'));
    assert_eq!(None, table.get(3, 'a'));

    let mut rows: Vec<(u8, char, u8)> =
        table.rows().iter().map(|row| (row.from, row.event, row.to)).collect();
    rows.sort();

    assert_eq!(vec![(1, 'a', 2), (1, 'b', 3), (2, 'a', 1)], rows);

    assert!(table.leads_to(1));
    assert!(table.leads_to(2));
    assert!(table.leads_to(3));
    assert!(!table.leads_to(4));
}

#[test]
fn the_first_row_for_a_state_and_an_event_counts() {
    let table = table_of(&[(1, 'a', 2)]);

    assert!(matches!(table.insert(1, 'a', 3), Err(2)));

    let table = table_of(&[(1, 'a', 2)]).insert(1, 'b', 3).unwrap();

    assert_eq!(2, table.rows().len());
    assert_eq!(Some(2), table.get(1, 'a'));
    assert_eq!(Some(3), table.get(1, 'b'));
}

#[test]
fn an_empty_transition_table_leads_nowhere() {
    let table: TransitionTable<u8, char> = TransitionTable::new();

    assert!(table.rows().is_empty());
    assert_eq!(None, table.get(1, 'a'));
    assert!(!table.leads_to(1));
}

#[test]
fn a_trigger_table_keeps_the_order_of_registration() {
    let calls = Rc::new(RefCell::new(Vec::new()));
    let mut table: TriggerTable<u8, Note> = TriggerTable::new();

    assert!(table.get(1).is_none());

    table.add(1, note(&calls, "first"));
    table.add(2, note(&calls, "other"));
    table.add(1, note(&calls, "second"));

    assert_eq!(2, table.get(1).unwrap().len());
    assert_eq!(1, table.get(2).unwrap().len());
    assert!(table.get(3).is_none());

    fire_all(table.get(1).unwrap(), 'x', 0, 1);

    assert_eq!(vec![("first", 'x', 0, 1), ("second", 'x', 0, 1)], *calls.borrow());
}

#[test]
fn the_last_list_of_a_state_counts() {
    let calls = Rc::new(RefCell::new(Vec::new()));
    let table: TriggerTable<u8, Note> = TriggerTable::from_lists(vec![
        (1, vec![note(&calls, "early")]),
        (2, vec![note(&calls, "other")]),
        (1, vec![note(&calls, "late"), note(&calls, "later")]),
    ]);

    fire_all(table.get(1).unwrap(), 'y', 2, 1);

    assert_eq!(vec![("late", 'y', 2, 1), ("later", 'y', 2, 1)], *calls.borrow());
}

#[test]
fn firing_no_triggers_calls_nothing() {
    let none: Vec<Note> = Vec::new();

    fire_all(&none, 'x', 0, 1);
}

#[test]
fn transitions_that_come_back_are_a_cycle() {
    let table = table_of(&[(0, 's', 1), (1, 'n', 2), (2, 'n', 1)]);

    assert!(detect_cycles_impl(&table, &HashSet::new()));
}

#[test]
fn transitions_that_end_are_no_cycle() {
    let table = table_of(&[(0, 's', 1), (1, 'n', 2)]);

    assert!(!detect_cycles_impl(&table, &HashSet::from([2])));
    assert!(!detect_cycles_impl(&table, &HashSet::new()));
}

#[test]
fn an_end_state_is_a_sink() {
    let table = table_of(&[(1, 'n', 2), (2, 'n', 1)]);

    assert!(detect_cycles_impl(&table, &HashSet::new()));
    assert!(!detect_cycles_impl(&table, &HashSet::from([2])));
    assert!(!detect_cycles_impl(&table, &HashSet::from([1])));
}

#[test]
fn no_transitions_are_no_cycle() {
    let table: TransitionTable<u8, char> = TransitionTable::new();

    assert!(!detect_cycles_impl(&table, &HashSet::from([1, 2])));
}

fn table_of(rows: &[(u8, char, u8)]) -> TransitionTable<u8, char> {
    let mut table = TransitionTable::new();

    for (from, event, to) in rows {
        table = match table.insert(*from, *event, *to) {
            Ok(table) => table,
            Err(_) => panic!("a state and an event were given twice"),
        };
    }

    table
}

fn note(calls: &Rc<RefCell<Vec<(&'static str, char, u8, u8)>>>, name: &'static str) -> Note {
    let calls = calls.clone();

    Box::new(move |event, prior, next| calls.borrow_mut().push((name, event, prior, next)))
}

use smlang_macros::definition::{Clash, Definition, DefinitionError, StateTransition};
use smlang_macros::model::{AsyncIdent, DataDefinitions, ParsedStateMachine};

fn named(name: &str, is_async: bool) -> Option<AsyncIdent> {
    Some(AsyncIdent { ident: name.to_string(), is_async })
}

fn text(s: &str) -> Option<String> {
    Some(s.to_string())
}

fn strings(items: &[&str]) -> Vec<String> {
    items.iter().map(|s| s.to_string()).collect()
}

fn clause(start: bool, in_state: &str, event: &str, out_state: &str) -> StateTransition {
    StateTransition {
        start,
        in_state: in_state.to_string(),
        in_state_data: None,
        event: event.to_string(),
        event_data: None,
        guard: None,
        action: None,
        out_state: out_state.to_string(),
        out_state_data: None,
    }
}

fn definition(transitions: Vec<StateTransition>) -> Definition {
    Definition {
        name: None,
        temporary_context_type: None,
        custom_guard_error: false,
        derive_states: vec![],
        derive_events: vec![],
        transitions,
    }
}

fn error_of(transitions: Vec<StateTransition>) -> DefinitionError {
    match ParsedStateMachine::new(definition(transitions)) {
        Ok(_) => panic!("the definition was accepted"),
        Err(e) => e,
    }
}

#[test]
fn a_definition_is_resolved() {
    let mut first = clause(true, "State1", "Event1", "State2");
    first.event_data = text("&'a [u8]");
    first.guard = named("guard1", false);
    first.action = named("action1", true);
    let mut second = clause(false, "State2", "Event2", "State3");
    second.in_state_data = text("MyStateData<'b>");
    second.action = named("action2", false);
    let mut third = clause(false, "State2", "Event1", "State1");
    third.event_data = text("& 'a [ u8 ]");
    let mut d = definition(vec![first, second, third]);
    d.name = text("Logger");
    d.temporary_context_type = text("&mut u16");
    d.custom_guard_error = true;
    d.derive_states = strings(&["Debug"]);
    d.derive_events = strings(&["Debug", "Clone"]);
    let sm = ParsedStateMachine::new(d).unwrap();

    assert_eq!(sm.name, text("Logger"));
    assert!(sm.custom_guard_error);
    assert_eq!(sm.derive_states, strings(&["Debug"]));
    assert_eq!(sm.derive_events, strings(&["Debug", "Clone"]));
    let context = sm.temporary_context_type.as_ref().unwrap();
    assert_eq!(context.tokens, "& mut u16");
    assert!(context.is_reference);
    assert_eq!(sm.states, strings(&["State1", "State2", "State3"]));
    assert_eq!(sm.events, strings(&["Event1", "Event2"]));
    assert_eq!(sm.starting_state, "State1");

    assert_eq!(sm.state_data.entries.len(), 1);
    let entry = sm.state_data.get("State2").unwrap();
    assert_eq!(entry.name, "State2");
    assert_eq!(entry.data_type.tokens, "MyStateData < 'b >");
    assert!(!entry.data_type.is_reference);
    assert_eq!(entry.lifetimes.lifetimes, strings(&["'b"]));
    assert_eq!(sm.state_data.all_lifetimes.lifetimes, strings(&["'b"]));
    assert!(sm.state_data.get("State1").is_none());

    assert_eq!(sm.event_data.entries.len(), 1);
    let entry = sm.event_data.get("Event1").unwrap();
    assert_eq!(entry.data_type.tokens, "& 'a [u8]");
    assert!(entry.data_type.is_reference);
    assert_eq!(entry.lifetimes.lifetimes, strings(&["'a"]));
    assert_eq!(sm.event_data.all_lifetimes.lifetimes, strings(&["'a"]));

    assert_eq!(sm.states_events_mapping.len(), 3);
    assert_eq!(sm.states_events_mapping[0].state, "State1");
    assert_eq!(sm.states_events_mapping[0].events.len(), 1);
    assert_eq!(sm.states_events_mapping[1].state, "State2");
    assert_eq!(sm.states_events_mapping[1].events.len(), 2);
    assert_eq!(sm.states_events_mapping[1].events[0].event, "Event2");
    assert_eq!(sm.states_events_mapping[1].events[1].event, "Event1");
    assert_eq!(sm.states_events_mapping[2].state, "State3");
    assert!(sm.states_events_mapping[2].events.is_empty());

    let t = sm.transition("State1", "Event1").unwrap();
    assert_eq!(t.in_state, "State1");
    assert_eq!(t.event, "Event1");
    assert_eq!(t.out_state, "State2");
    assert_eq!(t.guard.as_ref().unwrap().ident, "guard1");
    assert!(!t.guard.as_ref().unwrap().is_async);
    assert_eq!(t.action.as_ref().unwrap().ident, "action1");
    assert!(t.action.as_ref().unwrap().is_async);
    assert_eq!(sm.transition("State2", "Event1").unwrap().out_state, "State1");
    assert!(sm.transition("State1", "Event2").is_none());
    assert!(sm.transition("State3", "Event1").is_none());
    assert!(sm.transition("Nowhere", "Event1").is_none());
}

#[test]
fn every_transition_of_the_table_is_found() {
    let sm = ParsedStateMachine::new(definition(vec![
        clause(true, "A", "E", "B"),
        clause(false, "A", "F", "C"),
        clause(false, "B", "E", "C"),
        clause(false, "C", "F", "A"),
    ]))
    .unwrap();
    for entry in &sm.states_events_mapping {
        for t in &entry.events {
            let found = sm.transition(&entry.state, &t.event).unwrap();
            assert_eq!(found.in_state, entry.state);
            assert_eq!(found.event, t.event);
            assert_eq!(found.out_state, t.out_state);
        }
    }
    for state in &sm.states {
        for event in &sm.events {
            let listed = sm
                .states_events_mapping
                .iter()
                .any(|e| &e.state == state && e.events.iter().any(|t| &t.event == event));
            assert_eq!(sm.transition(state, event).is_some(), listed);
        }
    }
}

#[test]
fn no_starting_state() {
    assert_eq!(error_of(vec![]), DefinitionError::NoStartingState);
    assert_eq!(
        error_of(vec![clause(false, "A", "E", "B"), clause(false, "B", "E", "A")]),
        DefinitionError::NoStartingState
    );
}

#[test]
fn two_starting_states() {
    assert_eq!(
        error_of(vec![clause(true, "A", "E", "B"), clause(true, "B", "E", "A")]),
        DefinitionError::MultipleStartingStates
    );
    let sm = ParsedStateMachine::new(definition(vec![
        clause(false, "B", "E", "A"),
        clause(true, "A", "E", "B"),
        clause(true, "A", "F", "B"),
    ]))
    .unwrap();
    assert_eq!(sm.starting_state, "A");
}

#[test]
fn temporary_context_that_is_no_type() {
    let mut d = definition(vec![clause(true, "A", "E", "B")]);
    d.temporary_context_type = text("&mut");
    assert!(matches!(ParsedStateMachine::new(d), Err(DefinitionError::InvalidTemporaryContext)));
}

#[test]
fn state_data_that_is_no_type() {
    let mut second = clause(false, "B", "E", "A");
    second.in_state_data = text("Vec<");
    assert_eq!(
        error_of(vec![clause(true, "A", "E", "B"), second]),
        DefinitionError::InvalidStateData(1)
    );
    let mut first = clause(true, "A", "E", "B");
    first.out_state_data = text("");
    assert_eq!(error_of(vec![first]), DefinitionError::InvalidStateData(0));
}

#[test]
fn event_data_that_is_no_type() {
    let mut first = clause(true, "A", "E", "B");
    first.event_data = text("u8,");
    assert_eq!(error_of(vec![first]), DefinitionError::InvalidEventData(0));
}

#[test]
fn two_types_for_the_data_of_one_state() {
    let mut first = clause(true, "A", "E", "B");
    first.out_state_data = text("u8");
    first.action = named("act", false);
    let mut second = clause(false, "B", "E", "A");
    second.in_state_data = text("u16");
    assert_eq!(error_of(vec![first, second]), DefinitionError::ConflictingStateData(1));

    let mut only = clause(true, "A", "E", "A");
    only.in_state_data = text("u8");
    only.out_state_data = text("u16");
    only.action = named("act", false);
    assert_eq!(error_of(vec![only]), DefinitionError::ConflictingStateData(0));
}

#[test]
fn the_same_type_written_twice_is_no_conflict() {
    let mut first = clause(true, "A", "E", "B");
    first.out_state_data = text("Vec<u8>");
    first.event_data = text("&'a u8");
    first.action = named("act", false);
    let mut second = clause(false, "B", "E", "A");
    second.in_state_data = text("Vec < u8 >");
    second.event_data = text("& 'a u8");
    let mut third = clause(false, "A", "F", "B");
    third.action = named("other", false);
    let sm = ParsedStateMachine::new(definition(vec![first, second, third])).unwrap();
    assert_eq!(sm.state_data.entries.len(), 1);
    assert_eq!(sm.state_data.get("B").unwrap().data_type.tokens, "Vec < u8 >");
    assert_eq!(sm.event_data.entries.len(), 1);
    assert_eq!(sm.event_data.get("E").unwrap().data_type.tokens, "& 'a u8");
}

#[test]
fn two_types_for_the_data_of_one_event() {
    let mut first = clause(true, "A", "E", "B");
    first.event_data = text("u8");
    let mut second = clause(false, "B", "E", "A");
    second.event_data = text("u16");
    assert_eq!(error_of(vec![first, second]), DefinitionError::ConflictingEventData(1));
}

#[test]
fn two_transitions_for_one_state_and_event() {
    let mut second = clause(false, "A", "E", "C");
    second.guard = named("check", false);
    assert_eq!(
        error_of(vec![clause(true, "A", "E", "B"), clause(false, "B", "E", "A"), second]),
        DefinitionError::DuplicateTransition(2)
    );
    assert_eq!(
        error_of(vec![clause(true, "A", "E", "B"), clause(false, "A", "E", "B")]),
        DefinitionError::DuplicateTransition(1)
    );
}

#[test]
fn a_state_with_data_needs_an_action() {
    let mut first = clause(true, "A", "E", "B");
    first.out_state_data = text("u8");
    assert_eq!(error_of(vec![first]), DefinitionError::MissingAction(0));

    let mut second = clause(false, "B", "E", "A");
    second.in_state_data = text("u8");
    assert_eq!(
        error_of(vec![clause(true, "A", "E", "B"), second]),
        DefinitionError::MissingAction(0)
    );
}

#[test]
fn a_guard_used_with_other_data() {
    let mut first = clause(true, "A", "E", "B");
    first.guard = named("check", false);
    first.event_data = text("u8");
    let mut second = clause(false, "B", "F", "A");
    second.guard = named("check", false);
    assert_eq!(error_of(vec![first, second]), DefinitionError::IncompatibleGuard(1));

    let mut first = clause(true, "A", "E", "B");
    first.guard = named("check", false);
    let mut second = clause(false, "B", "E", "A");
    second.guard = named("check", true);
    assert_eq!(error_of(vec![first, second]), DefinitionError::IncompatibleGuard(1));

    let mut first = clause(true, "A", "E", "B");
    first.guard = named("check", false);
    first.event_data = text("u8");
    let mut second = clause(false, "B", "E", "A");
    second.guard = named("check", false);
    assert!(ParsedStateMachine::new(definition(vec![first, second])).is_ok());
}

#[test]
fn an_action_used_with_other_data() {
    let mut first = clause(true, "A", "E", "B");
    first.action = named("act", false);
    first.out_state_data = text("u8");
    let mut second = clause(false, "B", "E", "A");
    second.action = named("act", false);
    assert_eq!(error_of(vec![first, second]), DefinitionError::IncompatibleAction(1));

    let mut first = clause(true, "A", "E", "A");
    first.action = named("act", false);
    let mut second = clause(false, "A", "F", "A");
    second.action = named("act", true);
    assert_eq!(error_of(vec![first, second]), DefinitionError::IncompatibleAction(1));

    let mut first = clause(true, "A", "E", "A");
    first.action = named("act", false);
    let mut second = clause(false, "A", "F", "A");
    second.action = named("act", false);
    assert!(ParsedStateMachine::new(definition(vec![first, second])).is_ok());
}

#[test]
fn the_first_error_is_reported() {
    let mut first = clause(false, "A", "E", "B");
    first.event_data = text("u8,");
    assert_eq!(
        error_of(vec![first, clause(false, "A", "E", "B")]),
        DefinitionError::NoStartingState
    );
    let mut first = clause(true, "A", "E", "B");
    first.event_data = text("u8,");
    assert_eq!(
        error_of(vec![first, clause(false, "A", "E", "B")]),
        DefinitionError::InvalidEventData(0)
    );
    let mut last = clause(false, "B", "F", "B");
    last.in_state_data = text("u8,");
    assert_eq!(
        error_of(vec![clause(true, "A", "E", "B"), clause(false, "A", "E", "B"), last]),
        DefinitionError::InvalidStateData(2)
    );
}

#[test]
fn collect_enters_the_first_type_of_a_name() {
    let mut data = DataDefinitions::new();
    assert_eq!(data.collect("A", &None), None);
    assert!(data.entries.is_empty());
    assert_eq!(data.collect("A", &text("& 'a u8")), None);
    assert_eq!(data.collect("A", &text("&'a u8")), None);
    assert_eq!(data.collect("A", &None), None);
    assert_eq!(data.collect("A", &text("u8")), Some(Clash::Conflict));
    assert_eq!(data.collect("B", &text("u8 u8")), Some(Clash::InvalidType));
    assert_eq!(data.collect("B", &text("Holder<'b, 'a>")), None);
    assert_eq!(data.entries.len(), 2);
    assert_eq!(data.entries[0].name, "A");
    assert_eq!(data.entries[1].name, "B");
    assert_eq!(data.all_lifetimes.lifetimes, strings(&["'a", "'b"]));
}

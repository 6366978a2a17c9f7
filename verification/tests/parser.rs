use smlang_macros::compile_text;
use smlang_macros::definition::DefinitionError;
use smlang_macros::model::ParsedStateMachine;
use smlang_macros::parser::{parse, ParseError, ParseErrorKind, Source};
use smlang_macros::CompileError;

const LOGGER: &str = "
    derive_states: [Debug],
    derive_events: [Debug],
    transitions: {
        *State1 + Event1(MyEventData) [guard1] / action1 = State2,
        State2(MyStateData) + Event2  [guard2] / action2 = State3,
    }
";

fn error_of(text: &str) -> (usize, ParseErrorKind) {
    match parse(text) {
        Ok(_) => panic!("the text was read"),
        Err(ParseError { position, kind }) => (position, kind),
    }
}

#[test]
fn the_logger_definition_is_read() {
    let d = parse(LOGGER).unwrap();
    assert_eq!(d.name, None);
    assert_eq!(d.temporary_context_type, None);
    assert!(!d.custom_guard_error);
    assert_eq!(d.derive_states, vec!["Debug"]);
    assert_eq!(d.derive_events, vec!["Debug"]);
    assert_eq!(d.transitions.len(), 2);
    let first = &d.transitions[0];
    assert!(first.start);
    assert_eq!(first.in_state, "State1");
    assert_eq!(first.in_state_data, None);
    assert_eq!(first.event, "Event1");
    assert_eq!(first.event_data.as_deref(), Some("MyEventData"));
    assert_eq!(first.guard.as_ref().unwrap().ident, "guard1");
    assert!(!first.guard.as_ref().unwrap().is_async);
    assert_eq!(first.action.as_ref().unwrap().ident, "action1");
    assert!(!first.action.as_ref().unwrap().is_async);
    assert_eq!(first.out_state, "State2");
    assert_eq!(first.out_state_data, None);
    let second = &d.transitions[1];
    assert!(!second.start);
    assert_eq!(second.in_state, "State2");
    assert_eq!(second.in_state_data.as_deref(), Some("MyStateData"));
    assert_eq!(second.event, "Event2");
    assert_eq!(second.event_data, None);
    assert_eq!(second.out_state, "State3");
}

#[test]
fn every_setting_is_read() {
    let d = parse(
        "name: Door, custom_guard_error: true, temporary_context: &mut HashMap<u8, fn(u8) -> (u8, u8)>, \
         derive_states: [Debug, Clone,], derive_events: [], \
         transitions: { *Closed + Open(&'a [u8]) [async allowed] / async open = Opened(Vec<(u8, u8)>) }",
    )
    .unwrap();
    assert_eq!(d.name.as_deref(), Some("Door"));
    assert!(d.custom_guard_error);
    assert_eq!(
        d.temporary_context_type.as_deref(),
        Some("&mut HashMap<u8, fn(u8) -> (u8, u8)>")
    );
    assert_eq!(d.derive_states, vec!["Debug", "Clone"]);
    assert!(d.derive_events.is_empty());
    assert_eq!(d.transitions.len(), 1);
    let t = &d.transitions[0];
    assert!(t.start);
    assert_eq!(t.event_data.as_deref(), Some("&'a [u8]"));
    assert!(t.guard.as_ref().unwrap().is_async);
    assert_eq!(t.guard.as_ref().unwrap().ident, "allowed");
    assert!(t.action.as_ref().unwrap().is_async);
    assert_eq!(t.action.as_ref().unwrap().ident, "open");
    assert_eq!(t.out_state, "Opened");
    assert_eq!(t.out_state_data.as_deref(), Some("Vec<(u8, u8)>"));
}

#[test]
fn a_clause_without_guard_and_action() {
    let d = parse("transitions:{*A+E=B,B+E=A}").unwrap();
    assert_eq!(d.transitions.len(), 2);
    assert!(d.transitions[0].guard.is_none());
    assert!(d.transitions[0].action.is_none());
    assert_eq!(d.transitions[1].in_state, "B");
    assert_eq!(d.transitions[1].out_state, "A");
    let d = parse("transitions: { A + E / act = B }").unwrap();
    assert!(d.transitions[0].guard.is_none());
    assert_eq!(d.transitions[0].action.as_ref().unwrap().ident, "act");
    let d = parse("transitions: { A + E [ check ] = B }").unwrap();
    assert_eq!(d.transitions[0].guard.as_ref().unwrap().ident, "check");
    assert!(d.transitions[0].action.is_none());
}

#[test]
fn the_text_as_a_token_stream_prints_it() {
    let stream: proc_macro2::TokenStream = LOGGER.parse().unwrap();
    let d = parse(&stream.to_string()).unwrap();
    assert_eq!(d.transitions.len(), 2);
    assert_eq!(d.transitions[0].event_data.as_deref(), Some("MyEventData"));
    assert_eq!(d.transitions[1].guard.as_ref().unwrap().ident, "guard2");
    assert!(ParsedStateMachine::new(d).is_ok());
}

#[test]
fn nothing_is_a_definition_without_settings() {
    for text in ["", "  \n\t "] {
        let d = parse(text).unwrap();
        assert!(d.name.is_none());
        assert!(d.transitions.is_empty());
    }
    let d = parse("transitions: {}").unwrap();
    assert!(d.transitions.is_empty());
    let d = parse("transitions: { } ,").unwrap();
    assert!(d.transitions.is_empty());
}

#[test]
fn a_setting_written_twice_holds_the_last() {
    let d = parse("name: A, name: B").unwrap();
    assert_eq!(d.name.as_deref(), Some("B"));
}

#[test]
fn errors_in_settings() {
    assert_eq!(error_of("  : x"), (2, ParseErrorKind::ExpectedKey));
    assert_eq!(error_of("9name: x"), (0, ParseErrorKind::ExpectedKey));
    assert_eq!(error_of(" states: x"), (1, ParseErrorKind::UnknownKey));
    assert_eq!(error_of("name Door"), (5, ParseErrorKind::ExpectedColon));
    assert_eq!(error_of("name"), (4, ParseErrorKind::ExpectedColon));
    assert_eq!(error_of("name: 7"), (6, ParseErrorKind::ExpectedName));
    assert_eq!(error_of("name: Door transitions: {}"), (11, ParseErrorKind::ExpectedComma));
    assert_eq!(error_of("custom_guard_error: yes"), (20, ParseErrorKind::ExpectedBool));
    assert_eq!(error_of("custom_guard_error: "), (20, ParseErrorKind::ExpectedBool));
    assert_eq!(error_of("derive_states: Debug"), (15, ParseErrorKind::ExpectedList));
    assert_eq!(error_of("derive_events: [Debug Clone]"), (22, ParseErrorKind::ExpectedListEnd));
    assert_eq!(error_of("derive_events: [Debug, 1]"), (23, ParseErrorKind::ExpectedName));
    assert_eq!(error_of("derive_events: [Debug"), (21, ParseErrorKind::ExpectedListEnd));
    assert_eq!(error_of("transitions: [ ]"), (13, ParseErrorKind::ExpectedTransitions));
}

#[test]
fn errors_in_clauses() {
    assert_eq!(error_of("transitions: { + E = B }"), (15, ParseErrorKind::ExpectedState));
    assert_eq!(error_of("transitions: { * = B }"), (17, ParseErrorKind::ExpectedState));
    assert_eq!(error_of("transitions: { A E = B }"), (17, ParseErrorKind::ExpectedPlus));
    assert_eq!(error_of("transitions: { A + = B }"), (19, ParseErrorKind::ExpectedEvent));
    assert_eq!(error_of("transitions: { A + E B }"), (21, ParseErrorKind::ExpectedEquals));
    assert_eq!(error_of("transitions: { A + E = }"), (23, ParseErrorKind::ExpectedState));
    assert_eq!(error_of("transitions: { A + E [] = B }"), (22, ParseErrorKind::ExpectedName));
    assert_eq!(error_of("transitions: { A + E [async] = B }"), (27, ParseErrorKind::ExpectedName));
    assert_eq!(error_of("transitions: { A + E [g h] = B }"), (24, ParseErrorKind::ExpectedGuardEnd));
    assert_eq!(error_of("transitions: { A + E / = B }"), (23, ParseErrorKind::ExpectedName));
    assert_eq!(error_of("transitions: { A + E = B C + E = A }"), (25, ParseErrorKind::ExpectedClauseEnd));
    assert_eq!(error_of("transitions: { A + E = B"), (24, ParseErrorKind::ExpectedClauseEnd));
    assert_eq!(error_of("transitions: { A(u8 + E = B }"), (28, ParseErrorKind::MismatchedData));
    assert_eq!(error_of("transitions: { A(u8 + E = B"), (16, ParseErrorKind::UnclosedData));
    assert_eq!(error_of("transitions: { A([u8; 2] + E = B ) }"), (35, ParseErrorKind::ExpectedPlus));
}

#[test]
fn source_reads_by_place() {
    let source = Source::new("a é(b) c");
    assert_eq!(source.len(), 8);
    assert_eq!(source.at(2), 'é');
    assert!(source.has(3, '('));
    assert!(!source.has(3, ')'));
    assert!(!source.has(8, 'c'));
    assert_eq!(source.slice(2, 6), "é(b)");
    assert_eq!(source.skip_spaces(1), 2);
    assert_eq!(source.skip_spaces(2), 2);
    assert_eq!(source.skip_spaces(8), 8);
    assert_eq!(source.name_end(0), 1);
    assert_eq!(source.name_end(2), 3);
    assert_eq!(source.group_end(4), Some(5));
    assert_eq!(source.group_end(6), None);
    let nested = Source::new("(a[b]{c})d)");
    assert_eq!(nested.group_end(1), Some(8));
    assert_eq!(nested.group_end(0), Some(10));
}

#[test]
fn a_text_is_compiled() {
    let stream = compile_text(LOGGER).unwrap();
    let printed = stream.to_string();
    let states: proc_macro2::TokenStream =
        "pub enum States <> { State1, State2(MyStateData), State3 }".parse().unwrap();
    let events: proc_macro2::TokenStream =
        "pub enum Events <> { Event1(MyEventData), Event2 }".parse().unwrap();
    assert!(printed.contains(&states.to_string()));
    assert!(printed.contains(&events.to_string()));
    assert!(matches!(
        compile_text("transitions: { A + E = B }"),
        Err(CompileError::Definition(DefinitionError::NoStartingState))
    ));
    assert!(matches!(
        compile_text("transitions: { *A + E = B, A + E = A }"),
        Err(CompileError::Definition(DefinitionError::DuplicateTransition(1)))
    ));
    assert!(matches!(
        compile_text("transitions: { *A + E(u8) = B, B + E(u16) = A }"),
        Err(CompileError::Definition(DefinitionError::ConflictingEventData(1)))
    ));
    assert!(matches!(
        compile_text("transitions { }"),
        Err(CompileError::Parse(ParseError { position: 12, kind: ParseErrorKind::ExpectedColon }))
    ));
}

use smlang_macros::codegen::{generate_code, generate_source, CodegenError};
use smlang_macros::compile;
use smlang_macros::definition::{Definition, DefinitionError, StateTransition};
use smlang_macros::model::{AsyncIdent, ParsedStateMachine};
use smlang_macros::CompileError;

fn named(name: &str, is_async: bool) -> Option<AsyncIdent> {
    Some(AsyncIdent { ident: name.to_string(), is_async })
}

fn text(s: &str) -> Option<String> {
    Some(s.to_string())
}

fn clause(start: bool, in_state: &str, event: &str, out_state: &str) -> StateTransition {
    StateTransition {
        start,
        in_state: in_state.to_string(),
        in_state_data: None,
        event: event.to_string(),
        event_data: None,
        guard: None,
        action: None,
        out_state: out_state.to_string(),
        out_state_data: None,
    }
}

fn definition(transitions: Vec<StateTransition>) -> Definition {
    Definition {
        name: None,
        temporary_context_type: None,
        custom_guard_error: false,
        derive_states: vec![],
        derive_events: vec![],
        transitions,
    }
}

fn logger_definition() -> Definition {
    let mut first = clause(true, "State1", "Event1", "State2");
    first.event_data = text("MyEventData");
    first.guard = named("guard1", false);
    first.action = named("action1", false);
    let mut second = clause(false, "State2", "Event2", "State3");
    second.in_state_data = text("MyStateData");
    second.guard = named("guard2", false);
    second.action = named("action2", false);
    let mut d = definition(vec![first, second]);
    d.derive_states = vec!["Debug".to_string()];
    d.derive_events = vec!["Debug".to_string()];
    d
}

fn tokens(source: &str) -> String {
    source.parse::<proc_macro2::TokenStream>().unwrap().to_string()
}

const DOOR: &str = "/// This trait outlines the guards and actions that need to be implemented for the state
/// machine.
pub trait DoorStateMachineContext {
/// Called at the beginning of a state machine's `process_event()`. No-op by
/// default but can be overridden in implementations of a state machine's
/// `StateMachineContext` trait.
fn log_process_event(&self, current_state: & DoorStates, event: & DoorEvents) {}
/// Called after executing a guard during `process_event()`. No-op by
/// default but can be overridden in implementations of a state machine's
/// `StateMachineContext` trait.
fn log_guard(&self, guard: &'static str, result: &Result<(), () >) {}
/// Called after executing an action during `process_event()`. No-op by
/// default but can be overridden in implementations of a state machine's
/// `StateMachineContext` trait.
fn log_action(&self, action: &'static str) {}
/// Called when transitioning to a new state as a result of an event passed to
/// `process_event()`. No-op by default but can be overridden in implementations
/// of a state machine's `StateMachineContext` trait.
fn log_state_change(&self, new_state: & DoorStates) {}
}
/// List of auto-generated states.
#[allow(missing_docs)]
#[derive(Debug, Clone)]
pub enum DoorStates <> { Closed, Opened }
/// Equality by variant only: the data is not compared.
impl<> PartialEq for DoorStates <> {
fn eq(&self, other: &Self) -> bool {
use core::mem::discriminant;
discriminant(self) == discriminant(other)
}
}
/// List of auto-generated events.
#[allow(missing_docs)]
#[derive()]
pub enum DoorEvents <> { Close, Open }
/// Equality by variant only: the data is not compared.
impl<> PartialEq for DoorEvents <> {
fn eq(&self, other: &Self) -> bool {
use core::mem::discriminant;
discriminant(self) == discriminant(other)
}
}
/// List of possible errors
#[derive(Debug)]
pub enum DoorError <T = ()> {
/// When an event is processed which should not come in the current state.
InvalidEvent,
/// When an event is processed whose guard did not return `true`.
GuardFailed(T),
/// When the state has an unexpected value.
///
/// This can happen if there is a bug in the generated code,
/// or if a guard or action gets panicked.
Poisoned,
}
/// State machine structure definition.
pub struct DoorStateMachine< T: DoorStateMachineContext> {
state: Option<DoorStates <> >,
context: T
}
impl< T: DoorStateMachineContext> DoorStateMachine< T> {
/// Creates a new state machine with the specified starting state.
#[inline(always)]
pub const fn new(context: T) -> Self {
DoorStateMachine { state: Some(DoorStates::Closed), context }
}
/// Creates a new state machine with an initial state.
#[inline(always)]
pub const fn new_with_state(context: T, initial_state: DoorStates <>) -> Self {
DoorStateMachine { state: Some(initial_state), context }
}
/// Returns the current state.
#[inline(always)]
pub fn state(&self) -> Result<&DoorStates <>, DoorError> {
self.state.as_ref().ok_or_else(|| DoorError ::Poisoned)
}
/// Returns the current context.
#[inline(always)]
pub fn context(&self) -> &T {
&self.context
}
/// Returns the current context as a mutable reference.
#[inline(always)]
pub fn context_mut(&mut self) -> &mut T {
&mut self.context
}
/// Process an event.
///
/// It will return `Ok(&NextState)` if the transition was successful, or an error
/// if there was an error in the transition.
pub fn process_event <> (&mut self, mut event: DoorEvents <>) -> Result<&DoorStates <>, DoorError> {
self.context.log_process_event(self.state()?, &event);
match self.state.take().ok_or_else(|| DoorError ::Poisoned)? {
DoorStates::Closed => match event { DoorEvents::Open => { let out_state = DoorStates::Opened; self.context.log_state_change(&out_state); self.state = Some(out_state); self.state() } _ => { self.state = Some(DoorStates::Closed); Err(DoorError::InvalidEvent) } },
DoorStates::Opened => match event { DoorEvents::Close => { let out_state = DoorStates::Closed; self.context.log_state_change(&out_state); self.state = Some(out_state); self.state() } _ => { self.state = Some(DoorStates::Opened); Err(DoorError::InvalidEvent) } }
state => { self.state = Some(state); Err(DoorError ::InvalidEvent) }
}
}
}
";

fn door_definition() -> Definition {
    let mut d = definition(vec![
        clause(true, "Closed", "Open", "Opened"),
        clause(false, "Opened", "Close", "Closed"),
    ]);
    d.name = text("Door");
    d.derive_states = vec!["Debug".to_string(), "Clone".to_string()];
    d
}

#[test]
fn source_of_a_machine_without_data() {
    let sm = ParsedStateMachine::new(door_definition()).unwrap();
    assert_eq!(generate_source(&sm), DOOR);
}

#[test]
fn code_is_the_tokens_of_the_source() {
    let sm = ParsedStateMachine::new(door_definition()).unwrap();
    let stream = generate_code(&sm).unwrap();
    assert_eq!(stream.to_string(), tokens(DOOR));
    assert!(!stream.is_empty());
    assert_ne!(stream.to_string(), DOOR);
}

#[test]
fn compile_resolves_and_generates() {
    let stream = compile(door_definition()).unwrap();
    assert_eq!(stream.to_string(), tokens(DOOR));
}

#[test]
fn compile_refuses_a_definition_with_an_error() {
    let d = definition(vec![clause(false, "A", "E", "B")]);
    match compile(d) {
        Err(CompileError::Definition(DefinitionError::NoStartingState)) => {}
        other => panic!("{:?}", other.map(|s| s.to_string())),
    }
}

#[test]
fn a_name_that_is_no_token_gives_no_code() {
    let d = definition(vec![clause(true, "A", "E\"", "B")]);
    let sm = ParsedStateMachine::new(d).unwrap();
    assert!(matches!(generate_code(&sm), Err(CodegenError::InvalidTokens)));
    let d = definition(vec![clause(true, "A", "E)", "B")]);
    match compile(d) {
        Err(CompileError::Codegen(CodegenError::InvalidTokens)) => {}
        other => panic!("{:?}", other.map(|s| s.to_string())),
    }
}

#[test]
fn guards_and_actions_of_the_logger_machine() {
    let sm = ParsedStateMachine::new(logger_definition()).unwrap();
    let source = generate_source(&sm);
    assert!(source.contains(
        "#[allow(missing_docs)] fn guard1 <> (&mut self, event_data: &MyEventData) -> Result<(), ()>;\n"
    ));
    assert!(source.contains(
        "#[allow(missing_docs)] fn guard2 <> (&mut self, state_data: &MyStateData, ) -> Result<(), ()>;\n"
    ));
    assert!(source.contains(
        "#[allow(missing_docs)] fn action1 <> (&mut self, event_data: MyEventData) -> MyStateData;\n"
    ));
    assert!(source.contains(
        "#[allow(missing_docs)] fn action2 <> (&mut self, state_data: MyStateData, ) -> ();\n"
    ));
    assert!(source.contains("pub enum States <> { State1, State2(MyStateData), State3 }"));
    assert!(source.contains("pub enum Events <> { Event1(MyEventData), Event2 }"));
    assert!(source.contains(
        "States::State1 => match event { Events::Event1(event_data) => { let guard_result = self.context.guard1(&event_data); self.context.log_guard(stringify!(guard1), &guard_result); if let Err(e) = guard_result { self.state = Some(States::State1); return Err(Error::GuardFailed(e)); } let _data = self.context.action1(event_data); self.context.log_action(stringify!(action1)); let out_state = States::State2(_data); self.context.log_state_change(&out_state); self.state = Some(out_state); self.state() } _ => { self.state = Some(States::State1); Err(Error::InvalidEvent) } },\n"
    ));
    assert!(source.contains(
        "States::State2(state_data) => match event { Events::Event2 => { let guard_result = self.context.guard2(&state_data); self.context.log_guard(stringify!(guard2), &guard_result); if let Err(e) = guard_result { self.state = Some(States::State2(state_data)); return Err(Error::GuardFailed(e)); } let _data = self.context.action2(state_data); self.context.log_action(stringify!(action2)); let out_state = States::State3; self.context.log_state_change(&out_state); self.state = Some(out_state); self.state() } _ => { self.state = Some(States::State2(state_data)); Err(Error::InvalidEvent) } },\n"
    ));
    assert!(source.contains(
        "States::State3 => match event {  _ => { self.state = Some(States::State3); Err(Error::InvalidEvent) } }\nstate => { self.state = Some(state); Err(Error ::InvalidEvent) }\n"
    ));
    assert!(generate_code(&sm).is_ok());
}

#[test]
fn a_guard_is_declared_once() {
    let mut first = clause(true, "A", "E", "B");
    first.guard = named("check", false);
    first.action = named("act", false);
    let mut second = clause(false, "B", "E", "A");
    second.guard = named("check", false);
    second.action = named("act", false);
    let sm = ParsedStateMachine::new(definition(vec![first, second])).unwrap();
    let source = generate_source(&sm);
    assert_eq!(source.matches("fn check <>").count(), 1);
    assert_eq!(source.matches("fn act <>").count(), 1);
    assert_eq!(source.matches("self.context.check(").count(), 2);
    assert_eq!(source.matches("self.context.act(").count(), 2);
}

#[test]
fn an_awaited_guard_makes_the_machine_asynchronous() {
    let mut first = clause(true, "A", "E", "B");
    first.guard = named("check", true);
    let mut second = clause(false, "B", "E", "A");
    second.action = named("act", false);
    let sm = ParsedStateMachine::new(definition(vec![first, second])).unwrap();
    let source = generate_source(&sm);
    assert!(source.contains("#[smlang::async_trait]\npub trait StateMachineContext {\n"));
    assert!(source.contains("#[allow(missing_docs)] async fn check <> (&mut self, ) -> Result<(), ()>;\n"));
    assert!(source.contains("#[allow(missing_docs)] fn act <> (&mut self, ) -> ();\n"));
    assert!(source.contains("let guard_result = self.context.check().await; "));
    assert!(source.contains("let _data = self.context.act(); "));
    assert!(source.contains("pub async fn process_event <> (&mut self, mut event: Events <>)"));
    assert!(generate_code(&sm).is_ok());
}

#[test]
fn a_machine_without_awaited_steps_is_synchronous() {
    let sm = ParsedStateMachine::new(logger_definition()).unwrap();
    let source = generate_source(&sm);
    assert!(!source.contains("async"));
    assert!(!source.contains(".await"));
}

#[test]
fn temporary_context_and_guard_error() {
    let mut first = clause(true, "A", "E", "B");
    first.guard = named("check", false);
    first.action = named("act", false);
    first.event_data = text("u8");
    let mut d = definition(vec![first]);
    d.temporary_context_type = text("&mut u16");
    d.custom_guard_error = true;
    let sm = ParsedStateMachine::new(d).unwrap();
    let source = generate_source(&sm);
    assert!(source.contains("/// The error type returned by guard functions.\ntype GuardError: core::fmt::Debug;\n"));
    assert!(source.contains(
        "fn check <> (&mut self, temporary_context: & mut u16, event_data: &u8) -> Result<(), Self::GuardError>;\n"
    ));
    assert!(source.contains("fn act <> (&mut self, temporary_context: & mut u16, event_data: u8) -> ();\n"));
    assert!(source.contains("let guard_result = self.context.check(temporary_context, &event_data); "));
    assert!(source.contains("let _data = self.context.act(temporary_context, event_data); "));
    assert!(source.contains(
        "pub fn process_event <> (&mut self, temporary_context: & mut u16, mut event: Events <>) -> Result<&States <>, Error< <T as StateMachineContext>::GuardError>> {\n"
    ));
    assert!(source.contains("result: &Result<(), Self::GuardError >) {}"));
    assert!(generate_code(&sm).is_ok());
}

#[test]
fn data_with_lifetimes() {
    let mut first = clause(true, "A", "E", "B");
    first.in_state_data = text("&'a u8");
    first.event_data = text("Wrapper<'b, 'a>");
    first.out_state_data = text("u8");
    first.guard = named("check", false);
    first.action = named("act", false);
    let sm = ParsedStateMachine::new(definition(vec![first])).unwrap();
    let source = generate_source(&sm);
    assert!(source.contains("pub enum States <'a, > { A(& 'a u8), B(u8) }"));
    assert!(source.contains("pub enum Events <'b, 'a, > { E(Wrapper < 'b , 'a >) }"));
    assert!(source.contains(
        "fn check <'a, 'b, > (&mut self, state_data: & 'a u8, event_data: &Wrapper < 'b , 'a >) -> Result<(), ()>;\n"
    ));
    assert!(source.contains(
        "fn act <'a, 'b, > (&mut self, state_data: & 'a u8, event_data: Wrapper < 'b , 'a >) -> u8;\n"
    ));
    assert!(source.contains("let guard_result = self.context.check(state_data, &event_data); "));
    assert!(source.contains("let _data = self.context.act(state_data, event_data); "));
    assert!(source.contains("pub fn process_event <'b, > (&mut self, mut event: Events <'b, 'a, >) -> Result<&States <'a, >, Error> {\n"));
    assert!(source.contains("pub struct StateMachine<'a,  T: StateMachineContext> {\nstate: Option<States <'a, > >,\ncontext: T\n}\n"));
    assert!(source.contains("pub const fn new(context: T, state_data: & 'a u8) -> Self {\nStateMachine { state: Some(States::A(state_data)), context }\n}\n"));
    assert!(generate_code(&sm).is_ok());
}

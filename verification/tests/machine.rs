use smlang_macros::definition::{Definition, StateTransition};
use smlang_macros::machine::{Error, Event, Pending, State, StateMachine, StateMachineContext};
use smlang_macros::model::{AsyncIdent, ParsedStateMachine};
use std::cell::RefCell;

fn named(name: &str) -> Option<AsyncIdent> {
    Some(AsyncIdent { ident: name.to_string(), is_async: false })
}

fn logger_machine() -> ParsedStateMachine {
    let d = Definition {
        name: None,
        temporary_context_type: None,
        custom_guard_error: false,
        derive_states: vec!["Debug".to_string()],
        derive_events: vec!["Debug".to_string()],
        transitions: vec![
            StateTransition {
                start: true,
                in_state: "State1".to_string(),
                in_state_data: None,
                event: "Event1".to_string(),
                event_data: Some("MyEventData".to_string()),
                guard: named("guard1"),
                action: named("action1"),
                out_state: "State2".to_string(),
                out_state_data: Some("MyStateData".to_string()),
            },
            StateTransition {
                start: false,
                in_state: "State2".to_string(),
                in_state_data: Some("MyStateData".to_string()),
                event: "Event2".to_string(),
                event_data: None,
                guard: named("guard2"),
                action: named("action2"),
                out_state: "State3".to_string(),
                out_state_data: None,
            },
            StateTransition {
                start: false,
                in_state: "State3".to_string(),
                in_state_data: None,
                event: "Reset".to_string(),
                event_data: None,
                guard: None,
                action: None,
                out_state: "State1".to_string(),
                out_state_data: None,
            },
        ],
    };
    ParsedStateMachine::new(d).unwrap()
}

/// The context of the logger machine: the guards accept even data, the first
/// action hands the event's data on, and every hook is written down.
struct Context {
    log: RefCell<Vec<String>>,
    calls: u32,
}

impl Context {
    fn new() -> Context {
        Context { log: RefCell::new(Vec::new()), calls: 0 }
    }

    fn taken(&self) -> Vec<String> {
        self.log.borrow_mut().drain(..).collect()
    }
}

fn shown(name: &str, data: &Option<u32>) -> String {
    match data {
        Some(d) => format!("{}({})", name, d),
        None => name.to_string(),
    }
}

impl StateMachineContext<u32, String, u32> for Context {
    fn guard(
        &mut self,
        name: &str,
        temporary_context: &mut u32,
        state_data: Option<&u32>,
        event_data: Option<&u32>,
    ) -> Result<(), String> {
        self.calls += 1;
        *temporary_context += 1;
        let data = match name {
            "guard1" => event_data,
            "guard2" => state_data,
            _ => None,
        };
        match data {
            Some(d) if d % 2 == 0 => Ok(()),
            Some(d) => Err(format!("{} is odd", d)),
            None => Err("no data".to_string()),
        }
    }

    fn action(
        &mut self,
        name: &str,
        temporary_context: &mut u32,
        state_data: Option<u32>,
        event_data: Option<u32>,
    ) -> Option<u32> {
        self.calls += 1;
        *temporary_context += 10;
        self.log.borrow_mut().push(format!("in {}: {:?} {:?}", name, state_data, event_data));
        match name {
            "action1" => event_data,
            _ => Some(99),
        }
    }

    fn log_process_event(&self, current_state: &State<u32>, event: &Event<u32>) {
        self.log.borrow_mut().push(format!(
            "[{}] Processing event {}",
            shown(&current_state.name, &current_state.data),
            shown(&event.name, &event.data)
        ));
    }

    fn log_guard(&self, guard: &str, result: &Result<(), String>) {
        if result.is_ok() {
            self.log.borrow_mut().push(format!("Passed `{}`", guard));
        } else {
            self.log.borrow_mut().push(format!("Failed `{}`", guard));
        }
    }

    fn log_action(&self, action: &str) {
        self.log.borrow_mut().push(format!("Running `{}`", action));
    }

    fn log_state_change(&self, new_state: &State<u32>) {
        self.log.borrow_mut().push(format!(
            "Transitioning to {}",
            shown(&new_state.name, &new_state.data)
        ));
    }
}

/// A context that leaves the hooks as they are.
struct Quiet;

impl StateMachineContext<u32, (), ()> for Quiet {
    fn guard(
        &mut self,
        _name: &str,
        _temporary_context: &mut (),
        _state_data: Option<&u32>,
        event_data: Option<&u32>,
    ) -> Result<(), ()> {
        match event_data {
            Some(0) => Ok(()),
            _ => Err(()),
        }
    }

    fn action(
        &mut self,
        _name: &str,
        _temporary_context: &mut (),
        _state_data: Option<u32>,
        event_data: Option<u32>,
    ) -> Option<u32> {
        event_data
    }
}

fn event(name: &str, data: Option<u32>) -> Event<u32> {
    Event { name: name.to_string(), data }
}

fn current<T>(sm: &StateMachine<T, u32>) -> (String, Option<u32>) {
    let state = sm.state::<()>().unwrap();
    (state.name.clone(), state.data)
}

#[test]
fn logger_scenario() {
    let mut sm = StateMachine::new(logger_machine(), Context::new(), None);
    let mut steps: u32 = 0;
    assert_eq!(current(&sm), ("State1".to_string(), None));

    let result = sm.process_event(&mut steps, event("Event1", Some(1)));
    assert!(matches!(result, Err(Error::GuardFailed(ref e)) if e == "1 is odd"));
    assert_eq!(current(&sm), ("State1".to_string(), None));
    assert_eq!(
        sm.context().taken(),
        vec!["[State1] Processing event Event1(1)", "Failed `guard1`"]
    );

    let result = sm.process_event(&mut steps, event("Event1", Some(0)));
    let entered = result.unwrap();
    assert_eq!(entered.name, "State2");
    assert_eq!(entered.data, Some(0));
    assert_eq!(current(&sm), ("State2".to_string(), Some(0)));
    assert_eq!(
        sm.context().taken(),
        vec![
            "[State1] Processing event Event1(0)",
            "Passed `guard1`",
            "in action1: None Some(0)",
            "Running `action1`",
            "Transitioning to State2(0)",
        ]
    );

    let result = sm.process_event(&mut steps, event("Event2", None));
    let entered = result.unwrap();
    assert_eq!(entered.name, "State3");
    assert_eq!(entered.data, None);
    assert_eq!(current(&sm), ("State3".to_string(), None));
    assert_eq!(
        sm.context().taken(),
        vec![
            "[State2(0)] Processing event Event2",
            "Passed `guard2`",
            "in action2: Some(0) None",
            "Running `action2`",
            "Transitioning to State3",
        ]
    );
    assert_eq!(sm.context().calls, 5);
    assert_eq!(steps, 23);
}

#[test]
fn an_event_without_a_transition_is_invalid_and_changes_nothing() {
    let mut sm = StateMachine::new(logger_machine(), Context::new(), None);
    let mut steps: u32 = 0;
    for name in ["Event2", "Reset", "Unknown", ""] {
        let result = sm.process_event(&mut steps, event(name, Some(4)));
        assert!(matches!(result, Err(Error::InvalidEvent)));
        assert_eq!(current(&sm), ("State1".to_string(), None));
        assert_eq!(
            sm.context().taken(),
            vec![format!("[State1] Processing event {}(4)", name)]
        );
    }
    assert_eq!(sm.context().calls, 0);
    assert_eq!(steps, 0);

    let state = State { name: "State2".to_string(), data: Some(7) };
    let mut sm = StateMachine::new_with_state(logger_machine(), Context::new(), state);
    for name in ["Event1", "Reset"] {
        let result = sm.process_event(&mut steps, event(name, Some(0)));
        assert!(matches!(result, Err(Error::InvalidEvent)));
        assert_eq!(current(&sm), ("State2".to_string(), Some(7)));
    }
}

#[test]
fn a_failed_guard_keeps_the_state_and_its_data() {
    let state = State { name: "State2".to_string(), data: Some(7) };
    let mut sm = StateMachine::new_with_state(logger_machine(), Context::new(), state);
    let mut steps: u32 = 0;
    let result = sm.process_event(&mut steps, event("Event2", None));
    assert!(matches!(result, Err(Error::GuardFailed(ref e)) if e == "7 is odd"));
    assert_eq!(current(&sm), ("State2".to_string(), Some(7)));
    assert_eq!(
        sm.context().taken(),
        vec!["[State2(7)] Processing event Event2", "Failed `guard2`"]
    );
    assert_eq!(sm.context().calls, 1);
}

#[test]
fn a_transition_without_action_enters_a_state_without_data() {
    let state = State { name: "State3".to_string(), data: None };
    let mut sm = StateMachine::new_with_state(logger_machine(), Context::new(), state);
    let mut steps: u32 = 0;
    let entered = sm.process_event(&mut steps, event("Reset", Some(5))).unwrap();
    assert_eq!(entered.name, "State1");
    assert_eq!(entered.data, None);
    assert_eq!(
        sm.context().taken(),
        vec!["[State3] Processing event Reset(5)", "Transitioning to State1"]
    );
    assert_eq!(sm.context().calls, 0);
}

#[test]
fn what_an_action_produces_for_a_state_without_data_is_dropped() {
    let state = State { name: "State2".to_string(), data: Some(2) };
    let mut sm = StateMachine::new_with_state(logger_machine(), Context::new(), state);
    let mut steps: u32 = 0;
    let entered = sm.process_event(&mut steps, event("Event2", None)).unwrap();
    assert_eq!(entered.name, "State3");
    assert_eq!(entered.data, None);
}

#[test]
fn two_runs_observe_the_same() {
    let run = || {
        let mut sm = StateMachine::new(logger_machine(), Context::new(), None);
        let mut steps: u32 = 0;
        let mut seen = Vec::new();
        let events = [
            event("Event1", Some(1)),
            event("Event2", None),
            event("Event1", Some(0)),
            event("Event1", Some(2)),
            event("Event2", None),
            event("Reset", None),
            event("Event1", Some(3)),
        ];
        for e in events {
            let result = match sm.process_event(&mut steps, e) {
                Ok(s) => format!("Ok({})", shown(&s.name, &s.data)),
                Err(e) => format!("{:?}", e),
            };
            seen.push(result);
            seen.push(format!("{:?}", current(&sm)));
            seen.extend(sm.context().taken());
        }
        seen
    };
    let first = run();
    assert_eq!(first, run());
    assert_eq!(first[0], "GuardFailed(\"1 is odd\")");
    assert_eq!(first[4], "InvalidEvent");
    assert_eq!(first[7], "Ok(State2(0))");
}

#[test]
fn hooks_do_nothing_unless_overridden() {
    let mut sm = StateMachine::new(logger_machine(), Quiet, None);
    assert!(matches!(sm.process_event(&mut (), event("Event1", Some(1))), Err(Error::GuardFailed(()))));
    let entered = sm.process_event(&mut (), event("Event1", Some(0))).unwrap();
    assert_eq!(entered.data, Some(0));
}

#[test]
fn the_starting_state_takes_data_where_it_is_declared_with_data() {
    let d = Definition {
        name: None,
        temporary_context_type: None,
        custom_guard_error: false,
        derive_states: vec![],
        derive_events: vec![],
        transitions: vec![StateTransition {
            start: true,
            in_state: "Loaded".to_string(),
            in_state_data: Some("u32".to_string()),
            event: "Drop".to_string(),
            event_data: None,
            guard: None,
            action: None,
            out_state: "Empty".to_string(),
            out_state_data: None,
        }],
    };
    let sm = StateMachine::new(ParsedStateMachine::new(d).unwrap(), Quiet, Some(3));
    assert_eq!(current(&sm), ("Loaded".to_string(), Some(3)));
    let sm = StateMachine::new(logger_machine(), Quiet, Some(3));
    assert_eq!(current(&sm), ("State1".to_string(), None));
}

#[test]
fn context_can_be_read_and_changed() {
    let mut sm = StateMachine::new(logger_machine(), Context::new(), None);
    assert_eq!(sm.context().calls, 0);
    sm.context_mut().calls = 8;
    assert_eq!(sm.context().calls, 8);
    assert_eq!(current(&sm), ("State1".to_string(), None));
}

#[test]
fn states_are_equal_by_name() {
    let a = State { name: "State2".to_string(), data: Some(1) };
    let b = State { name: "State2".to_string(), data: Some(2) };
    let c = State { name: "State3".to_string(), data: Some(1) };
    assert!(a == b);
    assert!(a != c);
    assert!(event("Event1", Some(1)) == event("Event1", None));
    assert!(event("Event1", Some(1)) != event("Event2", Some(1)));
}

#[test]
fn a_dispatch_in_steps() {
    let mut sm = StateMachine::new(logger_machine(), Quiet, None);

    let failed: Result<Pending<u32>, Error<()>> = sm.begin(event("Event2", None));
    assert!(matches!(failed, Err(Error::InvalidEvent)));
    assert_eq!(current(&sm), ("State1".to_string(), None));

    let pending: Pending<u32> = sm.begin::<()>(event("Event1", Some(4))).unwrap();
    assert_eq!(pending.transition.out_state, "State2");
    assert_eq!(pending.transition.guard.as_ref().unwrap().ident, "guard1");
    assert_eq!(pending.state.name, "State1");
    assert_eq!(pending.event.data, Some(4));
    assert!(matches!(sm.state::<()>(), Err(Error::Poisoned)));
    let poisoned: Result<Pending<u32>, Error<()>> = sm.begin(event("Event1", Some(4)));
    assert!(matches!(poisoned, Err(Error::Poisoned)));
    assert!(matches!(sm.process_event(&mut (), event("Event1", Some(0))), Err(Error::Poisoned)));

    let error = sm.reject(pending, 12u8);
    assert!(matches!(error, Error::GuardFailed(12)));
    assert_eq!(current(&sm), ("State1".to_string(), None));

    let pending: Pending<u32> = sm.begin::<()>(event("Event1", Some(4))).unwrap();
    let new_state = sm.enter(&pending.transition, Some(40));
    assert_eq!(new_state.name, "State2");
    assert_eq!(new_state.data, Some(40));
    sm.finish(new_state);
    assert_eq!(current(&sm), ("State2".to_string(), Some(40)));
}

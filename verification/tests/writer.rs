use smlang_macros::definition::{Definition, StateTransition};
use smlang_macros::model::AsyncIdent;
use smlang_macros::parser::parse;
use smlang_macros::writer::write_definition;

fn named(name: &str, is_async: bool) -> Option<AsyncIdent> {
    Some(AsyncIdent { ident: name.to_string(), is_async })
}

fn text(s: &str) -> Option<String> {
    Some(s.to_string())
}

fn clause(start: bool, in_state: &str, event: &str, out_state: &str) -> StateTransition {
    StateTransition {
        start,
        in_state: in_state.to_string(),
        in_state_data: None,
        event: event.to_string(),
        event_data: None,
        guard: None,
        action: None,
        out_state: out_state.to_string(),
        out_state_data: None,
    }
}

fn door() -> Definition {
    let mut first = clause(true, "Closed", "Open", "Opened");
    first.in_state_data = text("u8");
    first.event_data = text("&'a [u8]");
    first.guard = named("allowed", true);
    first.action = named("open", true);
    first.out_state_data = text("Vec<(u8, u8)>");
    let mut second = clause(false, "Opened", "Close", "Closed");
    second.in_state_data = text("Vec<(u8, u8)>");
    second.guard = named("empty", false);
    second.action = named("close", false);
    second.out_state_data = text("u8");
    let third = clause(false, "Opened", "Open", "Opened");
    Definition {
        name: text("Door"),
        temporary_context_type: text("&mut HashMap<u8, fn(u8) -> (u8, u8)>"),
        custom_guard_error: true,
        derive_states: vec!["Debug".to_string(), "Clone".to_string()],
        derive_events: vec![],
        transitions: vec![first, second, third],
    }
}

fn shown(d: &Definition) -> Vec<String> {
    let mut lines = vec![
        format!("{:?}", d.name),
        format!("{:?}", d.temporary_context_type),
        format!("{:?}", d.custom_guard_error),
        format!("{:?}", d.derive_states),
        format!("{:?}", d.derive_events),
    ];
    for t in &d.transitions {
        let step = |s: &Option<AsyncIdent>| s.as_ref().map(|a| (a.ident.clone(), a.is_async));
        lines.push(format!(
            "{} {} {:?} {} {:?} {:?} {:?} {} {:?}",
            t.start,
            t.in_state,
            t.in_state_data,
            t.event,
            t.event_data,
            step(&t.guard),
            step(&t.action),
            t.out_state,
            t.out_state_data
        ));
    }
    lines
}

#[test]
fn a_definition_is_written() {
    assert_eq!(
        write_definition(&door()),
        "name:Door,temporary_context:&mut HashMap<u8, fn(u8) -> (u8, u8)>,custom_guard_error:true,\
         derive_states:[Debug,Clone,],derive_events:[],\
         transitions:{*Closed(u8)+Open(&'a [u8])[async allowed]/async open=Opened(Vec<(u8, u8)>),\
         Opened(Vec<(u8, u8)>)+Close[empty]/close=Closed(u8),Opened+Open=Opened,}"
    );
    let empty = Definition {
        name: None,
        temporary_context_type: None,
        custom_guard_error: false,
        derive_states: vec![],
        derive_events: vec![],
        transitions: vec![],
    };
    assert_eq!(
        write_definition(&empty),
        "custom_guard_error:false,derive_states:[],derive_events:[],transitions:{}"
    );
}

#[test]
fn what_is_written_is_read() {
    let d = door();
    let read = parse(&write_definition(&d)).unwrap();
    assert_eq!(shown(&read), shown(&d));
    assert_eq!(write_definition(&read), write_definition(&d));

    let mut plain = door();
    plain.name = None;
    plain.temporary_context_type = None;
    plain.custom_guard_error = false;
    plain.transitions.truncate(1);
    plain.transitions[0].guard = None;
    plain.transitions[0].in_state_data = None;
    let read = parse(&write_definition(&plain)).unwrap();
    assert_eq!(shown(&read), shown(&plain));

    let mut other = door();
    other.transitions[0].action = None;
    other.transitions[0].out_state_data = text("[u8; 4]");
    other.temporary_context_type = text("");
    let read = parse(&write_definition(&other)).unwrap();
    assert_eq!(shown(&read), shown(&other));
}

#[test]
fn what_is_read_and_written_is_read_the_same() {
    let text = "
        name: Logger,
        derive_states: [ Debug ],
        transitions: {
            *State1 + Event1(MyEventData) [guard1] / action1 = State2,
            State2(MyStateData) + Event2 [async guard2] / action2 = State3
        },
        custom_guard_error: true
    ";
    let d = parse(text).unwrap();
    let written = write_definition(&d);
    assert_eq!(
        written,
        "name:Logger,custom_guard_error:true,derive_states:[Debug,],derive_events:[],\
         transitions:{*State1+Event1(MyEventData)[guard1]/action1=State2,\
         State2(MyStateData)+Event2[async guard2]/action2=State3,}"
    );
    assert_eq!(shown(&parse(&written).unwrap()), shown(&d));
}

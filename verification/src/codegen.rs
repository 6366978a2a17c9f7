//! The code of a machine: the source that is generated for a resolved
//! definition, piece by piece, and its tokens.

use crate::model::{
    extended, find_name, without, AsyncIdent, AsyncIdentView, DataDefinitions, DataDefinitionsView,
    DataTypeView, EventMapping, EventMappingView, Lifetimes, ParsedStateMachine,
    ParsedStateMachineView, StateEvents, StateEventsView,
};
use crate::text::{
    concat_all, concat_strings, join_strings, joined, sort_names, sorted_texts, texts,
};
use crate::tokens::{lex, lexed, stream_tokens};
use vstd::prelude::*;

verus! {

/// The name that the definition gives its machine, or the empty string.
pub open spec fn prefix(m: ParsedStateMachineView) -> Seq<char> {
    match m.name {
        Some(n) => n,
        None => Seq::empty(),
    }
}

/// The name of a generated type: the machine's name, then `suffix`.
pub open spec fn generated_name(m: ParsedStateMachineView, suffix: Seq<char>) -> Seq<char> {
    prefix(m) + suffix
}

/// The name of the enum of the states.
pub open spec fn states_type_name(m: ParsedStateMachineView) -> Seq<char> {
    generated_name(m, "States"@)
}

/// The name of the enum of the events.
pub open spec fn events_type_name(m: ParsedStateMachineView) -> Seq<char> {
    generated_name(m, "Events"@)
}

/// The name of the enum of the errors.
pub open spec fn error_type_name(m: ParsedStateMachineView) -> Seq<char> {
    generated_name(m, "Error"@)
}

/// The name of the struct of the machine.
pub open spec fn state_machine_type_name(m: ParsedStateMachineView) -> Seq<char> {
    generated_name(m, "StateMachine"@)
}

/// The name of the trait that the user implements.
pub open spec fn state_machine_context_type_name(m: ParsedStateMachineView) -> Seq<char> {
    generated_name(m, "StateMachineContext"@)
}

/// `name`, followed in brackets by `inner` where `present` holds.
pub open spec fn with_payload(name: Seq<char>, present: bool, inner: Seq<char>) -> Seq<char> {
    if present {
        name + "("@ + inner + ")"@
    } else {
        name
    }
}

/// A variant of a generated enum: the name, and in brackets the type of its
/// data where it carries any.
pub open spec fn variant(name: Seq<char>, ty: Option<DataTypeView>) -> Seq<char> {
    match ty {
        Some(t) => with_payload(name, true, t.tokens),
        None => name,
    }
}

/// The variants of a generated enum, in the order of their names.
pub open spec fn variants(names: Seq<Seq<char>>, data: DataDefinitionsView) -> Seq<Seq<char>> {
    let sorted = sorted_texts(names);
    Seq::new(sorted.len(), |i: int| variant(sorted[i], data.data_type(sorted[i])))
}

/// A state or an event as a pattern, or as the value built from it: the name,
/// and in brackets `binding` where it carries data.
pub open spec fn pattern(name: Seq<char>, data: DataDefinitionsView, binding: Seq<char>) -> Seq<
    char,
> {
    with_payload(name, data.data_type(name) is Some, binding)
}

/// An argument handed on by value: `binding` where `name` carries data.
pub open spec fn value_argument(name: Seq<char>, data: DataDefinitionsView, binding: Seq<char>) -> Seq<
    char,
> {
    if data.data_type(name) is Some {
        binding
    } else {
        Seq::empty()
    }
}

/// An argument handed on by reference: `binding` where the data of `name` is
/// a reference itself, a reference to `binding` where it is not.
pub open spec fn reference_argument(
    name: Seq<char>,
    data: DataDefinitionsView,
    binding: Seq<char>,
) -> Seq<char> {
    match data.data_type(name) {
        Some(t) => if t.is_reference {
            binding
        } else {
            "&"@ + binding
        },
        None => Seq::empty(),
    }
}

/// Two arguments in a row, with a comma between them where there are two.
pub open spec fn argument_pair(first: Seq<char>, second: Seq<char>) -> Seq<char> {
    if first.len() == 0 || second.len() == 0 {
        first + second
    } else {
        first + ", "@ + second
    }
}

/// The arguments of an action: the data of the state and of the event.
pub open spec fn guard_action_parameters(
    m: ParsedStateMachineView,
    state: Seq<char>,
    event: Seq<char>,
) -> Seq<char> {
    argument_pair(
        value_argument(state, m.state_data, "state_data"@),
        value_argument(event, m.event_data, "event_data"@),
    )
}

/// The arguments of a guard: references to the data of the state and of the event.
pub open spec fn guard_action_ref_parameters(
    m: ParsedStateMachineView,
    state: Seq<char>,
    event: Seq<char>,
) -> Seq<char> {
    argument_pair(
        reference_argument(state, m.state_data, "state_data"@),
        reference_argument(event, m.event_data, "event_data"@),
    )
}

/// The parameter for the temporary context, where the machine has one.
pub open spec fn temporary_context(m: ParsedStateMachineView) -> Seq<char> {
    match m.temporary_context_type {
        Some(t) => "temporary_context: "@ + t.tokens + ", "@,
        None => Seq::empty(),
    }
}

/// The argument for the temporary context, where the machine has one.
pub open spec fn temporary_context_call(m: ParsedStateMachineView) -> Seq<char> {
    match m.temporary_context_type {
        Some(_) => "temporary_context, "@,
        None => Seq::empty(),
    }
}

/// The error type of the guards as the context trait names it.
pub open spec fn guard_error_type(m: ParsedStateMachineView) -> Seq<char> {
    if m.custom_guard_error {
        "Self::GuardError"@
    } else {
        "()"@
    }
}

/// What follows a call that is awaited.
pub open spec fn await_suffix(is_async: bool) -> Seq<char> {
    if is_async {
        ".await"@
    } else {
        Seq::empty()
    }
}

/// What stands before a function that is awaited.
pub open spec fn async_keyword(is_async: bool) -> Seq<char> {
    if is_async {
        "async "@
    } else {
        Seq::empty()
    }
}

/// The statement that puts `state` back as the current state.
pub open spec fn restore_state(m: ParsedStateMachineView, state: Seq<char>) -> Seq<char> {
    "self.state = Some("@ + states_type_name(m) + "::"@ + pattern(
        state,
        m.state_data,
        "state_data"@,
    ) + "); "@
}

/// The statements for a guard: it is called with references to the data, its
/// result is logged, and where it failed the state is put back and the
/// dispatch ends with the guard's error.
pub open spec fn guard_block(
    m: ParsedStateMachineView,
    state: Seq<char>,
    event: Seq<char>,
    g: AsyncIdentView,
) -> Seq<char> {
    "let guard_result = self.context."@ + g.ident + "("@ + temporary_context_call(m)
        + guard_action_ref_parameters(m, state, event) + ")"@ + await_suffix(g.is_async)
        + "; self.context.log_guard(stringify!("@ + g.ident
        + "), &guard_result); if let Err(e) = guard_result { "@ + restore_state(m, state)
        + "return Err("@ + error_type_name(m) + "::GuardFailed(e)); } "@
}

/// The statements for an action: it is called with the data, then logged.
pub open spec fn action_block(
    m: ParsedStateMachineView,
    state: Seq<char>,
    event: Seq<char>,
    a: AsyncIdentView,
) -> Seq<char> {
    "let _data = self.context."@ + a.ident + "("@ + temporary_context_call(m)
        + guard_action_parameters(m, state, event) + ")"@ + await_suffix(a.is_async)
        + "; self.context.log_action(stringify!("@ + a.ident + ")); "@
}

/// The statements that build the new state, log it and make it current.
pub open spec fn state_change_block(m: ParsedStateMachineView, out_state: Seq<char>) -> Seq<char> {
    "let out_state = "@ + states_type_name(m) + "::"@ + pattern(out_state, m.state_data, "_data"@)
        + "; self.context.log_state_change(&out_state); self.state = Some(out_state); "@
}

/// The statements of one transition: the guard where it has one, the action
/// where it has one, then the change of state.
pub open spec fn code_block(m: ParsedStateMachineView, state: Seq<char>, t: EventMappingView) -> Seq<
    char,
> {
    (match t.guard {
        Some(g) => guard_block(m, state, t.event, g),
        None => Seq::empty(),
    }) + (match t.action {
        Some(a) => action_block(m, state, t.event, a),
        None => Seq::empty(),
    }) + state_change_block(m, t.out_state)
}

/// The match arm for one event in one state.
pub open spec fn event_arm(m: ParsedStateMachineView, state: Seq<char>, t: EventMappingView) -> Seq<
    char,
> {
    events_type_name(m) + "::"@ + pattern(t.event, m.event_data, "event_data"@) + " => { "@
        + code_block(m, state, t) + "self.state() }"@
}

/// The match arms for the events of one state, in the order of its transitions.
pub open spec fn event_arms(m: ParsedStateMachineView, entry: StateEventsView) -> Seq<Seq<char>> {
    Seq::new(entry.events.len(), |j: int| event_arm(m, entry.state, entry.events[j]))
}

/// The match arm for every event that the state `state` has no transition
/// for: the state is put back and the event is reported as invalid.
pub open spec fn invalid_event_arm(m: ParsedStateMachineView, state: Seq<char>) -> Seq<char> {
    " _ => { "@ + restore_state(m, state) + "Err("@ + error_type_name(m)
        + "::InvalidEvent) } }"@
}

/// The match arm for one state: a match on the event with an arm for each
/// transition, and a last arm for every other event.
pub open spec fn state_arm(m: ParsedStateMachineView, entry: StateEventsView) -> Seq<char> {
    states_type_name(m) + "::"@ + pattern(entry.state, m.state_data, "state_data"@)
        + " => match event { "@ + joined(event_arms(m, entry), ", "@) + invalid_event_arm(
        m,
        entry.state,
    )
}

/// The generated dispatch is total: the match on the state has an arm for
/// each state of the table, in its order; the match on the event in it has an
/// arm for each transition from that state, in their order, and ends with the
/// arm that reports every other event as invalid.
pub proof fn lemma_generated_dispatch_is_total(m: ParsedStateMachineView, i: int)
    requires
        0 <= i < m.states_events_mapping.len(),
    ensures
        state_arms(m).len() == m.states_events_mapping.len(),
        state_arms(m)[i] == state_arm(m, m.states_events_mapping[i]),
        event_arms(m, m.states_events_mapping[i]).len() == m.states_events_mapping[i].events.len(),
        forall|j: int|
            0 <= j < m.states_events_mapping[i].events.len() ==> event_arms(
                m,
                m.states_events_mapping[i],
            )[j] == event_arm(
                m,
                m.states_events_mapping[i].state,
                m.states_events_mapping[i].events[j],
            ),
        invalid_event_arm(m, m.states_events_mapping[i].state).is_suffix_of(state_arms(m)[i]),
{
    let entry = m.states_events_mapping[i];
    let last = invalid_event_arm(m, entry.state);
    let arm = state_arm(m, entry);
    assert(last =~= arm.subrange(arm.len() - last.len(), arm.len() as int));
}

/// The match arms for the states, in the order of the transition table.
pub open spec fn state_arms(m: ParsedStateMachineView) -> Seq<Seq<char>> {
    Seq::new(
        m.states_events_mapping.len(),
        |i: int| state_arm(m, m.states_events_mapping[i]),
    )
}

/// The lifetimes of a list as generic parameters, a comma after each.
pub open spec fn lifetimes_text(lifetimes: Seq<Seq<char>>) -> Seq<char> {
    concat_all(Seq::new(lifetimes.len(), |i: int| lifetimes[i] + ", "@))
}

/// The lifetimes that the data of a transition names: those of its state, of
/// its target state and of its event.
pub open spec fn transition_lifetimes(m: ParsedStateMachineView, t: EventMappingView) -> Seq<
    Seq<char>,
> {
    extended(
        extended(
            extended(Seq::empty(), m.state_data.lifetimes(t.in_state)),
            m.state_data.lifetimes(t.out_state),
        ),
        m.event_data.lifetimes(t.event),
    )
}

/// A parameter for the data of a state or an event, where it carries any:
/// `binding`, the type, with `&` before it where it is handed on by reference
/// and is no reference itself, then `end`.
pub open spec fn parameter(
    binding: Seq<char>,
    ty: Option<DataTypeView>,
    by_reference: bool,
    end: Seq<char>,
) -> Seq<char> {
    match ty {
        Some(t) => binding + (if by_reference && !t.is_reference {
            ": &"@
        } else {
            ": "@
        }) + t.tokens + end,
        None => Seq::empty(),
    }
}

/// The method that the context trait declares for the guard `g` of `t`.
pub open spec fn guard_declaration(
    m: ParsedStateMachineView,
    t: EventMappingView,
    g: AsyncIdentView,
) -> Seq<char> {
    "#[allow(missing_docs)] "@ + async_keyword(g.is_async) + "fn "@ + g.ident + " <"@
        + lifetimes_text(transition_lifetimes(m, t)) + "> (&mut self, "@ + temporary_context(m)
        + parameter("state_data"@, m.state_data.data_type(t.in_state), true, ", "@) + parameter(
        "event_data"@,
        m.event_data.data_type(t.event),
        true,
        Seq::empty(),
    ) + ") -> Result<(), "@ + guard_error_type(m) + ">;\n"@
}

/// What an action returns: the data of the target state, or nothing.
pub open spec fn return_type(m: ParsedStateMachineView, out_state: Seq<char>) -> Seq<char> {
    match m.state_data.data_type(out_state) {
        Some(t) => t.tokens,
        None => "()"@,
    }
}

/// The method that the context trait declares for the action `a` of `t`.
pub open spec fn action_declaration(
    m: ParsedStateMachineView,
    t: EventMappingView,
    a: AsyncIdentView,
) -> Seq<char> {
    "#[allow(missing_docs)] "@ + async_keyword(a.is_async) + "fn "@ + a.ident + " <"@
        + lifetimes_text(transition_lifetimes(m, t)) + "> (&mut self, "@ + temporary_context(m)
        + parameter("state_data"@, m.state_data.data_type(t.in_state), false, ", "@) + parameter(
        "event_data"@,
        m.event_data.data_type(t.event),
        false,
        Seq::empty(),
    ) + ") -> "@ + return_type(m, t.out_state) + ";\n"@
}

/// All the transitions, state by state in the order of the table.
pub open spec fn all_transitions(mapping: Seq<StateEventsView>) -> Seq<EventMappingView>
    decreases mapping.len(),
{
    if mapping.len() == 0 {
        Seq::empty()
    } else {
        all_transitions(mapping.drop_last()) + mapping.last().events
    }
}

/// The name of the guard of a transition, if it has one.
pub open spec fn guard_name(t: EventMappingView) -> Option<Seq<char>> {
    match t.guard {
        Some(g) => Some(g.ident),
        None => None,
    }
}

/// The name of the action of a transition, if it has one.
pub open spec fn action_name(t: EventMappingView) -> Option<Seq<char>> {
    match t.action {
        Some(a) => Some(a.ident),
        None => None,
    }
}

/// Whether the transition at `k` has a guard that no earlier transition names.
pub open spec fn declares_guard(all: Seq<EventMappingView>, k: int) -> bool {
    all[k].guard is Some && forall|j: int| 0 <= j < k ==> guard_name(#[trigger] all[j]) != guard_name(all[k])
}

/// Whether the transition at `k` has an action that no earlier transition names.
pub open spec fn declares_action(all: Seq<EventMappingView>, k: int) -> bool {
    all[k].action is Some && forall|j: int|
        0 <= j < k ==> action_name(#[trigger] all[j]) != action_name(all[k])
}

/// A guard is declared once: for every transition with a guard, one
/// transition declares the guard of that name, and it is the first that
/// names it.
pub proof fn lemma_guard_is_declared_once(all: Seq<EventMappingView>, j: int)
    requires
        0 <= j < all.len(),
        all[j].guard is Some,
    ensures
        exists|k: int|
            0 <= k <= j && #[trigger] declares_guard(all, k) && guard_name(all[k]) == guard_name(
                all[j],
            ),
        forall|k: int, l: int|
            0 <= k < all.len() && 0 <= l < all.len() && #[trigger] declares_guard(all, k)
                && #[trigger] declares_guard(all, l) && guard_name(all[k]) == guard_name(all[l])
                ==> k == l,
    decreases j,
{
    if declares_guard(all, j) {
    } else {
        let i = choose|i: int| 0 <= i < j && guard_name(#[trigger] all[i]) == guard_name(all[j]);
        lemma_guard_is_declared_once(all, i);
        let k = choose|k: int|
            0 <= k <= i && #[trigger] declares_guard(all, k) && guard_name(all[k]) == guard_name(
                all[i],
            );
        assert(0 <= k <= j && declares_guard(all, k) && guard_name(all[k]) == guard_name(all[j]));
    }
    assert forall|k: int, l: int|
        0 <= k < all.len() && 0 <= l < all.len() && #[trigger] declares_guard(all, k)
            && #[trigger] declares_guard(all, l) && guard_name(all[k]) == guard_name(
            all[l],
        ) implies k == l by {
        if k < l {
            assert(guard_name(all[k]) != guard_name(all[l]));
        }
        if l < k {
            assert(guard_name(all[l]) != guard_name(all[k]));
        }
    }
}

/// An action is declared once: for every transition with an action, one
/// transition declares the action of that name, and it is the first that
/// names it.
pub proof fn lemma_action_is_declared_once(all: Seq<EventMappingView>, j: int)
    requires
        0 <= j < all.len(),
        all[j].action is Some,
    ensures
        exists|k: int|
            0 <= k <= j && #[trigger] declares_action(all, k) && action_name(all[k])
                == action_name(all[j]),
        forall|k: int, l: int|
            0 <= k < all.len() && 0 <= l < all.len() && #[trigger] declares_action(all, k)
                && #[trigger] declares_action(all, l) && action_name(all[k]) == action_name(all[l])
                ==> k == l,
    decreases j,
{
    if declares_action(all, j) {
    } else {
        let i = choose|i: int| 0 <= i < j && action_name(#[trigger] all[i]) == action_name(all[j]);
        lemma_action_is_declared_once(all, i);
        let k = choose|k: int|
            0 <= k <= i && #[trigger] declares_action(all, k) && action_name(all[k])
                == action_name(all[i]);
        assert(0 <= k <= j && declares_action(all, k) && action_name(all[k]) == action_name(
            all[j],
        ));
    }
    assert forall|k: int, l: int|
        0 <= k < all.len() && 0 <= l < all.len() && #[trigger] declares_action(all, k)
            && #[trigger] declares_action(all, l) && action_name(all[k]) == action_name(
            all[l],
        ) implies k == l by {
        if k < l {
            assert(action_name(all[k]) != action_name(all[l]));
        }
        if l < k {
            assert(action_name(all[l]) != action_name(all[k]));
        }
    }
}

/// For each transition the declaration of its guard, where it is the first to
/// name that guard: a guard is declared once, as its first use shapes it.
pub open spec fn guard_declarations(m: ParsedStateMachineView) -> Seq<Seq<char>> {
    let all = all_transitions(m.states_events_mapping);
    Seq::new(
        all.len(),
        |k: int|
            if declares_guard(all, k) {
                guard_declaration(m, all[k], all[k].guard->0)
            } else {
                Seq::empty()
            },
    )
}

/// For each transition the declaration of its action, where it is the first
/// to name that action.
pub open spec fn action_declarations(m: ParsedStateMachineView) -> Seq<Seq<char>> {
    let all = all_transitions(m.states_events_mapping);
    Seq::new(
        all.len(),
        |k: int|
            if declares_action(all, k) {
                action_declaration(m, all[k], all[k].action->0)
            } else {
                Seq::empty()
            },
    )
}

/// Whether a transition has a guard or an action that is awaited.
pub open spec fn awaits(t: EventMappingView) -> bool {
    ||| (t.guard matches Some(g) && g.is_async)
    ||| (t.action matches Some(a) && a.is_async)
}

/// Whether the machine is asynchronous: whether any of its guards or actions
/// is awaited.
pub open spec fn is_async(m: ParsedStateMachineView) -> bool {
    let all = all_transitions(m.states_events_mapping);
    exists|k: int| 0 <= k < all.len() && awaits(#[trigger] all[k])
}

/// The view of each transition of a list.
pub open spec fn transition_views(v: Seq<&EventMapping>) -> Seq<EventMappingView> {
    Seq::new(v.len(), |k: int| v[k]@)
}

/// The error type of the dispatch as the machine's methods name it.
pub open spec fn error_type(m: ParsedStateMachineView) -> Seq<char> {
    if m.custom_guard_error {
        error_type_name(m) + "< <T as "@ + state_machine_context_type_name(m) + ">::GuardError>"@
    } else {
        error_type_name(m)
    }
}

/// The trait that the machine's user implements: the error type of the guards
/// where the machine has its own, a method for each guard and each action,
/// and the four logging methods, which do nothing unless overridden.
pub open spec fn context_trait(m: ParsedStateMachineView) -> Seq<char> {
    "/// This trait outlines the guards and actions that need to be implemented for the state\n/// machine.\n"@
        + (if is_async(m) {
        "#[smlang::async_trait]\n"@
    } else {
        Seq::empty()
    }) + "pub trait "@ + state_machine_context_type_name(m) + " {\n"@ + (if m.custom_guard_error {
        "/// The error type returned by guard functions.\ntype GuardError: core::fmt::Debug;\n"@
    } else {
        Seq::empty()
    }) + concat_all(guard_declarations(m)) + concat_all(action_declarations(m))
        + "/// Called at the beginning of a state machine's `process_event()`. No-op by\n/// default but can be overridden in implementations of a state machine's\n/// `StateMachineContext` trait.\nfn log_process_event(&self, current_state: & "@
        + states_type_name(m) + ", event: & "@ + events_type_name(m)
        + ") {}\n/// Called after executing a guard during `process_event()`. No-op by\n/// default but can be overridden in implementations of a state machine's\n/// `StateMachineContext` trait.\nfn log_guard(&self, guard: &'static str, result: &Result<(), "@
        + guard_error_type(m)
        + " >) {}\n/// Called after executing an action during `process_event()`. No-op by\n/// default but can be overridden in implementations of a state machine's\n/// `StateMachineContext` trait.\nfn log_action(&self, action: &'static str) {}\n/// Called when transitioning to a new state as a result of an event passed to\n/// `process_event()`. No-op by default but can be overridden in implementations\n/// of a state machine's `StateMachineContext` trait.\nfn log_state_change(&self, new_state: & "@
        + states_type_name(m) + ") {}\n}\n"@
}

/// A generated enum and its equality, which compares the variants and not
/// their data.
pub open spec fn enum_definition(
    doc: Seq<char>,
    derives: Seq<Seq<char>>,
    name: Seq<char>,
    lifetimes: Seq<Seq<char>>,
    variants: Seq<Seq<char>>,
) -> Seq<char> {
    doc + "#[allow(missing_docs)]\n#[derive("@ + joined(derives, ", "@) + ")]\npub enum "@ + name
        + " <"@ + lifetimes_text(lifetimes) + "> { "@ + joined(variants, ", "@)
        + " }\n/// Equality by variant only: the data is not compared.\nimpl<"@ + lifetimes_text(
        lifetimes,
    ) + "> PartialEq for "@ + name + " <"@ + lifetimes_text(lifetimes)
        + "> {\nfn eq(&self, other: &Self) -> bool {\nuse core::mem::discriminant;\ndiscriminant(self) == discriminant(other)\n}\n}\n"@
}

/// The enum of the states.
pub open spec fn states_enum(m: ParsedStateMachineView) -> Seq<char> {
    enum_definition(
        "/// List of auto-generated states.\n"@,
        m.derive_states,
        states_type_name(m),
        m.state_data.all_lifetimes,
        variants(m.states, m.state_data),
    )
}

/// The enum of the events.
pub open spec fn events_enum(m: ParsedStateMachineView) -> Seq<char> {
    enum_definition(
        "/// List of auto-generated events.\n"@,
        m.derive_events,
        events_type_name(m),
        m.event_data.all_lifetimes,
        variants(m.events, m.event_data),
    )
}

/// The enum of the errors of a dispatch.
pub open spec fn error_enum(m: ParsedStateMachineView) -> Seq<char> {
    "/// List of possible errors\n#[derive(Debug)]\npub enum "@ + error_type_name(m)
        + " <T = ()> {\n/// When an event is processed which should not come in the current state.\nInvalidEvent,\n/// When an event is processed whose guard did not return `true`.\nGuardFailed(T),\n/// When the state has an unexpected value.\n///\n/// This can happen if there is a bug in the generated code,\n/// or if a guard or action gets panicked.\nPoisoned,\n}\n"@
}

/// The struct of the machine: the current state and the context.
pub open spec fn machine_struct(m: ParsedStateMachineView) -> Seq<char> {
    "/// State machine structure definition.\npub struct "@ + state_machine_type_name(m) + "<"@
        + lifetimes_text(m.state_data.all_lifetimes) + " T: "@ + state_machine_context_type_name(
        m,
    ) + "> {\nstate: Option<"@ + states_type_name(m) + " <"@ + lifetimes_text(
        m.state_data.all_lifetimes,
    ) + "> >,\ncontext: T\n}\n"@
}

/// The constructors: one that starts in the starting state, and takes its
/// data where it carries any, and one that starts in a state given.
pub open spec fn constructors(m: ParsedStateMachineView) -> Seq<char> {
    "/// Creates a new state machine with the specified starting state.\n#[inline(always)]\npub const fn new(context: T"@
        + parameter(", state_data"@, m.state_data.data_type(m.starting_state), false, Seq::empty())
        + ") -> Self {\n"@ + state_machine_type_name(m) + " { state: Some("@ + states_type_name(m)
        + "::"@ + pattern(m.starting_state, m.state_data, "state_data"@)
        + "), context }\n}\n/// Creates a new state machine with an initial state.\n#[inline(always)]\npub const fn new_with_state(context: T, initial_state: "@
        + states_type_name(m) + " <"@ + lifetimes_text(m.state_data.all_lifetimes)
        + ">) -> Self {\n"@ + state_machine_type_name(m)
        + " { state: Some(initial_state), context }\n}\n"@
}

/// The methods that read the current state and the context.
pub open spec fn accessors(m: ParsedStateMachineView) -> Seq<char> {
    "/// Returns the current state.\n#[inline(always)]\npub fn state(&self) -> Result<&"@
        + states_type_name(m) + " <"@ + lifetimes_text(m.state_data.all_lifetimes) + ">, "@
        + error_type(m) + "> {\nself.state.as_ref().ok_or_else(|| "@ + error_type_name(m)
        + " ::Poisoned)\n}\n/// Returns the current context.\n#[inline(always)]\npub fn context(&self) -> &T {\n&self.context\n}\n/// Returns the current context as a mutable reference.\n#[inline(always)]\npub fn context_mut(&mut self) -> &mut T {\n&mut self.context\n}\n"@
}

/// The lifetimes that the events name and the states do not: the dispatch
/// declares them itself.
pub open spec fn event_unique_lifetimes(m: ParsedStateMachineView) -> Seq<Seq<char>> {
    without(m.event_data.all_lifetimes, m.state_data.all_lifetimes)
}

/// The dispatch: it logs the event, takes the current state, and matches
/// the state and then the event. A state without an arm is put back and the
/// event is reported as invalid.
pub open spec fn process_event(m: ParsedStateMachineView) -> Seq<char> {
    "/// Process an event.\n///\n/// It will return `Ok(&NextState)` if the transition was successful, or an error\n/// if there was an error in the transition.\npub "@
        + async_keyword(is_async(m)) + "fn process_event <"@ + lifetimes_text(
        event_unique_lifetimes(m),
    ) + "> (&mut self, "@ + temporary_context(m) + "mut event: "@ + events_type_name(m) + " <"@
        + lifetimes_text(m.event_data.all_lifetimes) + ">) -> Result<&"@ + states_type_name(m)
        + " <"@ + lifetimes_text(m.state_data.all_lifetimes) + ">, "@ + error_type(m)
        + "> {\nself.context.log_process_event(self.state()?, &event);\nmatch self.state.take().ok_or_else(|| "@
        + error_type_name(m) + " ::Poisoned)? {\n"@ + joined(state_arms(m), ",\n"@)
        + "\nstate => { self.state = Some(state); Err("@ + error_type_name(m)
        + " ::InvalidEvent) }\n}\n}\n"@
}

/// The methods of the machine.
pub open spec fn machine_impl(m: ParsedStateMachineView) -> Seq<char> {
    "impl<"@ + lifetimes_text(m.state_data.all_lifetimes) + " T: "@
        + state_machine_context_type_name(m) + "> "@ + state_machine_type_name(m) + "<"@
        + lifetimes_text(m.state_data.all_lifetimes) + " T> {\n"@ + constructors(m) + accessors(m)
        + process_event(m) + "}\n"@
}

/// The source of the code that is generated for a definition: the context
/// trait, the enums of the states, the events and the errors, and the
/// machine with its methods.
pub open spec fn source_text(m: ParsedStateMachineView) -> Seq<char> {
    context_trait(m) + states_enum(m) + events_enum(m) + error_enum(m) + machine_struct(m)
        + machine_impl(m)
}

fn append_if(res: &mut String, condition: bool, text: &str)
    ensures
        final(res)@ == old(res)@ + (if condition {
            text@
        } else {
            Seq::empty()
        }),
{
    if condition {
        res.append(text);
    } else {
        assert(res@ + Seq::<char>::empty() =~= res@);
    }
}

fn make_generated_name(sm: &ParsedStateMachine, suffix: &str) -> (res: String)
    ensures
        res@ == generated_name(sm@, suffix@),
{
    let mut res = match &sm.name {
        Some(n) => n.clone(),
        None => String::new(),
    };
    res.append(suffix);
    res
}

fn make_with_payload(name: &str, present: bool, inner: &str) -> (res: String)
    ensures
        res@ == with_payload(name@, present, inner@),
{
    let mut res = String::from_str(name);
    if present {
        res.append("(");
        res.append(inner);
        res.append(")");
    }
    res
}

fn make_variants(names: &Vec<String>, data: &DataDefinitions) -> (res: Vec<String>)
    ensures
        texts(res@) == variants(texts(names@), data@),
{
    let sorted = sort_names(names);
    let mut res: Vec<String> = Vec::new();
    let mut i: usize = 0;
    while i < sorted.len()
        invariant
            i <= sorted.len(),
            texts(sorted@) == sorted_texts(texts(names@)),
            res@.len() == i,
            forall|k: int| 0 <= k < i ==> (#[trigger] res@[k])@ == variants(texts(names@), data@)[k],
        decreases sorted.len() - i,
    {
        let name: &String = &sorted[i];
        assert(name@ == texts(sorted@)[i as int]);
        let piece = match data.get(name.as_str()) {
            Some(e) => make_with_payload(name.as_str(), true, e.data_type.tokens.as_str()),
            None => name.clone(),
        };
        res.push(piece);
        i += 1;
    }
    assert(texts(res@) =~= variants(texts(names@), data@));
    res
}

fn make_pattern(name: &str, data: &DataDefinitions, binding: &str) -> (res: String)
    ensures
        res@ == pattern(name@, data@, binding@),
{
    make_with_payload(name, data.get(name).is_some(), binding)
}

fn make_value_argument(name: &str, data: &DataDefinitions, binding: &str) -> (res: String)
    ensures
        res@ == value_argument(name@, data@, binding@),
{
    if data.get(name).is_some() {
        String::from_str(binding)
    } else {
        String::new()
    }
}

fn make_reference_argument(name: &str, data: &DataDefinitions, binding: &str) -> (res: String)
    ensures
        res@ == reference_argument(name@, data@, binding@),
{
    match data.get(name) {
        Some(e) => {
            if e.data_type.is_reference {
                String::from_str(binding)
            } else {
                let mut res = String::from_str("&");
                res.append(binding);
                res
            }
        },
        None => String::new(),
    }
}

fn make_argument_pair(first: String, second: &str) -> (res: String)
    ensures
        res@ == argument_pair(first@, second@),
{
    let mut res = first;
    if res.unicode_len() != 0 && second.unicode_len() != 0 {
        res.append(", ");
    }
    res.append(second);
    res
}

fn make_guard_action_parameters(sm: &ParsedStateMachine, state: &str, event: &str) -> (res: String)
    ensures
        res@ == guard_action_parameters(sm@, state@, event@),
{
    make_argument_pair(
        make_value_argument(state, &sm.state_data, "state_data"),
        make_value_argument(event, &sm.event_data, "event_data").as_str(),
    )
}

fn make_guard_action_ref_parameters(sm: &ParsedStateMachine, state: &str, event: &str) -> (res:
    String)
    ensures
        res@ == guard_action_ref_parameters(sm@, state@, event@),
{
    make_argument_pair(
        make_reference_argument(state, &sm.state_data, "state_data"),
        make_reference_argument(event, &sm.event_data, "event_data").as_str(),
    )
}

fn make_temporary_context(sm: &ParsedStateMachine) -> (res: String)
    ensures
        res@ == temporary_context(sm@),
{
    match &sm.temporary_context_type {
        Some(t) => {
            let mut res = String::from_str("temporary_context: ");
            res.append(t.tokens.as_str());
            res.append(", ");
            res
        },
        None => String::new(),
    }
}

fn make_temporary_context_call(sm: &ParsedStateMachine) -> (res: String)
    ensures
        res@ == temporary_context_call(sm@),
{
    match &sm.temporary_context_type {
        Some(_) => String::from_str("temporary_context, "),
        None => String::new(),
    }
}

fn make_guard_error_type(sm: &ParsedStateMachine) -> (res: String)
    ensures
        res@ == guard_error_type(sm@),
{
    if sm.custom_guard_error {
        String::from_str("Self::GuardError")
    } else {
        String::from_str("()")
    }
}

fn make_error_type(sm: &ParsedStateMachine) -> (res: String)
    ensures
        res@ == error_type(sm@),
{
    let mut res = make_generated_name(sm, "Error");
    if sm.custom_guard_error {
        res.append("< <T as ");
        res.append(make_generated_name(sm, "StateMachineContext").as_str());
        res.append(">::GuardError>");
    }
    res
}

fn make_await_suffix(is_async: bool) -> (res: String)
    ensures
        res@ == await_suffix(is_async),
{
    if is_async {
        String::from_str(".await")
    } else {
        String::new()
    }
}

fn make_async_keyword(is_async: bool) -> (res: String)
    ensures
        res@ == async_keyword(is_async),
{
    if is_async {
        String::from_str("async ")
    } else {
        String::new()
    }
}

fn make_restore_state(sm: &ParsedStateMachine, state: &str) -> (res: String)
    ensures
        res@ == restore_state(sm@, state@),
{
    let mut res = String::from_str("self.state = Some(");
    res.append(make_generated_name(sm, "States").as_str());
    res.append("::");
    res.append(make_pattern(state, &sm.state_data, "state_data").as_str());
    res.append("); ");
    res
}

fn make_guard_block(sm: &ParsedStateMachine, state: &str, event: &str, g: &AsyncIdent) -> (res:
    String)
    ensures
        res@ == guard_block(sm@, state@, event@, g@),
{
    let mut res = String::from_str("let guard_result = self.context.");
    res.append(g.ident.as_str());
    res.append("(");
    res.append(make_temporary_context_call(sm).as_str());
    res.append(make_guard_action_ref_parameters(sm, state, event).as_str());
    res.append(")");
    res.append(make_await_suffix(g.is_async).as_str());
    res.append("; self.context.log_guard(stringify!(");
    res.append(g.ident.as_str());
    res.append("), &guard_result); if let Err(e) = guard_result { ");
    res.append(make_restore_state(sm, state).as_str());
    res.append("return Err(");
    res.append(make_generated_name(sm, "Error").as_str());
    res.append("::GuardFailed(e)); } ");
    res
}

fn make_action_block(sm: &ParsedStateMachine, state: &str, event: &str, a: &AsyncIdent) -> (res:
    String)
    ensures
        res@ == action_block(sm@, state@, event@, a@),
{
    let mut res = String::from_str("let _data = self.context.");
    res.append(a.ident.as_str());
    res.append("(");
    res.append(make_temporary_context_call(sm).as_str());
    res.append(make_guard_action_parameters(sm, state, event).as_str());
    res.append(")");
    res.append(make_await_suffix(a.is_async).as_str());
    res.append("; self.context.log_action(stringify!(");
    res.append(a.ident.as_str());
    res.append(")); ");
    res
}

fn make_state_change_block(sm: &ParsedStateMachine, out_state: &str) -> (res: String)
    ensures
        res@ == state_change_block(sm@, out_state@),
{
    let mut res = String::from_str("let out_state = ");
    res.append(make_generated_name(sm, "States").as_str());
    res.append("::");
    res.append(make_pattern(out_state, &sm.state_data, "_data").as_str());
    res.append("; self.context.log_state_change(&out_state); self.state = Some(out_state); ");
    res
}

fn make_code_block(sm: &ParsedStateMachine, state: &str, t: &EventMapping) -> (res: String)
    ensures
        res@ == code_block(sm@, state@, t@),
{
    let mut res = match &t.guard {
        Some(g) => make_guard_block(sm, state, t.event.as_str(), g),
        None => String::new(),
    };
    let action = match &t.action {
        Some(a) => make_action_block(sm, state, t.event.as_str(), a),
        None => String::new(),
    };
    res.append(action.as_str());
    res.append(make_state_change_block(sm, t.out_state.as_str()).as_str());
    res
}

fn make_event_arm(sm: &ParsedStateMachine, state: &str, t: &EventMapping) -> (res: String)
    ensures
        res@ == event_arm(sm@, state@, t@),
{
    let mut res = make_generated_name(sm, "Events");
    res.append("::");
    res.append(make_pattern(t.event.as_str(), &sm.event_data, "event_data").as_str());
    res.append(" => { ");
    res.append(make_code_block(sm, state, t).as_str());
    res.append("self.state() }");
    res
}

fn make_event_arms(sm: &ParsedStateMachine, entry: &StateEvents) -> (res: Vec<String>)
    ensures
        texts(res@) == event_arms(sm@, entry@),
{
    let mut res: Vec<String> = Vec::new();
    let mut j: usize = 0;
    while j < entry.events.len()
        invariant
            j <= entry.events.len(),
            res@.len() == j,
            forall|k: int| 0 <= k < j ==> (#[trigger] res@[k])@ == event_arms(sm@, entry@)[k],
        decreases entry.events.len() - j,
    {
        res.push(make_event_arm(sm, entry.state.as_str(), &entry.events[j]));
        j += 1;
    }
    assert(texts(res@) =~= event_arms(sm@, entry@));
    res
}

fn make_invalid_event_arm(sm: &ParsedStateMachine, state: &str) -> (res: String)
    ensures
        res@ == invalid_event_arm(sm@, state@),
{
    let mut res = String::from_str(" _ => { ");
    res.append(make_restore_state(sm, state).as_str());
    res.append("Err(");
    res.append(make_generated_name(sm, "Error").as_str());
    res.append("::InvalidEvent) } }");
    res
}

fn make_state_arm(sm: &ParsedStateMachine, entry: &StateEvents) -> (res: String)
    ensures
        res@ == state_arm(sm@, entry@),
{
    let mut res = make_generated_name(sm, "States");
    res.append("::");
    res.append(make_pattern(entry.state.as_str(), &sm.state_data, "state_data").as_str());
    res.append(" => match event { ");
    res.append(join_strings(&make_event_arms(sm, entry), ", ").as_str());
    res.append(make_invalid_event_arm(sm, entry.state.as_str()).as_str());
    res
}

fn make_state_arms(sm: &ParsedStateMachine) -> (res: Vec<String>)
    ensures
        texts(res@) == state_arms(sm@),
{
    let mut res: Vec<String> = Vec::new();
    let mut i: usize = 0;
    while i < sm.states_events_mapping.len()
        invariant
            i <= sm.states_events_mapping.len(),
            res@.len() == i,
            forall|k: int| 0 <= k < i ==> (#[trigger] res@[k])@ == state_arms(sm@)[k],
        decreases sm.states_events_mapping.len() - i,
    {
        res.push(make_state_arm(sm, &sm.states_events_mapping[i]));
        i += 1;
    }
    assert(texts(res@) =~= state_arms(sm@));
    res
}

fn make_lifetimes(lifetimes: &Lifetimes) -> (res: String)
    ensures
        res@ == lifetimes_text(lifetimes@),
{
    let mut pieces: Vec<String> = Vec::new();
    let mut i: usize = 0;
    while i < lifetimes.lifetimes.len()
        invariant
            i <= lifetimes.lifetimes.len(),
            pieces@.len() == i,
            forall|k: int| 0 <= k < i ==> (#[trigger] pieces@[k])@ == lifetimes@[k] + ", "@,
        decreases lifetimes.lifetimes.len() - i,
    {
        let mut piece = lifetimes.lifetimes[i].clone();
        piece.append(", ");
        pieces.push(piece);
        i += 1;
    }
    assert(texts(pieces@) =~= Seq::new(lifetimes@.len(), |i: int| lifetimes@[i] + ", "@));
    concat_strings(&pieces)
}

fn extend_with(all: &mut Lifetimes, data: &DataDefinitions, name: &str)
    ensures
        final(all)@ == extended(old(all)@, data@.lifetimes(name@)),
{
    match data.get(name) {
        Some(e) => {
            all.extend(&e.lifetimes);
        },
        None => {},
    }
}

fn make_transition_lifetimes(sm: &ParsedStateMachine, t: &EventMapping) -> (res: Lifetimes)
    ensures
        res@ == transition_lifetimes(sm@, t@),
{
    let mut all = Lifetimes::new();
    extend_with(&mut all, &sm.state_data, t.in_state.as_str());
    extend_with(&mut all, &sm.state_data, t.out_state.as_str());
    extend_with(&mut all, &sm.event_data, t.event.as_str());
    all
}

fn make_parameter(binding: &str, data: &DataDefinitions, name: &str, by_reference: bool, end: &str) -> (res:
    String)
    ensures
        res@ == parameter(binding@, data@.data_type(name@), by_reference, end@),
{
    match data.get(name) {
        Some(e) => {
            let mut res = String::from_str(binding);
            if by_reference && !e.data_type.is_reference {
                res.append(": &");
            } else {
                res.append(": ");
            }
            res.append(e.data_type.tokens.as_str());
            res.append(end);
            res
        },
        None => String::new(),
    }
}

fn make_guard_declaration(sm: &ParsedStateMachine, t: &EventMapping, g: &AsyncIdent) -> (res: String)
    ensures
        res@ == guard_declaration(sm@, t@, g@),
{
    let mut res = String::from_str("#[allow(missing_docs)] ");
    res.append(make_async_keyword(g.is_async).as_str());
    res.append("fn ");
    res.append(g.ident.as_str());
    res.append(" <");
    res.append(make_lifetimes(&make_transition_lifetimes(sm, t)).as_str());
    res.append("> (&mut self, ");
    res.append(make_temporary_context(sm).as_str());
    res.append(make_parameter("state_data", &sm.state_data, t.in_state.as_str(), true, ", ").as_str());
    let event_data = make_parameter("event_data", &sm.event_data, t.event.as_str(), true, "");
    proof {
        reveal_strlit("");
        assert(""@ =~= Seq::<char>::empty());
    }
    res.append(event_data.as_str());
    res.append(") -> Result<(), ");
    res.append(make_guard_error_type(sm).as_str());
    res.append(">;\n");
    res
}

fn make_return_type(sm: &ParsedStateMachine, out_state: &str) -> (res: String)
    ensures
        res@ == return_type(sm@, out_state@),
{
    match sm.state_data.get(out_state) {
        Some(e) => e.data_type.tokens.clone(),
        None => String::from_str("()"),
    }
}

fn make_action_declaration(sm: &ParsedStateMachine, t: &EventMapping, a: &AsyncIdent) -> (res:
    String)
    ensures
        res@ == action_declaration(sm@, t@, a@),
{
    let mut res = String::from_str("#[allow(missing_docs)] ");
    res.append(make_async_keyword(a.is_async).as_str());
    res.append("fn ");
    res.append(a.ident.as_str());
    res.append(" <");
    res.append(make_lifetimes(&make_transition_lifetimes(sm, t)).as_str());
    res.append("> (&mut self, ");
    res.append(make_temporary_context(sm).as_str());
    res.append(make_parameter("state_data", &sm.state_data, t.in_state.as_str(), false, ", ").as_str());
    let event_data = make_parameter("event_data", &sm.event_data, t.event.as_str(), false, "");
    proof {
        reveal_strlit("");
        assert(""@ =~= Seq::<char>::empty());
    }
    res.append(event_data.as_str());
    res.append(") -> ");
    res.append(make_return_type(sm, t.out_state.as_str()).as_str());
    res.append(";\n");
    res
}

fn collect_transitions(sm: &ParsedStateMachine) -> (res: Vec<&EventMapping>)
    ensures
        transition_views(res@) == all_transitions(sm@.states_events_mapping),
{
    let mut res: Vec<&EventMapping> = Vec::new();
    let ghost mapping = sm@.states_events_mapping;
    let mut i: usize = 0;
    proof {
        assert(mapping.take(0) =~= Seq::<StateEventsView>::empty());
        assert(transition_views(res@) =~= Seq::<EventMappingView>::empty());
    }
    while i < sm.states_events_mapping.len()
        invariant
            i <= sm.states_events_mapping.len(),
            mapping == sm@.states_events_mapping,
            transition_views(res@) == all_transitions(mapping.take(i as int)),
        decreases sm.states_events_mapping.len() - i,
    {
        let entry: &StateEvents = &sm.states_events_mapping[i];
        let mut j: usize = 0;
        assert(entry@.events.take(0) =~= Seq::<EventMappingView>::empty());
        assert(transition_views(res@) =~= all_transitions(mapping.take(i as int)) + entry@.events.take(0));
        while j < entry.events.len()
            invariant
                j <= entry.events.len(),
                transition_views(res@) == all_transitions(mapping.take(i as int))
                    + entry@.events.take(j as int),
            decreases entry.events.len() - j,
        {
            let ghost before = transition_views(res@);
            res.push(&entry.events[j]);
            proof {
                assert(transition_views(res@) =~= before.push(entry.events@[j as int]@));
                assert(entry@.events.take(j + 1) =~= entry@.events.take(j as int).push(
                    entry.events@[j as int]@,
                ));
                assert(transition_views(res@) =~= all_transitions(mapping.take(i as int))
                    + entry@.events.take(j + 1));
            }
            j += 1;
        }
        proof {
            assert(entry@.events.take(j as int) =~= entry@.events);
            let next = mapping.take(i + 1);
            assert(next.drop_last() =~= mapping.take(i as int));
            assert(next.last() == entry@);
        }
        i += 1;
    }
    assert(mapping.take(i as int) =~= mapping);
    res
}

fn make_guard_declarations(sm: &ParsedStateMachine, all: &Vec<&EventMapping>) -> (res: Vec<String>)
    requires
        transition_views(all@) == all_transitions(sm@.states_events_mapping),
    ensures
        texts(res@) == guard_declarations(sm@),
{
    let mut res: Vec<String> = Vec::new();
    let mut guard_set: Vec<String> = Vec::new();
    let ghost views = transition_views(all@);
    let mut k: usize = 0;
    while k < all.len()
        invariant
            k <= all.len(),
            views == transition_views(all@),
            views == all_transitions(sm@.states_events_mapping),
            res@.len() == k,
            forall|i: int| 0 <= i < k ==> (#[trigger] res@[i])@ == guard_declarations(sm@)[i],
            forall|name: Seq<char>|
                texts(guard_set@).contains(name) <==> exists|j: int|
                    0 <= j < k && guard_name(#[trigger] views[j]) == Some(name),
        decreases all.len() - k,
    {
        let t: &EventMapping = all[k];
        assert(t@ == views[k as int]);
        let ghost seen = texts(guard_set@);
        let piece = match &t.guard {
            Some(g) => {
                let found = find_name(&guard_set, g.ident.as_str());
                proof {
                    seen.index_of_first_ensures(g.ident@);
                }
                if found.is_none() {
                    guard_set.push(g.ident.clone());
                    proof {
                        assert(texts(guard_set@) =~= seen.push(g.ident@));
                        crate::model::lemma_inserted(seen, g.ident@);
                        assert(declares_guard(views, k as int));
                    }
                    make_guard_declaration(sm, t, g)
                } else {
                    proof {
                        let j = choose|j: int| 0 <= j < k && guard_name(#[trigger] views[j]) == Some(g.ident@);
                        assert(!declares_guard(views, k as int));
                    }
                    String::new()
                }
            },
            None => String::new(),
        };
        res.push(piece);
        proof {
            assert forall|name: Seq<char>|
                texts(guard_set@).contains(name) <==> exists|j: int|
                    0 <= j < k + 1 && guard_name(#[trigger] views[j]) == Some(name) by {
                if texts(guard_set@).contains(name) {
                    if seen.contains(name) {
                        let j = choose|j: int| 0 <= j < k && guard_name(#[trigger] views[j]) == Some(name);
                        assert(0 <= j < k + 1 && guard_name(views[j]) == Some(name));
                    } else {
                        assert(guard_name(views[k as int]) == Some(name));
                    }
                }
                if exists|j: int| 0 <= j < k + 1 && guard_name(#[trigger] views[j]) == Some(name) {
                    let j = choose|j: int| 0 <= j < k + 1 && guard_name(#[trigger] views[j]) == Some(name);
                    if j < k {
                        assert(seen.contains(name));
                    }
                }
            }
        }
        k += 1;
    }
    assert(texts(res@) =~= guard_declarations(sm@));
    res
}

fn make_action_declarations(sm: &ParsedStateMachine, all: &Vec<&EventMapping>) -> (res: Vec<String>)
    requires
        transition_views(all@) == all_transitions(sm@.states_events_mapping),
    ensures
        texts(res@) == action_declarations(sm@),
{
    let mut res: Vec<String> = Vec::new();
    let mut action_set: Vec<String> = Vec::new();
    let ghost views = transition_views(all@);
    let mut k: usize = 0;
    while k < all.len()
        invariant
            k <= all.len(),
            views == transition_views(all@),
            views == all_transitions(sm@.states_events_mapping),
            res@.len() == k,
            forall|i: int| 0 <= i < k ==> (#[trigger] res@[i])@ == action_declarations(sm@)[i],
            forall|name: Seq<char>|
                texts(action_set@).contains(name) <==> exists|j: int|
                    0 <= j < k && action_name(#[trigger] views[j]) == Some(name),
        decreases all.len() - k,
    {
        let t: &EventMapping = all[k];
        assert(t@ == views[k as int]);
        let ghost seen = texts(action_set@);
        let piece = match &t.action {
            Some(g) => {
                let found = find_name(&action_set, g.ident.as_str());
                proof {
                    seen.index_of_first_ensures(g.ident@);
                }
                if found.is_none() {
                    action_set.push(g.ident.clone());
                    proof {
                        assert(texts(action_set@) =~= seen.push(g.ident@));
                        crate::model::lemma_inserted(seen, g.ident@);
                        assert(declares_action(views, k as int));
                    }
                    make_action_declaration(sm, t, g)
                } else {
                    proof {
                        let j = choose|j: int| 0 <= j < k && action_name(#[trigger] views[j]) == Some(g.ident@);
                        assert(!declares_action(views, k as int));
                    }
                    String::new()
                }
            },
            None => String::new(),
        };
        res.push(piece);
        proof {
            assert forall|name: Seq<char>|
                texts(action_set@).contains(name) <==> exists|j: int|
                    0 <= j < k + 1 && action_name(#[trigger] views[j]) == Some(name) by {
                if texts(action_set@).contains(name) {
                    if seen.contains(name) {
                        let j = choose|j: int| 0 <= j < k && action_name(#[trigger] views[j]) == Some(name);
                        assert(0 <= j < k + 1 && action_name(views[j]) == Some(name));
                    } else {
                        assert(action_name(views[k as int]) == Some(name));
                    }
                }
                if exists|j: int| 0 <= j < k + 1 && action_name(#[trigger] views[j]) == Some(name) {
                    let j = choose|j: int| 0 <= j < k + 1 && action_name(#[trigger] views[j]) == Some(name);
                    if j < k {
                        assert(seen.contains(name));
                    }
                }
            }
        }
        k += 1;
    }
    assert(texts(res@) =~= action_declarations(sm@));
    res
}

fn is_machine_async(all: &Vec<&EventMapping>) -> (res: bool)
    ensures
        res == exists|k: int|
            0 <= k < all@.len() && awaits(#[trigger] transition_views(all@)[k]),
{
    let ghost views = transition_views(all@);
    let mut k: usize = 0;
    while k < all.len()
        invariant
            k <= all.len(),
            views == transition_views(all@),
            forall|j: int| 0 <= j < k ==> !awaits(#[trigger] views[j]),
        decreases all.len() - k,
    {
        let t: &EventMapping = all[k];
        assert(t@ == views[k as int]);
        let guard_async = match &t.guard {
            Some(g) => g.is_async,
            None => false,
        };
        let action_async = match &t.action {
            Some(a) => a.is_async,
            None => false,
        };
        if guard_async || action_async {
            assert(awaits(views[k as int]));
            return true;
        }
        k += 1;
    }
    false
}

impl ParsedStateMachine {
    /// Whether the machine is asynchronous: whether any of its guards or
    /// actions is awaited.
    pub fn is_async(&self) -> (res: bool)
        ensures
            res == is_async(self@),
    {
        is_machine_async(&collect_transitions(self))
    }
}

fn make_context_trait(sm: &ParsedStateMachine, all: &Vec<&EventMapping>) -> (res: String)
    requires
        transition_views(all@) == all_transitions(sm@.states_events_mapping),
    ensures
        res@ == context_trait(sm@),
{
    let mut res = String::from_str(
        "/// This trait outlines the guards and actions that need to be implemented for the state\n/// machine.\n",
    );
    append_if(&mut res, is_machine_async(all), "#[smlang::async_trait]\n");
    res.append("pub trait ");
    res.append(make_generated_name(sm, "StateMachineContext").as_str());
    res.append(" {\n");
    append_if(
        &mut res,
        sm.custom_guard_error,
        "/// The error type returned by guard functions.\ntype GuardError: core::fmt::Debug;\n",
    );
    res.append(concat_strings(&make_guard_declarations(sm, all)).as_str());
    res.append(concat_strings(&make_action_declarations(sm, all)).as_str());
    res.append(
        "/// Called at the beginning of a state machine's `process_event()`. No-op by\n/// default but can be overridden in implementations of a state machine's\n/// `StateMachineContext` trait.\nfn log_process_event(&self, current_state: & ",
    );
    res.append(make_generated_name(sm, "States").as_str());
    res.append(", event: & ");
    res.append(make_generated_name(sm, "Events").as_str());
    res.append(
        ") {}\n/// Called after executing a guard during `process_event()`. No-op by\n/// default but can be overridden in implementations of a state machine's\n/// `StateMachineContext` trait.\nfn log_guard(&self, guard: &'static str, result: &Result<(), ",
    );
    res.append(make_guard_error_type(sm).as_str());
    res.append(
        " >) {}\n/// Called after executing an action during `process_event()`. No-op by\n/// default but can be overridden in implementations of a state machine's\n/// `StateMachineContext` trait.\nfn log_action(&self, action: &'static str) {}\n/// Called when transitioning to a new state as a result of an event passed to\n/// `process_event()`. No-op by default but can be overridden in implementations\n/// of a state machine's `StateMachineContext` trait.\nfn log_state_change(&self, new_state: & ",
    );
    res.append(make_generated_name(sm, "States").as_str());
    res.append(") {}\n}\n");
    res
}

fn make_enum_definition(
    doc: &str,
    derives: &Vec<String>,
    name: &str,
    lifetimes: &Lifetimes,
    variants: &Vec<String>,
) -> (res: String)
    ensures
        res@ == enum_definition(doc@, texts(derives@), name@, lifetimes@, texts(variants@)),
{
    let mut res = String::from_str(doc);
    res.append("#[allow(missing_docs)]\n#[derive(");
    res.append(join_strings(derives, ", ").as_str());
    res.append(")]\npub enum ");
    res.append(name);
    res.append(" <");
    res.append(make_lifetimes(lifetimes).as_str());
    res.append("> { ");
    res.append(join_strings(variants, ", ").as_str());
    res.append(" }\n/// Equality by variant only: the data is not compared.\nimpl<");
    res.append(make_lifetimes(lifetimes).as_str());
    res.append("> PartialEq for ");
    res.append(name);
    res.append(" <");
    res.append(make_lifetimes(lifetimes).as_str());
    res.append(
        "> {\nfn eq(&self, other: &Self) -> bool {\nuse core::mem::discriminant;\ndiscriminant(self) == discriminant(other)\n}\n}\n",
    );
    res
}

fn make_error_enum(sm: &ParsedStateMachine) -> (res: String)
    ensures
        res@ == error_enum(sm@),
{
    let mut res = String::from_str("/// List of possible errors\n#[derive(Debug)]\npub enum ");
    res.append(make_generated_name(sm, "Error").as_str());
    res.append(
        " <T = ()> {\n/// When an event is processed which should not come in the current state.\nInvalidEvent,\n/// When an event is processed whose guard did not return `true`.\nGuardFailed(T),\n/// When the state has an unexpected value.\n///\n/// This can happen if there is a bug in the generated code,\n/// or if a guard or action gets panicked.\nPoisoned,\n}\n",
    );
    res
}

fn make_machine_struct(sm: &ParsedStateMachine) -> (res: String)
    ensures
        res@ == machine_struct(sm@),
{
    let mut res = String::from_str("/// State machine structure definition.\npub struct ");
    res.append(make_generated_name(sm, "StateMachine").as_str());
    res.append("<");
    res.append(make_lifetimes(&sm.state_data.all_lifetimes).as_str());
    res.append(" T: ");
    res.append(make_generated_name(sm, "StateMachineContext").as_str());
    res.append("> {\nstate: Option<");
    res.append(make_generated_name(sm, "States").as_str());
    res.append(" <");
    res.append(make_lifetimes(&sm.state_data.all_lifetimes).as_str());
    res.append("> >,\ncontext: T\n}\n");
    res
}

fn make_constructors(sm: &ParsedStateMachine) -> (res: String)
    ensures
        res@ == constructors(sm@),
{
    let mut res = String::from_str(
        "/// Creates a new state machine with the specified starting state.\n#[inline(always)]\npub const fn new(context: T",
    );
    let state_data = make_parameter(
        ", state_data",
        &sm.state_data,
        sm.starting_state.as_str(),
        false,
        "",
    );
    proof {
        reveal_strlit("");
        assert(""@ =~= Seq::<char>::empty());
    }
    res.append(state_data.as_str());
    res.append(") -> Self {\n");
    res.append(make_generated_name(sm, "StateMachine").as_str());
    res.append(" { state: Some(");
    res.append(make_generated_name(sm, "States").as_str());
    res.append("::");
    res.append(make_pattern(sm.starting_state.as_str(), &sm.state_data, "state_data").as_str());
    res.append(
        "), context }\n}\n/// Creates a new state machine with an initial state.\n#[inline(always)]\npub const fn new_with_state(context: T, initial_state: ",
    );
    res.append(make_generated_name(sm, "States").as_str());
    res.append(" <");
    res.append(make_lifetimes(&sm.state_data.all_lifetimes).as_str());
    res.append(">) -> Self {\n");
    res.append(make_generated_name(sm, "StateMachine").as_str());
    res.append(" { state: Some(initial_state), context }\n}\n");
    res
}

fn make_accessors(sm: &ParsedStateMachine) -> (res: String)
    ensures
        res@ == accessors(sm@),
{
    let mut res = String::from_str(
        "/// Returns the current state.\n#[inline(always)]\npub fn state(&self) -> Result<&",
    );
    res.append(make_generated_name(sm, "States").as_str());
    res.append(" <");
    res.append(make_lifetimes(&sm.state_data.all_lifetimes).as_str());
    res.append(">, ");
    res.append(make_error_type(sm).as_str());
    res.append("> {\nself.state.as_ref().ok_or_else(|| ");
    res.append(make_generated_name(sm, "Error").as_str());
    res.append(
        " ::Poisoned)\n}\n/// Returns the current context.\n#[inline(always)]\npub fn context(&self) -> &T {\n&self.context\n}\n/// Returns the current context as a mutable reference.\n#[inline(always)]\npub fn context_mut(&mut self) -> &mut T {\n&mut self.context\n}\n",
    );
    res
}

fn make_process_event(sm: &ParsedStateMachine, all: &Vec<&EventMapping>) -> (res: String)
    requires
        transition_views(all@) == all_transitions(sm@.states_events_mapping),
    ensures
        res@ == process_event(sm@),
{
    let mut res = String::from_str(
        "/// Process an event.\n///\n/// It will return `Ok(&NextState)` if the transition was successful, or an error\n/// if there was an error in the transition.\npub ",
    );
    res.append(make_async_keyword(is_machine_async(all)).as_str());
    res.append("fn process_event <");
    res.append(
        make_lifetimes(&sm.event_data.all_lifetimes.minus(&sm.state_data.all_lifetimes)).as_str(),
    );
    res.append("> (&mut self, ");
    res.append(make_temporary_context(sm).as_str());
    res.append("mut event: ");
    res.append(make_generated_name(sm, "Events").as_str());
    res.append(" <");
    res.append(make_lifetimes(&sm.event_data.all_lifetimes).as_str());
    res.append(">) -> Result<&");
    res.append(make_generated_name(sm, "States").as_str());
    res.append(" <");
    res.append(make_lifetimes(&sm.state_data.all_lifetimes).as_str());
    res.append(">, ");
    res.append(make_error_type(sm).as_str());
    res.append(
        "> {\nself.context.log_process_event(self.state()?, &event);\nmatch self.state.take().ok_or_else(|| ",
    );
    res.append(make_generated_name(sm, "Error").as_str());
    res.append(" ::Poisoned)? {\n");
    res.append(join_strings(&make_state_arms(sm), ",\n").as_str());
    res.append("\nstate => { self.state = Some(state); Err(");
    res.append(make_generated_name(sm, "Error").as_str());
    res.append(" ::InvalidEvent) }\n}\n}\n");
    res
}

fn make_machine_impl(sm: &ParsedStateMachine, all: &Vec<&EventMapping>) -> (res: String)
    requires
        transition_views(all@) == all_transitions(sm@.states_events_mapping),
    ensures
        res@ == machine_impl(sm@),
{
    let mut res = String::from_str("impl<");
    res.append(make_lifetimes(&sm.state_data.all_lifetimes).as_str());
    res.append(" T: ");
    res.append(make_generated_name(sm, "StateMachineContext").as_str());
    res.append("> ");
    res.append(make_generated_name(sm, "StateMachine").as_str());
    res.append("<");
    res.append(make_lifetimes(&sm.state_data.all_lifetimes).as_str());
    res.append(" T> {\n");
    res.append(make_constructors(sm).as_str());
    res.append(make_accessors(sm).as_str());
    res.append(make_process_event(sm, all).as_str());
    res.append("}\n");
    res
}

/// The source of the code that is generated for the definition `sm`.
pub fn generate_source(sm: &ParsedStateMachine) -> (res: String)
    ensures
        res@ == source_text(sm@),
{
    let all = collect_transitions(sm);
    let mut res = make_context_trait(sm, &all);
    res.append(
        make_enum_definition(
            "/// List of auto-generated states.\n",
            &sm.derive_states,
            make_generated_name(sm, "States").as_str(),
            &sm.state_data.all_lifetimes,
            &make_variants(&sm.states, &sm.state_data),
        ).as_str(),
    );
    res.append(
        make_enum_definition(
            "/// List of auto-generated events.\n",
            &sm.derive_events,
            make_generated_name(sm, "Events").as_str(),
            &sm.event_data.all_lifetimes,
            &make_variants(&sm.events, &sm.event_data),
        ).as_str(),
    );
    res.append(make_error_enum(sm).as_str());
    res.append(make_machine_struct(sm).as_str());
    res.append(make_machine_impl(sm, &all).as_str());
    res
}

/// Why no code was generated.
#[derive(Debug, Clone, Copy, PartialEq, Eq, Structural)]
pub enum CodegenError {
    /// The generated source is not a sequence of tokens: a name or a type of
    /// the definition is none.
    InvalidTokens,
}

/// The code that is generated for the definition `sm`: the tokens of its
/// source.
pub fn generate_code(sm: &ParsedStateMachine) -> (res: Result<proc_macro2::TokenStream, CodegenError>)
    ensures
        match res {
            Ok(stream) => lexed(source_text(sm@)) == Some(stream_tokens(stream)),
            Err(e) => lexed(source_text(sm@)) is None && e == CodegenError::InvalidTokens,
        },
{
    let source = generate_source(sm);
    match lex(source.as_str()) {
        Ok(stream) => Ok(stream),
        Err(_) => Err(CodegenError::InvalidTokens),
    }
}

} // verus!

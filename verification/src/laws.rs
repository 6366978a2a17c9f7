//! What holds of every dispatch: it is total, a failure leaves the state as
//! it was, a success enters the target state with what the action produced,
//! the hooks come in a fixed order, and equal runs observe the same.

use crate::machine::{
    carries_data, dispatched, entered, Dispatched, Error, EventView, Hook, StateView,
};
use crate::model::{event_names, state_names, ParsedStateMachineView};
use vstd::prelude::*;

verus! {

/// No transition of a well-formed table is hidden: each one is the
/// transition that is found for its own state and event.
pub proof fn lemma_every_transition_is_found(m: ParsedStateMachineView, i: int, j: int)
    requires
        m.wf(),
        0 <= i < m.states_events_mapping.len(),
        0 <= j < m.states_events_mapping[i].events.len(),
    ensures
        m.transition(m.states_events_mapping[i].state, m.states_events_mapping[i].events[j].event)
            == Some(m.states_events_mapping[i].events[j]),
{
    let entry = m.states_events_mapping[i];
    let t = entry.events[j];
    let states = state_names(m.states_events_mapping);
    assert(states[i] == entry.state);
    states.index_of_first_ensures(entry.state);
    let events = event_names(entry.events);
    assert(events[j] == t.event);
    events.index_of_first_ensures(t.event);
    assert(m.transition_wf(entry.state, t));
}

/// The dispatch is total: in every state, an event for which a transition is
/// defined is taken or stopped by the guard of that transition, and every
/// other event is reported as invalid.
pub proof fn lemma_dispatch_is_total<P, E>(
    m: ParsedStateMachineView,
    state: StateView<P>,
    event: EventView<P>,
    guard_result: Result<(), E>,
    produced: Option<P>,
)
    ensures
        ({
            let d = dispatched(m, Some(state), event, guard_result, produced);
            match m.transition(state.name, event.name) {
                None => d.result == Err::<StateView<P>, Error<E>>(Error::InvalidEvent),
                Some(t) => if t.guard is Some && guard_result is Err {
                    d.result == Err::<StateView<P>, Error<E>>(
                        Error::GuardFailed(guard_result->Err_0),
                    )
                } else {
                    d.result == Ok::<StateView<P>, Error<E>>(entered(m, t, produced))
                },
            }
        }),
{
}

/// An event without a transition from the current state leaves the state as
/// it was.
pub proof fn lemma_invalid_event_keeps_state<P, E>(
    m: ParsedStateMachineView,
    state: StateView<P>,
    event: EventView<P>,
    guard_result: Result<(), E>,
    produced: Option<P>,
)
    requires
        m.transition(state.name, event.name) is None,
    ensures
        dispatched(m, Some(state), event, guard_result, produced).state == Some(state),
        dispatched(m, Some(state), event, guard_result, produced).result == Err::<
            StateView<P>,
            Error<E>,
        >(Error::InvalidEvent),
{
}

/// Where the guard of the transition fails, the state is as it was before the
/// dispatch, data included, and the result carries the guard's error.
pub proof fn lemma_guard_failure_keeps_state<P, E>(
    m: ParsedStateMachineView,
    state: StateView<P>,
    event: EventView<P>,
    error: E,
    produced: Option<P>,
)
    requires
        m.transition(state.name, event.name) is Some,
        m.transition(state.name, event.name)->0.guard is Some,
    ensures
        dispatched(m, Some(state), event, Err::<(), E>(error), produced).state == Some(state),
        dispatched(m, Some(state), event, Err::<(), E>(error), produced).result == Err::<
            StateView<P>,
            Error<E>,
        >(Error::GuardFailed(error)),
{
}

/// After a transition that succeeded, the machine is in the target state.
/// With an action, a target state that is declared with data carries exactly
/// what the action produced; without an action the state carries no data.
pub proof fn lemma_action_produces_data<P, E>(
    m: ParsedStateMachineView,
    state: StateView<P>,
    event: EventView<P>,
    guard_result: Result<(), E>,
    produced: Option<P>,
)
    requires
        m.transition(state.name, event.name) is Some,
        dispatched(m, Some(state), event, guard_result, produced).result is Ok,
    ensures
        ({
            let t = m.transition(state.name, event.name)->0;
            let d = dispatched(m, Some(state), event, guard_result, produced);
            &&& d.state == Some(d.result->Ok_0)
            &&& d.result->Ok_0.name == t.out_state
            &&& t.action is Some && carries_data(m, t.out_state) ==> d.result->Ok_0.data == produced
            &&& t.action is None ==> d.result->Ok_0.data is None
        }),
{
}

/// The hooks of a dispatch come in a fixed order: the beginning of the
/// dispatch, the guard if there is one, the action if there is one, and the
/// change of state; a dispatch that fails calls none after the failure.
pub proof fn lemma_hook_order<P, E>(
    m: ParsedStateMachineView,
    state: StateView<P>,
    event: EventView<P>,
    guard_result: Result<(), E>,
    produced: Option<P>,
)
    ensures
        ({
            let d = dispatched(m, Some(state), event, guard_result, produced);
            &&& d.hooks.len() >= 1
            &&& d.hooks[0] == Hook::ProcessEvent { state: state.name, event: event.name }
            &&& d.result is Ok ==> d.hooks.last() == Hook::StateChange {
                state: d.result->Ok_0.name,
            }
            &&& forall|i: int|
                0 <= i < d.hooks.len() && d.hooks[i] is Guard ==> i == 1
            &&& forall|i: int|
                0 <= i < d.hooks.len() && d.hooks[i] is Action ==> i == d.hooks.len() - 2
            &&& forall|i: int|
                0 <= i < d.hooks.len() && d.hooks[i] is StateChange ==> i == d.hooks.len() - 1
                    && d.result is Ok
        }),
{
}

/// What the guards and the actions of a context do, where they are
/// deterministic: each is a function of the context and of the data that it
/// is given, and returns its result and the context that it leaves.
#[verifier::reject_recursive_types(C)]
#[verifier::reject_recursive_types(P)]
#[verifier::reject_recursive_types(E)]
pub struct Behaviour<C, P, E> {
    pub guard: spec_fn(C, Seq<char>, Option<P>, Option<P>) -> (Result<(), E>, C),
    pub action: spec_fn(C, Seq<char>, Option<P>, Option<P>) -> (Option<P>, C),
}

/// A machine between two dispatches: its state and the user's context.
pub struct Observed<C, P, E> {
    pub context: C,
    pub dispatched: Dispatched<P, E>,
}

/// The dispatch of `event` in `state`, with the guards and actions of `b`
/// on the context `context`.
pub open spec fn dispatched_by<C, P, E>(
    m: ParsedStateMachineView,
    b: Behaviour<C, P, E>,
    context: C,
    state: Option<StateView<P>>,
    event: EventView<P>,
) -> Observed<C, P, E> {
    let found = match state {
        Some(s) => m.transition(s.name, event.name),
        None => None,
    };
    match found {
        None => Observed { context, dispatched: dispatched(m, state, event, Ok(()), None) },
        Some(t) => {
            let s = state->0;
            let (guard_result, guarded) = match t.guard {
                Some(g) => (b.guard)(context, g.ident, s.data, event.data),
                None => (Ok(()), context),
            };
            let (produced, acted) = match t.action {
                Some(a) => if guard_result is Ok {
                    (b.action)(guarded, a.ident, s.data, event.data)
                } else {
                    (None, guarded)
                },
                None => (None, guarded),
            };
            Observed { context: acted, dispatched: dispatched(m, state, event, guard_result, produced) }
        },
    }
}

/// What is observed when `events` are dispatched one after the other, from
/// the state `start` and the context `context`: for each event the state,
/// the result, the hooks and the context that its dispatch leaves.
pub open spec fn run<C, P, E>(
    m: ParsedStateMachineView,
    b: Behaviour<C, P, E>,
    context: C,
    start: Option<StateView<P>>,
    events: Seq<EventView<P>>,
) -> Seq<Observed<C, P, E>>
    decreases events.len(),
{
    if events.len() == 0 {
        Seq::empty()
    } else {
        let earlier = run(m, b, context, start, events.drop_last());
        let (c, s) = if earlier.len() == 0 {
            (context, start)
        } else {
            (earlier.last().context, earlier.last().dispatched.state)
        };
        earlier.push(dispatched_by(m, b, c, s, events.last()))
    }
}

/// A run observes one dispatch for each event.
pub proof fn lemma_run_len<C, P, E>(
    m: ParsedStateMachineView,
    b: Behaviour<C, P, E>,
    context: C,
    start: Option<StateView<P>>,
    events: Seq<EventView<P>>,
)
    ensures
        run(m, b, context, start, events).len() == events.len(),
    decreases events.len(),
{
    if events.len() > 0 {
        lemma_run_len(m, b, context, start, events.drop_last());
    }
}

/// Dispatch is deterministic: two runs of one definition from the same
/// state and context, over the same events and with the same guards and
/// actions, observe the same states, results and hooks, and the one over
/// fewer events observes what the other observed up to there.
pub proof fn lemma_runs_agree<C, P, E>(
    m: ParsedStateMachineView,
    b: Behaviour<C, P, E>,
    context: C,
    start: Option<StateView<P>>,
    first: Seq<EventView<P>>,
    second: Seq<EventView<P>>,
)
    requires
        first.len() <= second.len(),
        forall|i: int| 0 <= i < first.len() ==> first[i] == second[i],
    ensures
        run(m, b, context, start, first).len() == first.len(),
        run(m, b, context, start, second).len() == second.len(),
        forall|i: int|
            0 <= i < first.len() ==> run(m, b, context, start, first)[i] == run(
                m,
                b,
                context,
                start,
                second,
            )[i],
    decreases second.len(),
{
    lemma_run_len(m, b, context, start, first);
    lemma_run_len(m, b, context, start, second);
    if first.len() == second.len() {
        assert(first =~= second);
    } else {
        lemma_runs_agree(m, b, context, start, first, second.drop_last());
        lemma_run_len(m, b, context, start, second.drop_last());
    }
}

} // verus!

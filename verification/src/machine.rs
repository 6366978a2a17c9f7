//! A machine that runs from its resolved definition: how an event is
//! dispatched, step by step, and what a dispatch leaves.

use crate::model::{
    AsyncIdent, EventMapping, EventMappingView, ParsedStateMachine, ParsedStateMachineView,
};
use crate::text::same_text;
use vstd::prelude::*;

verus! {

/// A state of a machine, with the data that it carries.
pub struct State<P> {
    pub name: String,
    pub data: Option<P>,
}

/// A state, as contracts speak of it.
pub struct StateView<P> {
    pub name: Seq<char>,
    pub data: Option<P>,
}

impl<P> View for State<P> {
    type V = StateView<P>;

    open spec fn view(&self) -> StateView<P> {
        StateView { name: self.name@, data: self.data }
    }
}

impl<P> PartialEq for State<P> {
    /// Two states are equal where they are the same state, whatever data
    /// they carry.
    fn eq(&self, other: &Self) -> (res: bool) {
        same_text(self.name.as_str(), other.name.as_str())
    }
}

impl<P> vstd::std_specs::cmp::PartialEqSpecImpl for State<P> {
    open spec fn obeys_eq_spec() -> bool {
        true
    }

    open spec fn eq_spec(&self, other: &Self) -> bool {
        self.name@ == other.name@
    }
}

/// An event, with the data that comes with it.
pub struct Event<P> {
    pub name: String,
    pub data: Option<P>,
}

/// An event, as contracts speak of it.
pub struct EventView<P> {
    pub name: Seq<char>,
    pub data: Option<P>,
}

impl<P> View for Event<P> {
    type V = EventView<P>;

    open spec fn view(&self) -> EventView<P> {
        EventView { name: self.name@, data: self.data }
    }
}

impl<P> PartialEq for Event<P> {
    /// Two events are equal where they are the same event, whatever data
    /// comes with them.
    fn eq(&self, other: &Self) -> (res: bool) {
        same_text(self.name.as_str(), other.name.as_str())
    }
}

impl<P> vstd::std_specs::cmp::PartialEqSpecImpl for Event<P> {
    open spec fn obeys_eq_spec() -> bool {
        true
    }

    open spec fn eq_spec(&self, other: &Self) -> bool {
        self.name@ == other.name@
    }
}

/// Why an event was not taken.
#[derive(Debug)]
pub enum Error<E> {
    /// No transition is defined for the event in the current state.
    InvalidEvent,
    /// The guard of the transition failed, with this error.
    GuardFailed(E),
    /// The machine has no current state.
    Poisoned,
}

/// The view of a state that may be absent.
pub open spec fn state_view<P>(state: Option<State<P>>) -> Option<StateView<P>> {
    match state {
        Some(s) => Some(s@),
        None => None,
    }
}

/// What the user of a machine implements: the guards and the actions, each
/// called by its name, and four methods that are told what the dispatch does.
pub trait StateMachineContext<P, E, X> {
    /// Evaluates the guard `name` on the data of the state and of the event.
    fn guard(
        &mut self,
        name: &str,
        temporary_context: &mut X,
        state_data: Option<&P>,
        event_data: Option<&P>,
    ) -> Result<(), E>;

    /// Runs the action `name` on the data of the state and of the event, and
    /// returns the data of the target state.
    fn action(
        &mut self,
        name: &str,
        temporary_context: &mut X,
        state_data: Option<P>,
        event_data: Option<P>,
    ) -> Option<P>;

    /// Called at the beginning of a dispatch.
    fn log_process_event(&self, current_state: &State<P>, event: &Event<P>) {
    }

    /// Called after a guard was evaluated.
    fn log_guard(&self, guard: &str, result: &Result<(), E>) {
    }

    /// Called after an action was run.
    fn log_action(&self, action: &str) {
    }

    /// Called when the machine enters a new state.
    fn log_state_change(&self, new_state: &State<P>) {
    }
}

/// A transition that was found for an event and is not completed yet: the
/// machine's state was taken out and is held here, with the event.
pub struct Pending<P> {
    pub transition: EventMapping,
    pub state: State<P>,
    pub event: Event<P>,
}

/// A machine: its definition, its current state and the user's context.
pub struct StateMachine<T, P> {
    definition: ParsedStateMachine,
    state: Option<State<P>>,
    context: T,
}

/// Whether the machine `m` declares data for `state`.
pub open spec fn carries_data(m: ParsedStateMachineView, state: Seq<char>) -> bool {
    m.state_data.data_type(state) is Some
}

/// The state that a transition `t` leads to, where its action, if it has
/// one, produced `produced`: the target state carries what the action
/// produced where it is declared with data, and nothing else.
pub open spec fn entered<P>(m: ParsedStateMachineView, t: EventMappingView, produced: Option<P>) -> StateView<P> {
    StateView {
        name: t.out_state,
        data: if carries_data(m, t.out_state) && t.action is Some {
            produced
        } else {
            None
        },
    }
}

/// What a dispatch tells the user's context, in the order in which it does.
pub enum Hook {
    /// The dispatch of an event began in a state.
    ProcessEvent { state: Seq<char>, event: Seq<char> },
    /// A guard was evaluated, and passed or failed.
    Guard { name: Seq<char>, passed: bool },
    /// An action was run.
    Action { name: Seq<char> },
    /// The machine entered a state.
    StateChange { state: Seq<char> },
}

/// What a dispatch leaves: the machine's state, the result, and the hooks
/// that were called.
pub struct Dispatched<P, E> {
    pub state: Option<StateView<P>>,
    pub result: Result<StateView<P>, Error<E>>,
    pub hooks: Seq<Hook>,
}

/// The hook for a guard that was evaluated, where the transition has one.
pub open spec fn guard_hooks<E>(t: EventMappingView, guard_result: Result<(), E>) -> Seq<Hook> {
    match t.guard {
        Some(g) => seq![Hook::Guard { name: g.ident, passed: guard_result is Ok }],
        None => Seq::empty(),
    }
}

/// The hook for an action that was run, where the transition has one.
pub open spec fn action_hooks(t: EventMappingView) -> Seq<Hook> {
    match t.action {
        Some(a) => seq![Hook::Action { name: a.ident }],
        None => Seq::empty(),
    }
}

/// The dispatch of `event` by a machine in `state`, where the guard of the
/// transition, if it is asked, returns `guard_result`, and its action, if it
/// is run, produces `produced`.
pub open spec fn dispatched<P, E>(
    m: ParsedStateMachineView,
    state: Option<StateView<P>>,
    event: EventView<P>,
    guard_result: Result<(), E>,
    produced: Option<P>,
) -> Dispatched<P, E> {
    match state {
        None => Dispatched { state: None, result: Err(Error::Poisoned), hooks: Seq::empty() },
        Some(s) => {
            let begun = seq![Hook::ProcessEvent { state: s.name, event: event.name }];
            match m.transition(s.name, event.name) {
                None => Dispatched { state: Some(s), result: Err(Error::InvalidEvent), hooks: begun },
                Some(t) => if t.guard is Some && guard_result is Err {
                    Dispatched {
                        state: Some(s),
                        result: Err(Error::GuardFailed(guard_result->Err_0)),
                        hooks: begun + guard_hooks(t, guard_result),
                    }
                } else {
                    let new_state = entered(m, t, produced);
                    Dispatched {
                        state: Some(new_state),
                        result: Ok(new_state),
                        hooks: begun + guard_hooks(t, guard_result) + action_hooks(t)
                            + seq![Hook::StateChange { state: t.out_state }],
                    }
                },
            }
        },
    }
}

/// The view of the result of a dispatch.
pub open spec fn result_view<P, E>(res: Result<&State<P>, Error<E>>) -> Result<StateView<P>, Error<E>> {
    match res {
        Ok(s) => Ok(s@),
        Err(e) => Err(e),
    }
}

fn clone_ident(a: &Option<AsyncIdent>) -> (res: Option<AsyncIdent>)
    ensures
        crate::model::ident_view(res) == crate::model::ident_view(*a),
{
    match a {
        Some(i) => Some(AsyncIdent { ident: i.ident.clone(), is_async: i.is_async }),
        None => None,
    }
}

fn clone_mapping(t: &EventMapping) -> (res: EventMapping)
    ensures
        res@ == t@,
{
    EventMapping {
        in_state: t.in_state.clone(),
        event: t.event.clone(),
        guard: clone_ident(&t.guard),
        action: clone_ident(&t.action),
        out_state: t.out_state.clone(),
    }
}

impl<T, P> StateMachine<T, P> {
    /// The definition that the machine runs.
    pub closed spec fn definition(&self) -> ParsedStateMachineView {
        self.definition@
    }

    /// The current state; none while a transition is pending.
    pub closed spec fn current(&self) -> Option<StateView<P>> {
        state_view(self.state)
    }

    /// The user's context.
    pub closed spec fn user_context(&self) -> T {
        self.context
    }

    /// A machine in the starting state of `definition`, which carries
    /// `state_data` where it is declared with data.
    pub fn new(definition: ParsedStateMachine, context: T, state_data: Option<P>) -> (res: Self)
        ensures
            res.definition() == definition@,
            res.user_context() == context,
            res.current() == Some(
                StateView {
                    name: definition@.starting_state,
                    data: if carries_data(definition@, definition@.starting_state) {
                        state_data
                    } else {
                        None
                    },
                },
            ),
    {
        let data = if definition.state_data.get(definition.starting_state.as_str()).is_some() {
            state_data
        } else {
            None
        };
        let state = State { name: definition.starting_state.clone(), data };
        StateMachine { definition, state: Some(state), context }
    }

    /// A machine in the state `initial_state`.
    pub fn new_with_state(definition: ParsedStateMachine, context: T, initial_state: State<P>) -> (res:
        Self)
        ensures
            res.definition() == definition@,
            res.user_context() == context,
            res.current() == Some(initial_state@),
    {
        StateMachine { definition, state: Some(initial_state), context }
    }

    /// The current state, or `Poisoned` where the machine has none.
    pub fn state<E>(&self) -> (res: Result<&State<P>, Error<E>>)
        ensures
            match res {
                Ok(s) => self.current() == Some(s@),
                Err(e) => self.current() is None && e is Poisoned,
            },
    {
        match &self.state {
            Some(s) => Ok(s),
            None => Err(Error::Poisoned),
        }
    }

    /// The user's context.
    pub fn context(&self) -> (res: &T)
        ensures
            *res == self.user_context(),
    {
        &self.context
    }

    /// The user's context, to change it.
    pub fn context_mut(&mut self) -> (res: &mut T)
        ensures
            *res == old(self).user_context(),
            final(self).user_context() == *final(res),
            final(self).definition() == old(self).definition(),
            final(self).current() == old(self).current(),
    {
        &mut self.context
    }

    /// Begins the dispatch of `event`: takes the current state out of the
    /// machine and finds the transition. Where the machine has no state it is
    /// poisoned; where no transition is defined for the state and the event,
    /// the state is put back and the event is invalid.
    pub fn begin<E>(&mut self, event: Event<P>) -> (res: Result<Pending<P>, Error<E>>)
        ensures
            final(self).definition() == old(self).definition(),
            final(self).user_context() == old(self).user_context(),
            match old(self).current() {
                None => res is Err && res->Err_0 is Poisoned && final(self).current() is None,
                Some(s) => match old(self).definition().transition(s.name, event@.name) {
                    None => res is Err && res->Err_0 is InvalidEvent && final(self).current()
                        == Some(s),
                    Some(t) => res is Ok && res->Ok_0.transition@ == t && res->Ok_0.state@ == s
                        && res->Ok_0.event == event && final(self).current() is None,
                },
            },
    {
        match self.state.take() {
            None => Err(Error::Poisoned),
            Some(state) => {
                match self.definition.transition(state.name.as_str(), event.name.as_str()) {
                    Some(t) => {
                        let transition = clone_mapping(t);
                        Ok(Pending { transition, state, event })
                    },
                    None => {
                        self.state = Some(state);
                        Err(Error::InvalidEvent)
                    },
                }
            },
        }
    }

    /// Ends a dispatch whose guard failed with `error`: the state that the
    /// machine was in is put back, and the error is handed on.
    pub fn reject<E>(&mut self, pending: Pending<P>, error: E) -> (res: Error<E>)
        ensures
            final(self).definition() == old(self).definition(),
            final(self).user_context() == old(self).user_context(),
            final(self).current() == Some(pending.state@),
            res == Error::GuardFailed(error),
    {
        self.state = Some(pending.state);
        Error::GuardFailed(error)
    }

    /// The state that the transition `t` leads to, with what its action
    /// produced.
    pub fn enter(&self, t: &EventMapping, produced: Option<P>) -> (res: State<P>)
        ensures
            res@ == entered(self.definition(), t@, produced),
    {
        let data = if self.definition.state_data.get(t.out_state.as_str()).is_some()
            && t.action.is_some() {
            produced
        } else {
            None
        };
        State { name: t.out_state.clone(), data }
    }

    /// Ends a dispatch that succeeded: `new_state` becomes the current state.
    pub fn finish(&mut self, new_state: State<P>)
        ensures
            final(self).definition() == old(self).definition(),
            final(self).user_context() == old(self).user_context(),
            final(self).current() == Some(new_state@),
    {
        self.state = Some(new_state);
    }

    /// Dispatches `event`. The context is told that the dispatch begins; the
    /// state is taken and the transition found; its guard, if it has one, is
    /// asked and its result logged; its action, if it has one, is run and
    /// logged; the new state is logged and entered. What the guard and the
    /// action return is the context's own: whatever they return, the dispatch
    /// is the one that `dispatched` describes for those values.
    pub fn process_event<E, X>(&mut self, temporary_context: &mut X, event: Event<P>) -> (res: Result<
        &State<P>,
        Error<E>,
    >) where T: StateMachineContext<P, E, X>
        ensures
            final(self).definition() == old(self).definition(),
            exists|guard_result: Result<(), E>, produced: Option<P>|
                {
                    let d = #[trigger] dispatched(
                        old(self).definition(),
                        old(self).current(),
                        event@,
                        guard_result,
                        produced,
                    );
                    final(self).current() == d.state && result_view(res) == d.result
                },
    {
        let ghost before = old(self).current();
        let ghost m = old(self).definition();
        match &self.state {
            Some(s) => {
                self.context.log_process_event(s, &event);
            },
            None => {
                assert(dispatched::<P, E>(m, before, event@, Ok(()), None).state is None);
                return Err(Error::Poisoned);
            },
        }
        let pending = match self.begin(event) {
            Ok(pending) => pending,
            Err(e) => {
                assert(dispatched::<P, E>(m, before, event@, Ok(()), None).state == before);
                return Err(e);
            },
        };
        let Pending { transition, state, event } = pending;
        let ghost guard_result: Result<(), E> = Ok(());
        match &transition.guard {
            Some(g) => {
                let result = self.context.guard(
                    g.ident.as_str(),
                    temporary_context,
                    state.data.as_ref(),
                    event.data.as_ref(),
                );
                self.context.log_guard(g.ident.as_str(), &result);
                proof {
                    guard_result = result;
                }
                match result {
                    Err(e) => {
                        let error = self.reject(Pending { transition, state, event }, e);
                        assert(dispatched::<P, E>(m, before, event@, guard_result, None).state
                            == before);
                        return Err(error);
                    },
                    Ok(_) => {},
                }
            },
            None => {},
        }
        let produced = match &transition.action {
            Some(a) => {
                let produced = self.context.action(
                    a.ident.as_str(),
                    temporary_context,
                    state.data,
                    event.data,
                );
                self.context.log_action(a.ident.as_str());
                produced
            },
            None => None,
        };
        let new_state = self.enter(&transition, produced);
        self.context.log_state_change(&new_state);
        self.finish(new_state);
        assert(dispatched::<P, E>(m, before, event@, guard_result, produced).state
            == self.current());
        self.state()
    }
}

} // verus!

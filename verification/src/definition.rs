//! A definition as it is written, clause by clause, and how it is resolved:
//! what is checked, which error is reported, and which machine is built.

use crate::model::{
    extended, ident_view, insert_name, inserted, AsyncIdent, AsyncIdentView, DataDefinitions,
    DataDefinitionsView, DataType, DataTypeView, EventMapping, EventMappingView, Lifetimes,
    NamedType, NamedTypeView, ParsedStateMachine, ParsedStateMachineView, StateEvents,
    StateEventsView,
};
use crate::text::{same_text, texts};
use crate::tokens::parsed_type;
use vstd::prelude::*;

verus! {

/// Whether a character can stand in a name.
pub open spec fn is_name_char(c: char) -> bool {
    c == '_' || ('a' <= c && c <= 'z') || ('A' <= c && c <= 'Z') || ('0' <= c && c <= '9') || c
        > '\x7f'
}

/// The number of name characters at the front of a text.
pub open spec fn name_len(s: Seq<char>) -> nat
    decreases s.len(),
{
    if s.len() > 0 && is_name_char(s[0]) {
        1 + name_len(s.skip(1))
    } else {
        0
    }
}

/// The lifetimes that a text names, one for each place where it names one:
/// an apostrophe and the name after it, unless an apostrophe closes the name,
/// which makes it a character.
pub open spec fn lifetime_mentions(s: Seq<char>) -> Seq<Seq<char>>
    decreases s.len(),
    via lifetime_mentions_ends
{
    if s.len() == 0 {
        Seq::empty()
    } else if s[0] == '\'' && name_len(s.skip(1)) > 0 {
        let end = 1 + name_len(s.skip(1)) as int;
        if end < s.len() && s[end] == '\'' {
            lifetime_mentions(s.skip(end + 1))
        } else {
            seq![s.take(end)] + lifetime_mentions(s.skip(end))
        }
    } else {
        lifetime_mentions(s.skip(1))
    }
}

#[via_fn]
proof fn lifetime_mentions_ends(s: Seq<char>) {
    if s.len() > 0 {
        lemma_name_len_bound(s.skip(1));
    }
}

/// The lifetimes that a text names, each once, in the order in which it
/// names them first.
pub open spec fn lifetimes_in(s: Seq<char>) -> Seq<Seq<char>> {
    extended(Seq::empty(), lifetime_mentions(s))
}

proof fn lemma_name_len_bound(s: Seq<char>)
    ensures
        name_len(s) <= s.len(),
    decreases s.len(),
{
    if s.len() > 0 && is_name_char(s[0]) {
        lemma_name_len_bound(s.skip(1));
    }
}

/// Whether a character can stand in a name.
pub fn check_name_char(c: char) -> (res: bool)
    ensures
        res == is_name_char(c),
{
    c == '_' || ('a' <= c && c <= 'z') || ('A' <= c && c <= 'Z') || ('0' <= c && c <= '9') || c
        > '\x7f'
}

/// The number of name characters of `s` from `from` on.
fn count_name_chars(s: &str, from: usize) -> (res: usize)
    requires
        from <= s@.len(),
    ensures
        res == name_len(s@.skip(from as int)),
        from + res <= s@.len(),
{
    let n: usize = s.unicode_len();
    let mut i: usize = from;
    proof {
        lemma_name_len_bound(s@.skip(from as int));
    }
    while i < n && check_name_char(s.get_char(i))
        invariant
            n == s@.len(),
            from <= i <= n,
            name_len(s@.skip(from as int)) == (i - from) + name_len(s@.skip(i as int)),
        decreases n - i,
    {
        assert(s@.skip(i as int).skip(1) =~= s@.skip(i + 1));
        i += 1;
    }
    i - from
}

/// The lifetimes that a text names, each once, in the order in which it
/// names them first.
pub fn find_lifetimes(s: &str) -> (res: Lifetimes)
    ensures
        res@ == lifetimes_in(s@),
{
    let n: usize = s.unicode_len();
    let mut mentions: Vec<String> = Vec::new();
    let mut i: usize = 0;
    proof {
        assert(s@.skip(0) =~= s@);
        assert(texts(mentions@) =~= Seq::<Seq<char>>::empty());
        assert(texts(mentions@) + lifetime_mentions(s@) =~= lifetime_mentions(s@));
    }
    while i < n
        invariant
            n == s@.len(),
            i <= n,
            lifetime_mentions(s@) == texts(mentions@) + lifetime_mentions(s@.skip(i as int)),
        decreases n - i,
    {
        let ghost rest = s@.skip(i as int);
        let ghost before = texts(mentions@);
        if s.get_char(i) == '\'' {
            let run = count_name_chars(s, i + 1);
            assert(rest.skip(1) =~= s@.skip(i + 1));
            if run > 0 {
                let end: usize = i + 1 + run;
                if end < n && s.get_char(end) == '\'' {
                    assert(rest.skip(1 + run as int + 1) =~= s@.skip(end + 1));
                    i = end + 1;
                } else {
                    let found = s.substring_char(i, end);
                    assert(rest.take(1 + run as int) =~= s@.subrange(i as int, end as int));
                    assert(rest.skip(1 + run as int) =~= s@.skip(end as int));
                    mentions.push(String::from_str(found));
                    proof {
                        assert(texts(mentions@) =~= before.push(found@));
                        assert(before.push(found@) + lifetime_mentions(s@.skip(end as int))
                            =~= before + (seq![found@] + lifetime_mentions(s@.skip(end as int))));
                    }
                    i = end;
                }
            } else {
                i += 1;
            }
        } else {
            assert(rest.skip(1) =~= s@.skip(i + 1));
            i += 1;
        }
    }
    let mut res = Lifetimes::new();
    res.extend(&Lifetimes { lifetimes: mentions });
    proof {
        assert(s@.skip(n as int) =~= Seq::<char>::empty());
        assert(texts(mentions@) + Seq::<Seq<char>>::empty() =~= texts(mentions@));
    }
    res
}

/// The view of a text that may be absent.
pub open spec fn text_view(o: Option<String>) -> Option<Seq<char>> {
    match o {
        Some(s) => Some(s@),
        None => None,
    }
}

/// The type that a text is read as, if it is a type.
pub open spec fn read_as_type(text: Seq<char>) -> Option<DataTypeView> {
    match parsed_type(text) {
        Some((tokens, is_reference)) => Some(DataTypeView { tokens, is_reference }),
        None => None,
    }
}

/// What is wrong with the data that a clause gives a state or an event.
#[derive(Debug, Clone, Copy, PartialEq, Eq, Structural)]
pub enum Clash {
    /// The text of the data's type is not a type.
    InvalidType,
    /// An earlier clause gave the same name data of another type.
    Conflict,
}

/// What is wrong with `data` as the data of `name`, given the definitions
/// `defs` of the clauses before.
pub open spec fn clash(defs: DataDefinitionsView, name: Seq<char>, data: Option<Seq<char>>) -> Option<
    Clash,
> {
    match data {
        Some(text) => match read_as_type(text) {
            Some(t) => match defs.data_type(name) {
                Some(earlier) => if earlier == t {
                    None
                } else {
                    Some(Clash::Conflict)
                },
                None => None,
            },
            None => Some(Clash::InvalidType),
        },
        None => None,
    }
}

/// The definitions `defs`, with the entry for `name` where `data` is a type
/// and `name` has no entry yet: the first type that is given for a name is
/// its type. The lifetimes of the type join those of the definitions.
pub open spec fn declared(defs: DataDefinitionsView, name: Seq<char>, data: Option<Seq<char>>) -> DataDefinitionsView {
    match data {
        Some(text) => match read_as_type(text) {
            Some(t) => if defs.data_type(name) is Some {
                defs
            } else {
                DataDefinitionsView {
                    entries: defs.entries.push(
                        NamedTypeView { name, data_type: t, lifetimes: lifetimes_in(t.tokens) },
                    ),
                    all_lifetimes: extended(defs.all_lifetimes, lifetimes_in(t.tokens)),
                }
            },
            None => defs,
        },
        None => defs,
    }
}

impl DataDefinitions {
    /// Takes in the data that a clause gives `name`: reports what is wrong
    /// with it, or enters it where it is the first for that name.
    pub fn collect(&mut self, name: &str, data: &Option<String>) -> (res: Option<Clash>)
        ensures
            res == clash(old(self)@, name@, text_view(*data)),
            final(self)@ == declared(old(self)@, name@, text_view(*data)),
    {
        match data {
            None => None,
            Some(text) => {
                match DataType::parse(text.as_str()) {
                    None => Some(Clash::InvalidType),
                    Some(data_type) => {
                        match self.get(name) {
                            Some(earlier) => {
                                if earlier.data_type.same(&data_type) {
                                    None
                                } else {
                                    Some(Clash::Conflict)
                                }
                            },
                            None => {
                                let lifetimes = find_lifetimes(data_type.tokens.as_str());
                                self.all_lifetimes.extend(&lifetimes);
                                self.entries.push(
                                    NamedType { name: String::from_str(name), data_type, lifetimes },
                                );
                                assert(self@.entries =~= old(self)@.entries.push(
                                    NamedTypeView {
                                        name: name@,
                                        data_type: data_type@,
                                        lifetimes: lifetimes@,
                                    },
                                ));
                                None
                            },
                        }
                    },
                }
            },
        }
    }
}

/// One clause of a definition: a transition from `in_state` on `event`,
/// through the guard and the action where it names any, to `out_state`; the
/// types of the data that it gives the states and the event, as text; and
/// whether it marks its state as the starting state.
pub struct StateTransition {
    pub start: bool,
    pub in_state: String,
    pub in_state_data: Option<String>,
    pub event: String,
    pub event_data: Option<String>,
    pub guard: Option<AsyncIdent>,
    pub action: Option<AsyncIdent>,
    pub out_state: String,
    pub out_state_data: Option<String>,
}

/// A clause, as contracts speak of it.
pub struct StateTransitionView {
    pub start: bool,
    pub in_state: Seq<char>,
    pub in_state_data: Option<Seq<char>>,
    pub event: Seq<char>,
    pub event_data: Option<Seq<char>>,
    pub guard: Option<AsyncIdentView>,
    pub action: Option<AsyncIdentView>,
    pub out_state: Seq<char>,
    pub out_state_data: Option<Seq<char>>,
}

impl View for StateTransition {
    type V = StateTransitionView;

    open spec fn view(&self) -> StateTransitionView {
        StateTransitionView {
            start: self.start,
            in_state: self.in_state@,
            in_state_data: text_view(self.in_state_data),
            event: self.event@,
            event_data: text_view(self.event_data),
            guard: ident_view(self.guard),
            action: ident_view(self.action),
            out_state: self.out_state@,
            out_state_data: text_view(self.out_state_data),
        }
    }
}

/// A definition as it is written: the configuration and the clauses.
pub struct Definition {
    pub name: Option<String>,
    pub temporary_context_type: Option<String>,
    pub custom_guard_error: bool,
    pub derive_states: Vec<String>,
    pub derive_events: Vec<String>,
    pub transitions: Vec<StateTransition>,
}

/// A definition as it is written, as contracts speak of it.
pub struct DefinitionView {
    pub name: Option<Seq<char>>,
    pub temporary_context_type: Option<Seq<char>>,
    pub custom_guard_error: bool,
    pub derive_states: Seq<Seq<char>>,
    pub derive_events: Seq<Seq<char>>,
    pub transitions: Seq<StateTransitionView>,
}

/// The view of each clause of a list.
pub open spec fn clause_views(clauses: Seq<StateTransition>) -> Seq<StateTransitionView> {
    Seq::new(clauses.len(), |i: int| clauses[i]@)
}

impl View for Definition {
    type V = DefinitionView;

    open spec fn view(&self) -> DefinitionView {
        DefinitionView {
            name: text_view(self.name),
            temporary_context_type: text_view(self.temporary_context_type),
            custom_guard_error: self.custom_guard_error,
            derive_states: texts(self.derive_states@),
            derive_events: texts(self.derive_events@),
            transitions: clause_views(self.transitions@),
        }
    }
}

/// Why a definition is refused. An error that a clause causes names the
/// clause by its place in the definition.
#[derive(Debug, Clone, Copy, PartialEq, Eq, Structural)]
pub enum DefinitionError {
    /// No clause marks a starting state.
    NoStartingState,
    /// Two clauses mark different starting states.
    MultipleStartingStates,
    /// The type of the temporary context is not a type.
    InvalidTemporaryContext,
    /// The clause gives a state data whose type is not a type.
    InvalidStateData(usize),
    /// The clause gives a state data of another type than an earlier clause.
    ConflictingStateData(usize),
    /// The clause gives its event data whose type is not a type.
    InvalidEventData(usize),
    /// The clause gives its event data of another type than an earlier clause.
    ConflictingEventData(usize),
    /// An earlier clause defines a transition for the same state and event.
    DuplicateTransition(usize),
    /// The clause leads to a state that carries data and has no action to
    /// produce it.
    MissingAction(usize),
    /// The clause names a guard that an earlier clause uses with other data.
    IncompatibleGuard(usize),
    /// The clause names an action that an earlier clause uses with other data.
    IncompatibleAction(usize),
}

/// The data of the states that the clauses define.
pub open spec fn state_data(clauses: Seq<StateTransitionView>) -> DataDefinitionsView
    decreases clauses.len(),
{
    if clauses.len() == 0 {
        DataDefinitionsView { entries: Seq::empty(), all_lifetimes: Seq::empty() }
    } else {
        let c = clauses.last();
        declared(
            declared(state_data(clauses.drop_last()), c.in_state, c.in_state_data),
            c.out_state,
            c.out_state_data,
        )
    }
}

/// The data of the events that the clauses define.
pub open spec fn event_data(clauses: Seq<StateTransitionView>) -> DataDefinitionsView
    decreases clauses.len(),
{
    if clauses.len() == 0 {
        DataDefinitionsView { entries: Seq::empty(), all_lifetimes: Seq::empty() }
    } else {
        let c = clauses.last();
        declared(event_data(clauses.drop_last()), c.event, c.event_data)
    }
}

/// The states that the clauses name, each once, in the order in which they
/// name them first.
pub open spec fn state_list(clauses: Seq<StateTransitionView>) -> Seq<Seq<char>>
    decreases clauses.len(),
{
    if clauses.len() == 0 {
        Seq::empty()
    } else {
        let c = clauses.last();
        inserted(inserted(state_list(clauses.drop_last()), c.in_state), c.out_state)
    }
}

/// The events that the clauses name, each once, in the order in which they
/// name them first.
pub open spec fn event_list(clauses: Seq<StateTransitionView>) -> Seq<Seq<char>>
    decreases clauses.len(),
{
    if clauses.len() == 0 {
        Seq::empty()
    } else {
        inserted(event_list(clauses.drop_last()), clauses.last().event)
    }
}

/// The error for data of a state.
pub open spec fn state_data_error(clash: Clash, k: usize) -> DefinitionError {
    match clash {
        Clash::InvalidType => DefinitionError::InvalidStateData(k),
        Clash::Conflict => DefinitionError::ConflictingStateData(k),
    }
}

/// The error for data of an event.
pub open spec fn event_data_error(clash: Clash, k: usize) -> DefinitionError {
    match clash {
        Clash::InvalidType => DefinitionError::InvalidEventData(k),
        Clash::Conflict => DefinitionError::ConflictingEventData(k),
    }
}

/// What is wrong with the data that the clause at `k` gives its states and
/// its event, given the clauses before it: the data of its state is looked at
/// first, then that of its target state, then that of its event.
pub open spec fn data_error(clauses: Seq<StateTransitionView>, k: int) -> Option<DefinitionError> {
    let c = clauses[k];
    let states = state_data(clauses.take(k));
    let events = event_data(clauses.take(k));
    if clash(states, c.in_state, c.in_state_data) is Some {
        Some(state_data_error(clash(states, c.in_state, c.in_state_data)->0, k as usize))
    } else if clash(declared(states, c.in_state, c.in_state_data), c.out_state, c.out_state_data) is Some {
        Some(
            state_data_error(
                clash(
                    declared(states, c.in_state, c.in_state_data),
                    c.out_state,
                    c.out_state_data,
                )->0,
                k as usize,
            ),
        )
    } else if clash(events, c.event, c.event_data) is Some {
        Some(event_data_error(clash(events, c.event, c.event_data)->0, k as usize))
    } else {
        None
    }
}

/// The first error in the data of the first `n` clauses.
pub open spec fn first_data_error(clauses: Seq<StateTransitionView>, n: int) -> Option<
    DefinitionError,
>
    decreases n,
{
    if n <= 0 {
        None
    } else {
        match first_data_error(clauses, n - 1) {
            Some(e) => Some(e),
            None => data_error(clauses, n - 1),
        }
    }
}

/// The data of the states and of the events of the definition.
struct Collected {
    states: Vec<String>,
    state_data: DataDefinitions,
    events: Vec<String>,
    event_data: DataDefinitions,
}

fn state_error_for(clash: Clash, k: usize) -> (res: DefinitionError)
    ensures
        res == state_data_error(clash, k),
{
    match clash {
        Clash::InvalidType => DefinitionError::InvalidStateData(k),
        Clash::Conflict => DefinitionError::ConflictingStateData(k),
    }
}

fn event_error_for(clash: Clash, k: usize) -> (res: DefinitionError)
    ensures
        res == event_data_error(clash, k),
{
    match clash {
        Clash::InvalidType => DefinitionError::InvalidEventData(k),
        Clash::Conflict => DefinitionError::ConflictingEventData(k),
    }
}

fn collect_data(clauses: &Vec<StateTransition>) -> (res: Result<Collected, DefinitionError>)
    ensures
        match res {
            Ok(c) => {
                &&& first_data_error(clause_views(clauses@), clauses@.len() as int) is None
                &&& texts(c.states@) == state_list(clause_views(clauses@))
                &&& texts(c.events@) == event_list(clause_views(clauses@))
                &&& c.state_data@ == state_data(clause_views(clauses@))
                &&& c.event_data@ == event_data(clause_views(clauses@))
            },
            Err(e) => first_data_error(clause_views(clauses@), clauses@.len() as int) == Some(e),
        },
{
    let ghost views = clause_views(clauses@);
    let mut c = Collected {
        states: Vec::new(),
        state_data: DataDefinitions::new(),
        events: Vec::new(),
        event_data: DataDefinitions::new(),
    };
    let mut k: usize = 0;
    proof {
        assert(views.take(0) =~= Seq::<StateTransitionView>::empty());
        assert(texts(c.states@) =~= Seq::<Seq<char>>::empty());
        assert(texts(c.events@) =~= Seq::<Seq<char>>::empty());
    }
    while k < clauses.len()
        invariant
            k <= clauses.len(),
            views == clause_views(clauses@),
            first_data_error(views, k as int) is None,
            texts(c.states@) == state_list(views.take(k as int)),
            texts(c.events@) == event_list(views.take(k as int)),
            c.state_data@ == state_data(views.take(k as int)),
            c.event_data@ == event_data(views.take(k as int)),
        decreases clauses.len() - k,
    {
        let clause = &clauses[k];
        proof {
            let next = views.take(k + 1);
            assert(next.drop_last() =~= views.take(k as int));
            assert(next.last() == clause@);
            assert(views[k as int] == clause@);
        }
        match c.state_data.collect(clause.in_state.as_str(), &clause.in_state_data) {
            Some(clash) => {
                proof {
                    lemma_first_data_error_stays(views, k + 1, clauses@.len() as int);
                }
                return Err(state_error_for(clash, k));
            },
            None => {},
        }
        match c.state_data.collect(clause.out_state.as_str(), &clause.out_state_data) {
            Some(clash) => {
                proof {
                    lemma_first_data_error_stays(views, k + 1, clauses@.len() as int);
                }
                return Err(state_error_for(clash, k));
            },
            None => {},
        }
        match c.event_data.collect(clause.event.as_str(), &clause.event_data) {
            Some(clash) => {
                proof {
                    lemma_first_data_error_stays(views, k + 1, clauses@.len() as int);
                }
                return Err(event_error_for(clash, k));
            },
            None => {},
        }
        insert_name(&mut c.states, clause.in_state.as_str());
        insert_name(&mut c.states, clause.out_state.as_str());
        insert_name(&mut c.events, clause.event.as_str());
        k += 1;
    }
    proof {
        assert(views.take(k as int) =~= views);
    }
    Ok(c)
}

/// An error among the first clauses is the first error among more clauses.
proof fn lemma_first_data_error_stays(clauses: Seq<StateTransitionView>, n: int, m: int)
    requires
        0 <= n <= m,
        first_data_error(clauses, n) is Some,
    ensures
        first_data_error(clauses, m) == first_data_error(clauses, n),
    decreases m - n,
{
    if n < m {
        lemma_first_data_error_stays(clauses, n, m - 1);
    }
}

/// For each clause, whether it marks a starting state.
pub open spec fn start_flags(clauses: Seq<StateTransitionView>) -> Seq<bool> {
    Seq::new(clauses.len(), |k: int| clauses[k].start)
}

/// What is wrong with the starting state: no clause marks one, or two
/// clauses mark different states.
pub open spec fn start_error(clauses: Seq<StateTransitionView>) -> Option<DefinitionError> {
    match start_flags(clauses).index_of_first(true) {
        None => Some(DefinitionError::NoStartingState),
        Some(i) => if exists|k: int|
            0 <= k < clauses.len() && (#[trigger] clauses[k]).start && clauses[k].in_state
                != clauses[i].in_state {
            Some(DefinitionError::MultipleStartingStates)
        } else {
            None
        },
    }
}

/// The starting state: the state of the first clause that marks one.
pub open spec fn starting_state(clauses: Seq<StateTransitionView>) -> Seq<char> {
    match start_flags(clauses).index_of_first(true) {
        Some(i) => clauses[i].in_state,
        None => Seq::empty(),
    }
}

/// Whether two clauses define a transition for the same state and event.
pub open spec fn same_pair(a: StateTransitionView, b: StateTransitionView) -> bool {
    a.in_state == b.in_state && a.event == b.event
}

/// Whether the clauses `a` and `b` name the same guard and use it
/// differently: one awaits it and the other does not, or the data of their
/// states or of their events differ in type.
pub open spec fn guard_clash(
    states: DataDefinitionsView,
    events: DataDefinitionsView,
    a: StateTransitionView,
    b: StateTransitionView,
) -> bool {
    &&& a.guard is Some
    &&& b.guard is Some
    &&& a.guard->0.ident == b.guard->0.ident
    &&& !(a.guard->0.is_async == b.guard->0.is_async && states.data_type(a.in_state)
        == states.data_type(b.in_state) && events.data_type(a.event) == events.data_type(b.event))
}

/// Whether the clauses `a` and `b` name the same action and use it
/// differently: one awaits it and the other does not, or the data of their
/// states, of their events or of their target states differ in type.
pub open spec fn action_clash(
    states: DataDefinitionsView,
    events: DataDefinitionsView,
    a: StateTransitionView,
    b: StateTransitionView,
) -> bool {
    &&& a.action is Some
    &&& b.action is Some
    &&& a.action->0.ident == b.action->0.ident
    &&& !(a.action->0.is_async == b.action->0.is_async && states.data_type(a.in_state)
        == states.data_type(b.in_state) && events.data_type(a.event) == events.data_type(b.event)
        && states.data_type(a.out_state) == states.data_type(b.out_state))
}

/// What is wrong with the transition of the clause at `k`, given the clauses
/// before it and the data of all the states and events.
pub open spec fn transition_error(clauses: Seq<StateTransitionView>, k: int) -> Option<
    DefinitionError,
> {
    let states = state_data(clauses);
    let events = event_data(clauses);
    let c = clauses[k];
    if exists|j: int| 0 <= j < k && same_pair(#[trigger] clauses[j], c) {
        Some(DefinitionError::DuplicateTransition(k as usize))
    } else if states.data_type(c.out_state) is Some && c.action is None {
        Some(DefinitionError::MissingAction(k as usize))
    } else if exists|j: int| 0 <= j < k && guard_clash(states, events, #[trigger] clauses[j], c) {
        Some(DefinitionError::IncompatibleGuard(k as usize))
    } else if exists|j: int| 0 <= j < k && action_clash(states, events, #[trigger] clauses[j], c) {
        Some(DefinitionError::IncompatibleAction(k as usize))
    } else {
        None
    }
}

/// The first error in the transitions of the first `n` clauses.
pub open spec fn first_transition_error(clauses: Seq<StateTransitionView>, n: int) -> Option<
    DefinitionError,
>
    decreases n,
{
    if n <= 0 {
        None
    } else {
        match first_transition_error(clauses, n - 1) {
            Some(e) => Some(e),
            None => transition_error(clauses, n - 1),
        }
    }
}

/// The transition that a clause defines.
pub open spec fn mapping_of(c: StateTransitionView) -> EventMappingView {
    EventMappingView {
        in_state: c.in_state,
        event: c.event,
        guard: c.guard,
        action: c.action,
        out_state: c.out_state,
    }
}

/// The transitions that the clauses define from `state`, in their order.
pub open spec fn mappings_from(clauses: Seq<StateTransitionView>, state: Seq<char>) -> Seq<
    EventMappingView,
>
    decreases clauses.len(),
{
    if clauses.len() == 0 {
        Seq::empty()
    } else {
        let earlier = mappings_from(clauses.drop_last(), state);
        if clauses.last().in_state == state {
            earlier.push(mapping_of(clauses.last()))
        } else {
            earlier
        }
    }
}

/// The transition table: for each state the transitions from it.
pub open spec fn table(clauses: Seq<StateTransitionView>, states: Seq<Seq<char>>) -> Seq<
    StateEventsView,
> {
    Seq::new(
        states.len(),
        |i: int| StateEventsView { state: states[i], events: mappings_from(clauses, states[i]) },
    )
}

/// What is wrong with a definition, if anything is: with its starting state,
/// else with its temporary context, else with the data of its clauses, else
/// with their transitions.
pub open spec fn definition_error(d: DefinitionView) -> Option<DefinitionError> {
    let n = d.transitions.len() as int;
    if start_error(d.transitions) is Some {
        start_error(d.transitions)
    } else if d.temporary_context_type is Some && read_as_type(d.temporary_context_type->0)
        is None {
        Some(DefinitionError::InvalidTemporaryContext)
    } else if first_data_error(d.transitions, n) is Some {
        first_data_error(d.transitions, n)
    } else {
        first_transition_error(d.transitions, n)
    }
}

/// The machine that a definition without errors defines.
pub open spec fn resolved(d: DefinitionView) -> ParsedStateMachineView {
    ParsedStateMachineView {
        name: d.name,
        derive_states: d.derive_states,
        derive_events: d.derive_events,
        temporary_context_type: match d.temporary_context_type {
            Some(text) => read_as_type(text),
            None => None,
        },
        custom_guard_error: d.custom_guard_error,
        states: state_list(d.transitions),
        starting_state: starting_state(d.transitions),
        state_data: state_data(d.transitions),
        events: event_list(d.transitions),
        event_data: event_data(d.transitions),
        states_events_mapping: table(d.transitions, state_list(d.transitions)),
    }
}

fn find_start(clauses: &Vec<StateTransition>) -> (res: Result<usize, DefinitionError>)
    ensures
        match res {
            Ok(i) => start_error(clause_views(clauses@)) is None && i < clauses@.len()
                && start_flags(clause_views(clauses@)).index_of_first(true) == Some(i as int),
            Err(e) => start_error(clause_views(clauses@)) == Some(e),
        },
{
    let ghost views = clause_views(clauses@);
    let ghost flags = start_flags(views);
    let mut i: usize = 0;
    while i < clauses.len() && !clauses[i].start
        invariant
            i <= clauses.len(),
            views == clause_views(clauses@),
            flags == start_flags(views),
            forall|k: int| 0 <= k < i ==> !flags[k],
        decreases clauses.len() - i,
    {
        i += 1;
    }
    proof {
        flags.index_of_first_ensures(true);
    }
    if i == clauses.len() {
        return Err(DefinitionError::NoStartingState);
    }
    assert(flags[i as int]);
    assert forall|j: int| 0 <= j < i + 1 && (#[trigger] views[j]).start implies views[j].in_state
        == views[i as int].in_state by {
        assert(flags[j] == views[j].start);
    }
    let mut k: usize = i + 1;
    while k < clauses.len()
        invariant
            i < k <= clauses.len(),
            views == clause_views(clauses@),
            flags == start_flags(views),
            flags.index_of_first(true) == Some(i as int),
            forall|j: int|
                0 <= j < k && (#[trigger] views[j]).start ==> views[j].in_state
                    == views[i as int].in_state,
        decreases clauses.len() - k,
    {
        if clauses[k].start && !same_text(
            clauses[k].in_state.as_str(),
            clauses[i].in_state.as_str(),
        ) {
            assert(views[k as int].start && views[k as int].in_state != views[i as int].in_state);
            return Err(DefinitionError::MultipleStartingStates);
        }
        k += 1;
    }
    Ok(i)
}

fn same_data(a: Option<&NamedType>, b: Option<&NamedType>) -> (res: bool)
    ensures
        res == (match a {
            Some(e) => Some(e@.data_type),
            None => None,
        } == match b {
            Some(e) => Some(e@.data_type),
            None => None,
        }),
{
    match a {
        Some(x) => match b {
            Some(y) => x.data_type.same(&y.data_type),
            None => false,
        },
        None => b.is_none(),
    }
}

fn same_use(
    states: &DataDefinitions,
    events: &DataDefinitions,
    a: &StateTransition,
    b: &StateTransition,
    with_target: bool,
) -> (res: bool)
    ensures
        res == (states@.data_type(a@.in_state) == states@.data_type(b@.in_state)
            && events@.data_type(a@.event) == events@.data_type(b@.event) && (with_target
            ==> states@.data_type(a@.out_state) == states@.data_type(b@.out_state))),
{
    same_data(states.get(a.in_state.as_str()), states.get(b.in_state.as_str())) && same_data(
        events.get(a.event.as_str()),
        events.get(b.event.as_str()),
    ) && (!with_target || same_data(
        states.get(a.out_state.as_str()),
        states.get(b.out_state.as_str()),
    ))
}

fn check_guard_clash(
    states: &DataDefinitions,
    events: &DataDefinitions,
    a: &StateTransition,
    b: &StateTransition,
) -> (res: bool)
    ensures
        res == guard_clash(states@, events@, a@, b@),
{
    match (&a.guard, &b.guard) {
        (Some(x), Some(y)) => same_text(x.ident.as_str(), y.ident.as_str()) && !(x.is_async
            == y.is_async && same_use(states, events, a, b, false)),
        _ => false,
    }
}

fn check_action_clash(
    states: &DataDefinitions,
    events: &DataDefinitions,
    a: &StateTransition,
    b: &StateTransition,
) -> (res: bool)
    ensures
        res == action_clash(states@, events@, a@, b@),
{
    match (&a.action, &b.action) {
        (Some(x), Some(y)) => same_text(x.ident.as_str(), y.ident.as_str()) && !(x.is_async
            == y.is_async && same_use(states, events, a, b, true)),
        _ => false,
    }
}

fn check_transition(
    clauses: &Vec<StateTransition>,
    states: &DataDefinitions,
    events: &DataDefinitions,
    k: usize,
) -> (res: Option<DefinitionError>)
    requires
        k < clauses@.len(),
        states@ == state_data(clause_views(clauses@)),
        events@ == event_data(clause_views(clauses@)),
    ensures
        res == transition_error(clause_views(clauses@), k as int),
{
    let ghost views = clause_views(clauses@);
    let c = &clauses[k];
    assert(views[k as int] == c@);
    let mut duplicate = false;
    let mut guard = false;
    let mut action = false;
    let mut j: usize = 0;
    while j < k
        invariant
            j <= k < clauses@.len(),
            views == clause_views(clauses@),
            c@ == views[k as int],
            duplicate == exists|i: int| 0 <= i < j && same_pair(#[trigger] views[i], c@),
            guard == exists|i: int|
                0 <= i < j && guard_clash(states@, events@, #[trigger] views[i], c@),
            action == exists|i: int|
                0 <= i < j && action_clash(states@, events@, #[trigger] views[i], c@),
        decreases k - j,
    {
        let earlier = &clauses[j];
        assert(views[j as int] == earlier@);
        if same_text(earlier.in_state.as_str(), c.in_state.as_str()) && same_text(
            earlier.event.as_str(),
            c.event.as_str(),
        ) {
            duplicate = true;
        }
        if check_guard_clash(states, events, earlier, c) {
            guard = true;
        }
        if check_action_clash(states, events, earlier, c) {
            action = true;
        }
        j += 1;
    }
    if duplicate {
        Some(DefinitionError::DuplicateTransition(k))
    } else if states.get(c.out_state.as_str()).is_some() && c.action.is_none() {
        Some(DefinitionError::MissingAction(k))
    } else if guard {
        Some(DefinitionError::IncompatibleGuard(k))
    } else if action {
        Some(DefinitionError::IncompatibleAction(k))
    } else {
        None
    }
}

proof fn lemma_first_transition_error_stays(clauses: Seq<StateTransitionView>, n: int, m: int)
    requires
        0 <= n <= m,
        first_transition_error(clauses, n) is Some,
    ensures
        first_transition_error(clauses, m) == first_transition_error(clauses, n),
    decreases m - n,
{
    if n < m {
        lemma_first_transition_error_stays(clauses, n, m - 1);
    }
}

fn check_transitions(
    clauses: &Vec<StateTransition>,
    states: &DataDefinitions,
    events: &DataDefinitions,
) -> (res: Option<DefinitionError>)
    requires
        states@ == state_data(clause_views(clauses@)),
        events@ == event_data(clause_views(clauses@)),
    ensures
        res == first_transition_error(clause_views(clauses@), clauses@.len() as int),
{
    let ghost views = clause_views(clauses@);
    let mut k: usize = 0;
    while k < clauses.len()
        invariant
            k <= clauses.len(),
            views == clause_views(clauses@),
            states@ == state_data(views),
            events@ == event_data(views),
            first_transition_error(views, k as int) is None,
        decreases clauses.len() - k,
    {
        match check_transition(clauses, states, events, k) {
            Some(e) => {
                proof {
                    lemma_first_transition_error_stays(views, k + 1, clauses@.len() as int);
                }
                return Some(e);
            },
            None => {},
        }
        k += 1;
    }
    None
}

fn clone_ident(a: &Option<AsyncIdent>) -> (res: Option<AsyncIdent>)
    ensures
        ident_view(res) == ident_view(*a),
{
    match a {
        Some(i) => Some(AsyncIdent { ident: i.ident.clone(), is_async: i.is_async }),
        None => None,
    }
}

fn make_mapping(c: &StateTransition) -> (res: EventMapping)
    ensures
        res@ == mapping_of(c@),
{
    EventMapping {
        in_state: c.in_state.clone(),
        event: c.event.clone(),
        guard: clone_ident(&c.guard),
        action: clone_ident(&c.action),
        out_state: c.out_state.clone(),
    }
}

fn make_mappings_from(clauses: &Vec<StateTransition>, state: &str) -> (res: Vec<EventMapping>)
    ensures
        Seq::new(res@.len(), |i: int| res@[i]@) == mappings_from(clause_views(clauses@), state@),
{
    let ghost views = clause_views(clauses@);
    let mut res: Vec<EventMapping> = Vec::new();
    let mut k: usize = 0;
    proof {
        assert(views.take(0) =~= Seq::<StateTransitionView>::empty());
        assert(Seq::new(res@.len(), |i: int| res@[i]@) =~= Seq::<EventMappingView>::empty());
    }
    while k < clauses.len()
        invariant
            k <= clauses.len(),
            views == clause_views(clauses@),
            Seq::new(res@.len(), |i: int| res@[i]@) == mappings_from(views.take(k as int), state@),
        decreases clauses.len() - k,
    {
        let c = &clauses[k];
        let ghost before = Seq::new(res@.len(), |i: int| res@[i]@);
        proof {
            let next = views.take(k + 1);
            assert(next.drop_last() =~= views.take(k as int));
            assert(next.last() == c@);
        }
        if same_text(c.in_state.as_str(), state) {
            let mapping = make_mapping(c);
            res.push(mapping);
            assert(Seq::new(res@.len(), |i: int| res@[i]@) =~= before.push(mapping@));
        }
        k += 1;
    }
    proof {
        assert(views.take(k as int) =~= views);
    }
    res
}

fn make_table(clauses: &Vec<StateTransition>, states: &Vec<String>) -> (res: Vec<StateEvents>)
    ensures
        crate::model::mapping_view(res@) == table(clause_views(clauses@), texts(states@)),
{
    let mut res: Vec<StateEvents> = Vec::new();
    let mut i: usize = 0;
    while i < states.len()
        invariant
            i <= states.len(),
            res@.len() == i,
            forall|k: int|
                0 <= k < i ==> (#[trigger] res@[k])@ == table(
                    clause_views(clauses@),
                    texts(states@),
                )[k],
        decreases states.len() - i,
    {
        let events = make_mappings_from(clauses, states[i].as_str());
        let entry = StateEvents { state: states[i].clone(), events };
        assert(entry@.events =~= mappings_from(clause_views(clauses@), states@[i as int]@));
        res.push(entry);
        i += 1;
    }
    assert(crate::model::mapping_view(res@) =~= table(clause_views(clauses@), texts(states@)));
    res
}

impl ParsedStateMachine {
    /// Resolves a definition: reports what is wrong with it, or builds the
    /// machine that it defines.
    pub fn new(d: Definition) -> (res: Result<ParsedStateMachine, DefinitionError>)
        ensures
            match res {
                Ok(m) => definition_error(d@) is None && m@ == resolved(d@) && m.wf(),
                Err(e) => definition_error(d@) == Some(e),
            },
    {
        proof {
            if definition_error(d@) is None {
                crate::definition_laws::lemma_resolved_is_well_formed(d@);
            }
        }
        let start = match find_start(&d.transitions) {
            Ok(i) => i,
            Err(e) => {
                return Err(e);
            },
        };
        let temporary_context_type = match &d.temporary_context_type {
            Some(text) => match DataType::parse(text.as_str()) {
                Some(t) => Some(t),
                None => {
                    return Err(DefinitionError::InvalidTemporaryContext);
                },
            },
            None => None,
        };
        let collected = match collect_data(&d.transitions) {
            Ok(c) => c,
            Err(e) => {
                return Err(e);
            },
        };
        match check_transitions(&d.transitions, &collected.state_data, &collected.event_data) {
            Some(e) => {
                return Err(e);
            },
            None => {},
        }
        let states_events_mapping = make_table(&d.transitions, &collected.states);
        let starting_state = d.transitions[start].in_state.clone();
        let m = ParsedStateMachine {
            name: d.name,
            derive_states: d.derive_states,
            derive_events: d.derive_events,
            temporary_context_type,
            custom_guard_error: d.custom_guard_error,
            states: collected.states,
            starting_state,
            state_data: collected.state_data,
            events: collected.events,
            event_data: collected.event_data,
            states_events_mapping,
        };
        Ok(m)
    }
}

} // verus!

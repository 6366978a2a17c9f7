//! A resolved definition: the states and events of a machine, the data that
//! they carry, and its table of transitions.

use crate::text::{same_text, texts};
use crate::tokens::{parsed_type, read_type};
use vstd::prelude::*;

verus! {

/// The name of a guard or an action, and whether it is awaited.
pub struct AsyncIdent {
    pub ident: String,
    pub is_async: bool,
}

/// A guard or an action, as contracts speak of it.
pub struct AsyncIdentView {
    pub ident: Seq<char>,
    pub is_async: bool,
}

impl View for AsyncIdent {
    type V = AsyncIdentView;

    open spec fn view(&self) -> AsyncIdentView {
        AsyncIdentView { ident: self.ident@, is_async: self.is_async }
    }
}

/// The view of an optional guard or action.
pub open spec fn ident_view(o: Option<AsyncIdent>) -> Option<AsyncIdentView> {
    match o {
        Some(a) => Some(a@),
        None => None,
    }
}

/// The type of the data that a state or an event carries: its tokens as
/// text, and whether it is a reference type.
pub struct DataType {
    pub tokens: String,
    pub is_reference: bool,
}

/// A data type, as contracts speak of it.
pub struct DataTypeView {
    pub tokens: Seq<char>,
    pub is_reference: bool,
}

impl View for DataType {
    type V = DataTypeView;

    open spec fn view(&self) -> DataTypeView {
        DataTypeView { tokens: self.tokens@, is_reference: self.is_reference }
    }
}

impl DataType {
    /// Reads a type from its text. The result holds the type's tokens as they
    /// are printed, so that two texts of one type give equal results.
    pub fn parse(text: &str) -> (res: Option<DataType>)
        ensures
            match parsed_type(text@) {
                Some((tokens, is_reference)) => res is Some && res->0@ == (DataTypeView {
                    tokens,
                    is_reference,
                }),
                None => res is None,
            },
    {
        match read_type(text) {
            Some((tokens, is_reference)) => Some(DataType { tokens, is_reference }),
            None => None,
        }
    }

    /// Whether the two are the same type: whether they print alike.
    pub fn same(&self, other: &DataType) -> (res: bool)
        ensures
            res == (self@ == other@),
    {
        same_text(self.tokens.as_str(), other.tokens.as_str()) && self.is_reference
            == other.is_reference
    }
}

/// The view of an optional data type.
pub open spec fn type_view(o: Option<DataType>) -> Option<DataTypeView> {
    match o {
        Some(t) => Some(t@),
        None => None,
    }
}

/// One transition: from `in_state`, on `event`, through the guard and the
/// action where there are any, to `out_state`.
pub struct EventMapping {
    pub in_state: String,
    pub event: String,
    pub guard: Option<AsyncIdent>,
    pub action: Option<AsyncIdent>,
    pub out_state: String,
}

/// A transition, as contracts speak of it.
pub struct EventMappingView {
    pub in_state: Seq<char>,
    pub event: Seq<char>,
    pub guard: Option<AsyncIdentView>,
    pub action: Option<AsyncIdentView>,
    pub out_state: Seq<char>,
}

impl View for EventMapping {
    type V = EventMappingView;

    open spec fn view(&self) -> EventMappingView {
        EventMappingView {
            in_state: self.in_state@,
            event: self.event@,
            guard: ident_view(self.guard),
            action: ident_view(self.action),
            out_state: self.out_state@,
        }
    }
}

/// The transitions that leave one state, in the order of their definition.
pub struct StateEvents {
    pub state: String,
    pub events: Vec<EventMapping>,
}

/// The transitions that leave one state, as contracts speak of them.
pub struct StateEventsView {
    pub state: Seq<char>,
    pub events: Seq<EventMappingView>,
}

impl View for StateEvents {
    type V = StateEventsView;

    open spec fn view(&self) -> StateEventsView {
        StateEventsView {
            state: self.state@,
            events: Seq::new(self.events@.len(), |i: int| self.events@[i]@),
        }
    }
}

/// The events of each transition of a list.
pub open spec fn event_names(events: Seq<EventMappingView>) -> Seq<Seq<char>> {
    Seq::new(events.len(), |i: int| events[i].event)
}

/// The state of each entry of a list.
pub open spec fn state_names(mapping: Seq<StateEventsView>) -> Seq<Seq<char>> {
    Seq::new(mapping.len(), |i: int| mapping[i].state)
}

impl StateEvents {
    /// The place of the first transition on `event`, if there is one.
    pub fn find(&self, event: &str) -> (res: Option<usize>)
        ensures
            match res {
                Some(i) => i < self.events.len() && event_names(self@.events).index_of_first(event@) == Some(i as int),
                None => event_names(self@.events).index_of_first(event@) is None,
            },
    {
        let ghost names = event_names(self@.events);
        proof {
            names.index_of_first_ensures(event@);
        }
        let mut i: usize = 0;
        while i < self.events.len()
            invariant
                i <= self.events.len(),
                names == event_names(self@.events),
                forall|k: int| 0 <= k < i ==> names[k] != event@,
            decreases self.events.len() - i,
        {
            if same_text(self.events[i].event.as_str(), event) {
                assert(names[i as int] == event@);
                proof {
                    names.index_of_first_ensures(event@);
                }
                return Some(i);
            }
            i += 1;
        }
        proof {
            names.index_of_first_ensures(event@);
        }
        None
    }
}

/// The place of the first string of `names` that equals `name`, if there is one.
pub fn find_name(names: &Vec<String>, name: &str) -> (res: Option<usize>)
    ensures
        match res {
            Some(i) => i < names.len() && texts(names@).index_of_first(name@) == Some(i as int),
            None => texts(names@).index_of_first(name@) is None,
        },
{
    let ghost all = texts(names@);
    proof {
        all.index_of_first_ensures(name@);
    }
    let mut i: usize = 0;
    while i < names.len()
        invariant
            i <= names.len(),
            all == texts(names@),
            forall|k: int| 0 <= k < i ==> all[k] != name@,
        decreases names.len() - i,
    {
        if same_text(names[i].as_str(), name) {
            assert(all[i as int] == name@);
            proof {
                all.index_of_first_ensures(name@);
            }
            return Some(i);
        }
        i += 1;
    }
    proof {
        all.index_of_first_ensures(name@);
    }
    None
}

/// The place of the first entry for `state`, if there is one.
pub fn find_state(mapping: &Vec<StateEvents>, state: &str) -> (res: Option<usize>)
    ensures
        match res {
            Some(i) => i < mapping.len() && state_names(mapping_view(mapping@)).index_of_first(state@) == Some(i as int),
            None => state_names(mapping_view(mapping@)).index_of_first(state@) is None,
        },
{
    let ghost names = state_names(mapping_view(mapping@));
    proof {
        names.index_of_first_ensures(state@);
    }
    let mut i: usize = 0;
    while i < mapping.len()
        invariant
            i <= mapping.len(),
            names == state_names(mapping_view(mapping@)),
            forall|k: int| 0 <= k < i ==> names[k] != state@,
        decreases mapping.len() - i,
    {
        if same_text(mapping[i].state.as_str(), state) {
            assert(names[i as int] == state@);
            proof {
                names.index_of_first_ensures(state@);
            }
            return Some(i);
        }
        i += 1;
    }
    proof {
        names.index_of_first_ensures(state@);
    }
    None
}

/// The view of each entry of a transition table.
pub open spec fn mapping_view(mapping: Seq<StateEvents>) -> Seq<StateEventsView> {
    Seq::new(mapping.len(), |i: int| mapping[i]@)
}

/// A list of lifetimes, each written with its apostrophe, none of them twice.
pub struct Lifetimes {
    pub lifetimes: Vec<String>,
}

impl View for Lifetimes {
    type V = Seq<Seq<char>>;

    open spec fn view(&self) -> Seq<Seq<char>> {
        texts(self.lifetimes@)
    }
}

/// `s`, with `x` at its end unless `s` holds it already.
pub open spec fn inserted(s: Seq<Seq<char>>, x: Seq<char>) -> Seq<Seq<char>> {
    if s.contains(x) {
        s
    } else {
        s.push(x)
    }
}

/// `s`, with each item of `other` inserted in turn.
pub open spec fn extended(s: Seq<Seq<char>>, other: Seq<Seq<char>>) -> Seq<Seq<char>>
    decreases other.len(),
{
    if other.len() == 0 {
        s
    } else {
        inserted(extended(s, other.drop_last()), other.last())
    }
}

/// The items of `s` that `other` does not hold, in their order.
pub open spec fn without(s: Seq<Seq<char>>, other: Seq<Seq<char>>) -> Seq<Seq<char>> {
    s.filter(|x: Seq<char>| !other.contains(x))
}

/// Inserting keeps a list free of duplicates, and keeps what it held.
pub proof fn lemma_inserted(s: Seq<Seq<char>>, x: Seq<char>)
    ensures
        s.no_duplicates() ==> inserted(s, x).no_duplicates(),
        inserted(s, x).contains(x),
        forall|y: Seq<char>| inserted(s, x).contains(y) <==> (s.contains(y) || y == x),
{
    let r = inserted(s, x);
    if !s.contains(x) {
        assert(r[s.len() as int] == x);
        assert forall|y: Seq<char>| s.contains(y) implies r.contains(y) by {
            let i = choose|i: int| 0 <= i < s.len() && s[i] == y;
            assert(r[i] == y);
        }
    }
}

/// Extending keeps a list free of duplicates, and holds what either list held.
pub proof fn lemma_extended(s: Seq<Seq<char>>, other: Seq<Seq<char>>)
    ensures
        s.no_duplicates() ==> extended(s, other).no_duplicates(),
        forall|y: Seq<char>| extended(s, other).contains(y) <==> (s.contains(y) || other.contains(y)),
    decreases other.len(),
{
    if other.len() > 0 {
        let before = extended(s, other.drop_last());
        lemma_extended(s, other.drop_last());
        lemma_inserted(before, other.last());
        assert forall|y: Seq<char>| other.contains(y) <==> (other.drop_last().contains(y) || y == other.last()) by {
            if other.contains(y) {
                let i = choose|i: int| 0 <= i < other.len() && other[i] == y;
                if i < other.len() - 1 {
                    assert(other.drop_last()[i] == y);
                }
            }
            if other.drop_last().contains(y) {
                let i = choose|i: int| 0 <= i < other.drop_last().len() && other.drop_last()[i] == y;
                assert(other[i] == y);
            }
            if y == other.last() {
                assert(other[other.len() - 1] == y);
            }
        }
    }
}

/// Adds `name` at the end of `names` unless the list holds it already.
pub fn insert_name(names: &mut Vec<String>, name: &str)
    ensures
        texts(final(names)@) == inserted(texts(old(names)@), name@),
{
    let found = find_name(names, name);
    proof {
        texts(names@).index_of_first_ensures(name@);
    }
    if found.is_none() {
        names.push(String::from_str(name));
        assert(texts(names@) =~= texts(old(names)@).push(name@));
    }
}

/// What is left of a list without the items of another: the items of the
/// first that the other does not hold, each as often as before.
pub proof fn lemma_without(s: Seq<Seq<char>>, other: Seq<Seq<char>>)
    ensures
        forall|x: Seq<char>| without(s, other).contains(x) <==> (s.contains(x) && !other.contains(x)),
        s.no_duplicates() ==> without(s, other).no_duplicates(),
    decreases s.len(),
{
    reveal(Seq::filter);
    let pred = |x: Seq<char>| !other.contains(x);
    if s.len() > 0 {
        let rest = s.drop_last();
        let last = s.last();
        lemma_without(rest, other);
        assert forall|x: Seq<char>| without(s, other).contains(x) <==> (s.contains(x)
            && !other.contains(x)) by {
            if s.contains(x) {
                let i = choose|i: int| 0 <= i < s.len() && s[i] == x;
                if i < s.len() - 1 {
                    assert(rest[i] == x);
                }
            }
            if rest.contains(x) {
                let i = choose|i: int| 0 <= i < rest.len() && rest[i] == x;
                assert(s[i] == x);
            }
            assert(s[s.len() - 1] == last);
            if pred(last) {
                let f = rest.filter(pred);
                assert(without(s, other) == f.push(last));
                if f.contains(x) {
                    let i = choose|i: int| 0 <= i < f.len() && f[i] == x;
                    assert(f.push(last)[i] == x);
                }
                assert(f.push(last)[f.len() as int] == last);
            }
        }
        if s.no_duplicates() && pred(last) {
            assert(rest.no_duplicates()) by {
                assert forall|i: int, j: int|
                    0 <= i < rest.len() && 0 <= j < rest.len() && i != j implies rest[i]
                    != rest[j] by {
                    assert(s[i] != s[j]);
                }
            }
            let f = rest.filter(pred);
            if f.contains(last) {
                let i = choose|i: int| 0 <= i < rest.len() && rest[i] == last;
                assert(s[i] == s[s.len() - 1]);
            }
            lemma_inserted(f, last);
        } else if s.no_duplicates() {
            assert forall|i: int, j: int|
                0 <= i < rest.len() && 0 <= j < rest.len() && i != j implies rest[i] != rest[j] by {
                assert(s[i] != s[j]);
            }
        }
    }
}

impl Lifetimes {
    /// The empty list.
    pub fn new() -> (res: Lifetimes)
        ensures
            res@ == Seq::<Seq<char>>::empty(),
    {
        let res = Lifetimes { lifetimes: Vec::new() };
        assert(res@ =~= Seq::<Seq<char>>::empty());
        res
    }

    /// Whether the list holds `lifetime`.
    pub fn contains(&self, lifetime: &str) -> (res: bool)
        ensures
            res == self@.contains(lifetime@),
    {
        match find_name(&self.lifetimes, lifetime) {
            Some(i) => {
                proof {
                    self@.index_of_first_ensures(lifetime@);
                }
                true
            },
            None => {
                proof {
                    self@.index_of_first_ensures(lifetime@);
                }
                false
            },
        }
    }

    /// Adds `lifetime` unless the list holds it already.
    pub fn insert(&mut self, lifetime: &str)
        ensures
            final(self)@ == inserted(old(self)@, lifetime@),
    {
        insert_name(&mut self.lifetimes, lifetime);
    }

    /// Adds each lifetime of `other` that the list does not hold yet.
    pub fn extend(&mut self, other: &Lifetimes)
        ensures
            final(self)@ == extended(old(self)@, other@),
    {
        let mut i: usize = 0;
        assert(other@.take(0) =~= Seq::<Seq<char>>::empty());
        while i < other.lifetimes.len()
            invariant
                i <= other.lifetimes.len(),
                self@ == extended(old(self)@, other@.take(i as int)),
            decreases other.lifetimes.len() - i,
        {
            self.insert(other.lifetimes[i].as_str());
            proof {
                let next = other@.take(i + 1);
                assert(next.drop_last() =~= other@.take(i as int));
                assert(next.last() == other.lifetimes@[i as int]@);
            }
            i += 1;
        }
        assert(other@.take(i as int) =~= other@);
    }

    /// The lifetimes of this list that `other` does not hold.
    pub fn minus(&self, other: &Lifetimes) -> (res: Lifetimes)
        ensures
            res@ == without(self@, other@),
    {
        let mut res = Lifetimes::new();
        let ghost pred = |x: Seq<char>| !other@.contains(x);
        let mut i: usize = 0;
        proof {
            assert(self@.take(0) =~= Seq::<Seq<char>>::empty());
            reveal(Seq::filter);
        }
        while i < self.lifetimes.len()
            invariant
                i <= self.lifetimes.len(),
                pred == |x: Seq<char>| !other@.contains(x),
                res@ == self@.take(i as int).filter(pred),
            decreases self.lifetimes.len() - i,
        {
            proof {
                reveal(Seq::filter);
                let next = self@.take(i + 1);
                assert(next.drop_last() =~= self@.take(i as int));
                assert(next.last() == self.lifetimes@[i as int]@);
            }
            if !other.contains(self.lifetimes[i].as_str()) {
                res.lifetimes.push(self.lifetimes[i].clone());
                assert(res@ =~= self@.take(i as int).filter(pred).push(self.lifetimes@[i as int]@));
            }
            i += 1;
        }
        assert(self@.take(i as int) =~= self@);
        res
    }
}

/// A state or an event that carries data: its name, the type of the data, and
/// the lifetimes that the type names.
pub struct NamedType {
    pub name: String,
    pub data_type: DataType,
    pub lifetimes: Lifetimes,
}

/// The data of a state or an event, as contracts speak of it.
pub struct NamedTypeView {
    pub name: Seq<char>,
    pub data_type: DataTypeView,
    pub lifetimes: Seq<Seq<char>>,
}

impl View for NamedType {
    type V = NamedTypeView;

    open spec fn view(&self) -> NamedTypeView {
        NamedTypeView { name: self.name@, data_type: self.data_type@, lifetimes: self.lifetimes@ }
    }
}

/// The data types of the states, or of the events, that carry data, and the
/// lifetimes of them all.
pub struct DataDefinitions {
    pub entries: Vec<NamedType>,
    pub all_lifetimes: Lifetimes,
}

/// The data of the states or of the events, as contracts speak of it.
pub struct DataDefinitionsView {
    pub entries: Seq<NamedTypeView>,
    pub all_lifetimes: Seq<Seq<char>>,
}

impl View for DataDefinitions {
    type V = DataDefinitionsView;

    open spec fn view(&self) -> DataDefinitionsView {
        DataDefinitionsView {
            entries: Seq::new(self.entries@.len(), |i: int| self.entries@[i]@),
            all_lifetimes: self.all_lifetimes@,
        }
    }
}

/// The name of each entry of a list.
pub open spec fn type_names(entries: Seq<NamedTypeView>) -> Seq<Seq<char>> {
    Seq::new(entries.len(), |i: int| entries[i].name)
}

impl DataDefinitionsView {
    /// The first entry for `name`, if there is one.
    pub open spec fn entry(self, name: Seq<char>) -> Option<NamedTypeView> {
        match type_names(self.entries).index_of_first(name) {
            Some(i) => Some(self.entries[i]),
            None => None,
        }
    }

    /// The type of the data that `name` carries, if it carries any.
    pub open spec fn data_type(self, name: Seq<char>) -> Option<DataTypeView> {
        match self.entry(name) {
            Some(e) => Some(e.data_type),
            None => None,
        }
    }

    /// The lifetimes that the data type of `name` names.
    pub open spec fn lifetimes(self, name: Seq<char>) -> Seq<Seq<char>> {
        match self.entry(name) {
            Some(e) => e.lifetimes,
            None => Seq::empty(),
        }
    }

    /// What holds of the lifetimes: no list holds a lifetime twice, and the
    /// lifetimes of them all are those of the entries and no others.
    pub open spec fn lifetimes_wf(self) -> bool {
        &&& self.all_lifetimes.no_duplicates()
        &&& forall|i: int|
            0 <= i < self.entries.len() ==> (#[trigger] self.entries[i]).lifetimes.no_duplicates()
        &&& forall|i: int, x: Seq<char>|
            0 <= i < self.entries.len() && (#[trigger] self.entries[i]).lifetimes.contains(x)
                ==> #[trigger] self.all_lifetimes.contains(x)
        &&& forall|x: Seq<char>| #[trigger]
            self.all_lifetimes.contains(x) ==> exists|i: int|
                0 <= i < self.entries.len() && (#[trigger] self.entries[i]).lifetimes.contains(x)
    }
}

impl DataDefinitions {
    /// Definitions without entries.
    pub fn new() -> (res: DataDefinitions)
        ensures
            res@.entries == Seq::<NamedTypeView>::empty(),
            res@.all_lifetimes == Seq::<Seq<char>>::empty(),
    {
        let res = DataDefinitions { entries: Vec::new(), all_lifetimes: Lifetimes::new() };
        assert(res@.entries =~= Seq::<NamedTypeView>::empty());
        res
    }

    /// The first entry for `name`, if there is one.
    pub fn get(&self, name: &str) -> (res: Option<&NamedType>)
        ensures
            match res {
                Some(e) => self@.entry(name@) == Some(e@),
                None => self@.entry(name@) is None,
            },
    {
        let ghost names = type_names(self@.entries);
        let mut i: usize = 0;
        while i < self.entries.len()
            invariant
                i <= self.entries.len(),
                names == type_names(self@.entries),
                forall|k: int| 0 <= k < i ==> names[k] != name@,
            decreases self.entries.len() - i,
        {
            if same_text(self.entries[i].name.as_str(), name) {
                assert(names[i as int] == name@);
                proof {
                    names.index_of_first_ensures(name@);
                }
                return Some(&self.entries[i]);
            }
            i += 1;
        }
        proof {
            names.index_of_first_ensures(name@);
        }
        None
    }
}

/// A state machine's definition, resolved: its states and events, the data
/// that they carry, and for each state the transitions that leave it.
pub struct ParsedStateMachine {
    pub name: Option<String>,
    pub derive_states: Vec<String>,
    pub derive_events: Vec<String>,
    pub temporary_context_type: Option<DataType>,
    pub custom_guard_error: bool,
    pub states: Vec<String>,
    pub starting_state: String,
    pub state_data: DataDefinitions,
    pub events: Vec<String>,
    pub event_data: DataDefinitions,
    pub states_events_mapping: Vec<StateEvents>,
}

/// A resolved definition, as contracts speak of it.
pub struct ParsedStateMachineView {
    pub name: Option<Seq<char>>,
    pub derive_states: Seq<Seq<char>>,
    pub derive_events: Seq<Seq<char>>,
    pub temporary_context_type: Option<DataTypeView>,
    pub custom_guard_error: bool,
    pub states: Seq<Seq<char>>,
    pub starting_state: Seq<char>,
    pub state_data: DataDefinitionsView,
    pub events: Seq<Seq<char>>,
    pub event_data: DataDefinitionsView,
    pub states_events_mapping: Seq<StateEventsView>,
}

impl View for ParsedStateMachine {
    type V = ParsedStateMachineView;

    open spec fn view(&self) -> ParsedStateMachineView {
        ParsedStateMachineView {
            name: match self.name {
                Some(n) => Some(n@),
                None => None,
            },
            derive_states: texts(self.derive_states@),
            derive_events: texts(self.derive_events@),
            temporary_context_type: type_view(self.temporary_context_type),
            custom_guard_error: self.custom_guard_error,
            states: texts(self.states@),
            starting_state: self.starting_state@,
            state_data: self.state_data@,
            events: texts(self.events@),
            event_data: self.event_data@,
            states_events_mapping: mapping_view(self.states_events_mapping@),
        }
    }
}

impl ParsedStateMachineView {
    /// The transitions that leave `state`: those of its first entry.
    pub open spec fn transitions_from(self, state: Seq<char>) -> Seq<EventMappingView> {
        match state_names(self.states_events_mapping).index_of_first(state) {
            Some(i) => self.states_events_mapping[i].events,
            None => Seq::empty(),
        }
    }

    /// The transition that is defined for `state` and `event`, if there is one.
    pub open spec fn transition(self, state: Seq<char>, event: Seq<char>) -> Option<EventMappingView> {
        let from = self.transitions_from(state);
        match event_names(from).index_of_first(event) {
            Some(j) => Some(from[j]),
            None => None,
        }
    }

    /// What a resolved definition keeps: no state, event or data type is
    /// entered twice, the lifetimes of the states and of the events are those
    /// of their data, the starting state is a state, every transition stands
    /// under its own state, names its own event and leads to a state, no state
    /// has two transitions on one event, and a transition into a state that
    /// carries data has an action to produce it.
    pub open spec fn wf(self) -> bool {
        &&& self.states.no_duplicates()
        &&& self.events.no_duplicates()
        &&& self.states.contains(self.starting_state)
        &&& type_names(self.state_data.entries).no_duplicates()
        &&& type_names(self.event_data.entries).no_duplicates()
        &&& self.state_data.lifetimes_wf()
        &&& self.event_data.lifetimes_wf()
        &&& forall|i: int|
            0 <= i < self.state_data.entries.len() ==> self.states.contains(
                #[trigger] self.state_data.entries[i].name,
            )
        &&& forall|i: int|
            0 <= i < self.event_data.entries.len() ==> self.events.contains(
                #[trigger] self.event_data.entries[i].name,
            )
        &&& state_names(self.states_events_mapping).no_duplicates()
        &&& forall|i: int|
            0 <= i < self.states_events_mapping.len() ==> self.states.contains(
                #[trigger] self.states_events_mapping[i].state,
            )
        &&& forall|i: int|
            0 <= i < self.states_events_mapping.len() ==> event_names(
                #[trigger] self.states_events_mapping[i].events,
            ).no_duplicates()
        &&& forall|i: int, j: int|
            0 <= i < self.states_events_mapping.len() && 0 <= j
                < self.states_events_mapping[i].events.len() ==> self.transition_wf(
                self.states_events_mapping[i].state,
                #[trigger] self.states_events_mapping[i].events[j],
            )
    }

    /// What holds of a transition `t` that stands under `state`.
    pub open spec fn transition_wf(self, state: Seq<char>, t: EventMappingView) -> bool {
        &&& t.in_state == state
        &&& self.events.contains(t.event)
        &&& self.states.contains(t.out_state)
        &&& self.state_data.data_type(t.out_state) is Some ==> t.action is Some
    }
}

impl ParsedStateMachine {
    /// Whether the definition is one that a resolved definition can be.
    pub open spec fn wf(&self) -> bool {
        self@.wf()
    }

    /// The transition that is defined for `state` and `event`, if there is one.
    pub fn transition(&self, state: &str, event: &str) -> (res: Option<&EventMapping>)
        ensures
            match res {
                Some(t) => self@.transition(state@, event@) == Some(t@),
                None => self@.transition(state@, event@) is None,
            },
    {
        match find_state(&self.states_events_mapping, state) {
            Some(i) => {
                let entry = &self.states_events_mapping[i];
                match entry.find(event) {
                    Some(j) => Some(&entry.events[j]),
                    None => None,
                }
            },
            None => {
                assert(event_names(Seq::<EventMappingView>::empty()) =~= Seq::<Seq<char>>::empty());
                proof {
                    Seq::<Seq<char>>::empty().index_of_first_ensures(event@);
                }
                None
            },
        }
    }
}

} // verus!

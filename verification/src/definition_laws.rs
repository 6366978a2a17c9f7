//! What holds of every resolved definition: it is well-formed, and a
//! definition that says two things of one state, event or transition is
//! refused.

use crate::definition::{
    action_clash, guard_clash, data_error, declared, definition_error, event_data, event_list, first_data_error,
    first_transition_error, lifetime_mentions, lifetimes_in, mapping_of, mappings_from,
    read_as_type, resolved, same_pair, start_flags, state_data, state_list, transition_error,
    DefinitionView, StateTransitionView,
};
use crate::model::{
    event_names, lemma_extended, lemma_inserted, state_names, type_names, DataDefinitionsView,
};
use vstd::prelude::*;

verus! {

/// Where a name is found first in a list that got one more name.
pub proof fn lemma_index_of_first_push(s: Seq<Seq<char>>, y: Seq<char>, x: Seq<char>)
    ensures
        s.push(y).index_of_first(x) == (if s.contains(x) {
            s.index_of_first(x)
        } else if x == y {
            Some(s.len() as int)
        } else {
            None
        }),
{
    let t = s.push(y);
    s.index_of_first_ensures(x);
    t.index_of_first_ensures(x);
    if s.contains(x) {
        let b = s.index_of_first(x)->0;
        assert(t[b] == x);
        let a = t.index_of_first(x)->0;
        if a < b {
            assert(s[a] == x);
        }
        if b < a {
            assert(t[b] == x);
        }
    } else if x == y {
        assert(t[s.len() as int] == x);
        let a = t.index_of_first(x)->0;
        if a < s.len() {
            assert(s[a] == x);
        }
    } else {
        if t.contains(x) {
            let a = t.index_of_first(x)->0;
            if a < s.len() {
                assert(s[a] == x);
            }
        }
    }
}

/// What data a name has after a clause gave data to `name`: what it had
/// before, and for `name`, where it had none, the type that was given.
pub proof fn lemma_declared(defs: DataDefinitionsView, name: Seq<char>, data: Option<Seq<char>>, x: Seq<char>)
    ensures
        declared(defs, name, data).data_type(x) == (if defs.data_type(x) is Some {
            defs.data_type(x)
        } else if x == name && data is Some {
            read_as_type(data->0)
        } else {
            None
        }),
        type_names(defs.entries).no_duplicates() ==> type_names(
            declared(defs, name, data).entries,
        ).no_duplicates(),
        type_names(declared(defs, name, data).entries).contains(x) ==> type_names(
            defs.entries,
        ).contains(x) || x == name,
{
    let after = declared(defs, name, data);
    let names = type_names(defs.entries);
    names.index_of_first_ensures(x);
    names.index_of_first_ensures(name);
    if after != defs {
        let t = read_as_type(data->0)->0;
        assert(type_names(after.entries) =~= names.push(name));
        lemma_index_of_first_push(names, name, x);
        lemma_inserted(names, name);
        if type_names(after.entries).contains(x) && x != name {
            let i = choose|i: int| 0 <= i < names.push(name).len() && names.push(name)[i] == x;
            assert(names[i] == x);
        }
    }
}

/// The list of the states has no state twice and holds the states of every clause.
pub proof fn lemma_state_list(clauses: Seq<StateTransitionView>)
    ensures
        state_list(clauses).no_duplicates(),
        forall|k: int|
            0 <= k < clauses.len() ==> state_list(clauses).contains(
                (#[trigger] clauses[k]).in_state,
            ) && state_list(clauses).contains(clauses[k].out_state),
    decreases clauses.len(),
{
    if clauses.len() > 0 {
        let c = clauses.last();
        let earlier = state_list(clauses.drop_last());
        lemma_state_list(clauses.drop_last());
        lemma_inserted(earlier, c.in_state);
        lemma_inserted(crate::model::inserted(earlier, c.in_state), c.out_state);
        assert forall|k: int| 0 <= k < clauses.len() implies state_list(clauses).contains(
            (#[trigger] clauses[k]).in_state,
        ) && state_list(clauses).contains(clauses[k].out_state) by {
            if k < clauses.len() - 1 {
                assert(clauses.drop_last()[k] == clauses[k]);
            }
        }
    }
}

/// The list of the events has no event twice and holds the event of every clause.
pub proof fn lemma_event_list(clauses: Seq<StateTransitionView>)
    ensures
        event_list(clauses).no_duplicates(),
        forall|k: int|
            0 <= k < clauses.len() ==> event_list(clauses).contains((#[trigger] clauses[k]).event),
    decreases clauses.len(),
{
    if clauses.len() > 0 {
        let earlier = event_list(clauses.drop_last());
        lemma_event_list(clauses.drop_last());
        lemma_inserted(earlier, clauses.last().event);
        assert forall|k: int| 0 <= k < clauses.len() implies event_list(clauses).contains(
            (#[trigger] clauses[k]).event,
        ) by {
            if k < clauses.len() - 1 {
                assert(clauses.drop_last()[k] == clauses[k]);
            }
        }
    }
}

/// The data of the states has no state twice, and only states of the list.
pub proof fn lemma_state_data(clauses: Seq<StateTransitionView>)
    ensures
        type_names(state_data(clauses).entries).no_duplicates(),
        forall|x: Seq<char>|
            type_names(state_data(clauses).entries).contains(x) ==> state_list(clauses).contains(x),
    decreases clauses.len(),
{
    if clauses.len() > 0 {
        let c = clauses.last();
        let earlier = state_data(clauses.drop_last());
        let middle = declared(earlier, c.in_state, c.in_state_data);
        lemma_state_data(clauses.drop_last());
        lemma_state_list(clauses);
        let listed = state_list(clauses.drop_last());
        lemma_inserted(listed, c.in_state);
        lemma_inserted(crate::model::inserted(listed, c.in_state), c.out_state);
        assert(clauses[clauses.len() - 1] == c);
        assert forall|x: Seq<char>|
            type_names(state_data(clauses).entries).contains(x) implies state_list(
            clauses,
        ).contains(x) by {
            lemma_declared(earlier, c.in_state, c.in_state_data, x);
            lemma_declared(middle, c.out_state, c.out_state_data, x);
            let first = crate::model::inserted(listed, c.in_state);
            if type_names(earlier.entries).contains(x) {
                assert(listed.contains(x));
                assert(first.contains(x));
            } else if x == c.in_state {
                assert(first.contains(x));
            } else {
                assert(x == c.out_state);
            }
            assert(crate::model::inserted(first, c.out_state).contains(x));
        }
        lemma_declared(earlier, c.in_state, c.in_state_data, c.in_state);
        lemma_declared(middle, c.out_state, c.out_state_data, c.in_state);
    } else {
        assert(type_names(state_data(clauses).entries) =~= Seq::<Seq<char>>::empty());
    }
}

/// The data of the events has no event twice, and only events of the list.
pub proof fn lemma_event_data(clauses: Seq<StateTransitionView>)
    ensures
        type_names(event_data(clauses).entries).no_duplicates(),
        forall|x: Seq<char>|
            type_names(event_data(clauses).entries).contains(x) ==> event_list(clauses).contains(x),
    decreases clauses.len(),
{
    if clauses.len() > 0 {
        let c = clauses.last();
        let earlier = event_data(clauses.drop_last());
        lemma_event_data(clauses.drop_last());
        lemma_event_list(clauses);
        lemma_inserted(event_list(clauses.drop_last()), c.event);
        assert(clauses[clauses.len() - 1] == c);
        assert forall|x: Seq<char>|
            type_names(event_data(clauses).entries).contains(x) implies event_list(
            clauses,
        ).contains(x) by {
            lemma_declared(earlier, c.event, c.event_data, x);
            if type_names(earlier.entries).contains(x) {
                assert(event_list(clauses.drop_last()).contains(x));
            } else {
                assert(x == c.event);
            }
            assert(crate::model::inserted(event_list(clauses.drop_last()), c.event).contains(x));
        }
        lemma_declared(earlier, c.event, c.event_data, c.event);
    } else {
        assert(type_names(event_data(clauses).entries) =~= Seq::<Seq<char>>::empty());
    }
}

/// The lifetimes that a text names are named once each.
pub proof fn lemma_lifetimes_in(text: Seq<char>)
    ensures
        lifetimes_in(text).no_duplicates(),
{
    lemma_extended(Seq::empty(), lifetime_mentions(text));
}

/// Data that a clause gives keeps the lifetimes of the definitions those of
/// their entries.
pub proof fn lemma_declared_lifetimes(defs: DataDefinitionsView, name: Seq<char>, data: Option<Seq<char>>)
    requires
        defs.lifetimes_wf(),
    ensures
        declared(defs, name, data).lifetimes_wf(),
{
    let after = declared(defs, name, data);
    if after != defs {
        let t = read_as_type(data->0)->0;
        let new = lifetimes_in(t.tokens);
        lemma_lifetimes_in(t.tokens);
        lemma_extended(defs.all_lifetimes, new);
        let n = defs.entries.len() as int;
        assert(after.entries[n].lifetimes == new);
        assert forall|i: int| 0 <= i < after.entries.len() implies (#[trigger] after.entries[i]).lifetimes.no_duplicates() by {
            if i < n {
                assert(after.entries[i] == defs.entries[i]);
            }
        }
        assert forall|i: int, x: Seq<char>|
            0 <= i < after.entries.len() && (#[trigger] after.entries[i]).lifetimes.contains(
                x,
            ) implies #[trigger] after.all_lifetimes.contains(x) by {
            if i < n {
                assert(after.entries[i] == defs.entries[i]);
                assert(defs.all_lifetimes.contains(x));
            }
        }
        assert forall|x: Seq<char>| #[trigger] after.all_lifetimes.contains(x) implies exists|i: int|
            0 <= i < after.entries.len() && (#[trigger] after.entries[i]).lifetimes.contains(x) by {
            if defs.all_lifetimes.contains(x) {
                let i = choose|i: int|
                    0 <= i < defs.entries.len() && (#[trigger] defs.entries[i]).lifetimes.contains(
                        x,
                    );
                assert(after.entries[i] == defs.entries[i]);
            } else {
                assert(after.entries[n].lifetimes.contains(x));
            }
        }
    }
}

/// The lifetimes of the states are those of the data of the states.
pub proof fn lemma_state_data_lifetimes(clauses: Seq<StateTransitionView>)
    ensures
        state_data(clauses).lifetimes_wf(),
    decreases clauses.len(),
{
    if clauses.len() > 0 {
        let c = clauses.last();
        lemma_state_data_lifetimes(clauses.drop_last());
        let earlier = state_data(clauses.drop_last());
        lemma_declared_lifetimes(earlier, c.in_state, c.in_state_data);
        lemma_declared_lifetimes(
            declared(earlier, c.in_state, c.in_state_data),
            c.out_state,
            c.out_state_data,
        );
    }
}

/// The lifetimes of the events are those of the data of the events.
pub proof fn lemma_event_data_lifetimes(clauses: Seq<StateTransitionView>)
    ensures
        event_data(clauses).lifetimes_wf(),
    decreases clauses.len(),
{
    if clauses.len() > 0 {
        let c = clauses.last();
        lemma_event_data_lifetimes(clauses.drop_last());
        lemma_declared_lifetimes(event_data(clauses.drop_last()), c.event, c.event_data);
    }
}

/// Where the first clauses have no error in their transitions, none of them has.
pub proof fn lemma_no_transition_error(clauses: Seq<StateTransitionView>, n: int, k: int)
    requires
        0 <= k < n,
        first_transition_error(clauses, n) is None,
    ensures
        transition_error(clauses, k) is None,
    decreases n,
{
    if k < n - 1 {
        lemma_no_transition_error(clauses, n - 1, k);
    }
}

/// Where the first clauses have no error in their data, none of them has.
pub proof fn lemma_no_data_error(clauses: Seq<StateTransitionView>, n: int, k: int)
    requires
        0 <= k < n,
        first_data_error(clauses, n) is None,
    ensures
        data_error(clauses, k) is None,
    decreases n,
{
    if k < n - 1 {
        lemma_no_data_error(clauses, n - 1, k);
    }
}

/// Each transition from a state comes from a clause for that state; and
/// where no two of the first `n` clauses are for the same state and event, no
/// two transitions from a state are on the same event.
pub proof fn lemma_mappings_from(clauses: Seq<StateTransitionView>, n: int, state: Seq<char>)
    requires
        0 <= n <= clauses.len(),
    ensures
        forall|i: int|
            0 <= i < mappings_from(clauses.take(n), state).len() ==> exists|k: int|
                0 <= k < n && (#[trigger] clauses[k]).in_state == state && mapping_of(clauses[k])
                    == #[trigger] mappings_from(clauses.take(n), state)[i],
        (forall|j: int, k: int| 0 <= j < k < n ==> !same_pair(clauses[j], clauses[k]))
            ==> event_names(mappings_from(clauses.take(n), state)).no_duplicates(),
    decreases n,
{
    let now = mappings_from(clauses.take(n), state);
    if n > 0 {
        let c = clauses[n - 1];
        assert(clauses.take(n).drop_last() =~= clauses.take(n - 1));
        assert(clauses.take(n).last() == c);
        let earlier = mappings_from(clauses.take(n - 1), state);
        lemma_mappings_from(clauses, n - 1, state);
        assert forall|i: int| 0 <= i < now.len() implies exists|k: int|
            0 <= k < n && (#[trigger] clauses[k]).in_state == state && mapping_of(clauses[k])
                == #[trigger] now[i] by {
            if i < earlier.len() {
                let k = choose|k: int|
                    0 <= k < n - 1 && (#[trigger] clauses[k]).in_state == state && mapping_of(
                        clauses[k],
                    ) == earlier[i];
                assert(0 <= k < n && clauses[k].in_state == state && mapping_of(clauses[k])
                    == now[i]);
            } else {
                assert(clauses[n - 1].in_state == state && mapping_of(clauses[n - 1]) == now[i]);
            }
        }
        if forall|j: int, k: int| 0 <= j < k < n ==> !same_pair(clauses[j], clauses[k]) {
            let names = event_names(now);
            assert forall|a: int, b: int|
                0 <= a < names.len() && 0 <= b < names.len() && a != b implies names[a]
                != names[b] by {
                let old_names = event_names(earlier);
                if a < earlier.len() && b < earlier.len() {
                    assert(old_names[a] == names[a] && old_names[b] == names[b]);
                } else {
                    let low = if a < b {
                        a
                    } else {
                        b
                    };
                    let k = choose|k: int|
                        0 <= k < n - 1 && (#[trigger] clauses[k]).in_state == state && mapping_of(
                            clauses[k],
                        ) == earlier[low];
                    assert(!same_pair(clauses[k], clauses[n - 1]));
                }
            }
        }
    } else {
        assert(event_names(now) =~= Seq::<Seq<char>>::empty());
    }
}

/// A definition without errors defines a well-formed machine.
pub proof fn lemma_resolved_is_well_formed(d: DefinitionView)
    requires
        definition_error(d) is None,
    ensures
        resolved(d).wf(),
{
    let clauses = d.transitions;
    let n = clauses.len() as int;
    let m = resolved(d);
    assert(clauses.take(n) =~= clauses);
    lemma_state_list(clauses);
    lemma_event_list(clauses);
    lemma_state_data(clauses);
    lemma_event_data(clauses);
    lemma_state_data_lifetimes(clauses);
    lemma_event_data_lifetimes(clauses);
    start_flags(clauses).index_of_first_ensures(true);
    let start = start_flags(clauses).index_of_first(true)->0;
    assert(m.states.contains(clauses[start].in_state));
    assert forall|i: int| 0 <= i < m.state_data.entries.len() implies m.states.contains(
        #[trigger] m.state_data.entries[i].name,
    ) by {
        assert(type_names(m.state_data.entries)[i] == m.state_data.entries[i].name);
    }
    assert forall|i: int| 0 <= i < m.event_data.entries.len() implies m.events.contains(
        #[trigger] m.event_data.entries[i].name,
    ) by {
        assert(type_names(m.event_data.entries)[i] == m.event_data.entries[i].name);
    }
    assert(state_names(m.states_events_mapping) =~= m.states);
    assert forall|i: int| 0 <= i < m.states_events_mapping.len() implies m.states.contains(
        #[trigger] m.states_events_mapping[i].state,
    ) by {
        assert(m.states[i] == m.states_events_mapping[i].state);
    }
    assert forall|j: int, k: int| 0 <= j < k < n implies !same_pair(clauses[j], clauses[k]) by {
        lemma_no_transition_error(clauses, n, k);
    }
    assert forall|i: int| 0 <= i < m.states_events_mapping.len() implies event_names(
        #[trigger] m.states_events_mapping[i].events,
    ).no_duplicates() by {
        lemma_mappings_from(clauses, n, m.states[i]);
    }
    assert forall|i: int, j: int|
        0 <= i < m.states_events_mapping.len() && 0 <= j
            < m.states_events_mapping[i].events.len() implies m.transition_wf(
        m.states_events_mapping[i].state,
        #[trigger] m.states_events_mapping[i].events[j],
    ) by {
        lemma_mappings_from(clauses, n, m.states[i]);
        let t = m.states_events_mapping[i].events[j];
        let k = choose|k: int|
            0 <= k < n && (#[trigger] clauses[k]).in_state == m.states[i] && mapping_of(clauses[k])
                == mappings_from(clauses.take(n), m.states[i])[j];
        lemma_no_transition_error(clauses, n, k);
    }
}

/// Two clauses that define a transition for the same state and the same
/// event are rejected.
pub proof fn lemma_duplicate_transition_is_rejected(d: DefinitionView, j: int, k: int)
    requires
        0 <= j < k < d.transitions.len(),
        same_pair(d.transitions[j], d.transitions[k]),
    ensures
        definition_error(d) is Some,
{
    let n = d.transitions.len() as int;
    if first_transition_error(d.transitions, n) is None {
        lemma_no_transition_error(d.transitions, n, k);
    }
}

/// In a definition without errors, two clauses that name the same guard use
/// it alike: both await it or neither does, and the data of their states and
/// of their events have the same types. So the one declaration of the guard
/// fits every transition that names it.
pub proof fn lemma_guard_uses_agree(d: DefinitionView, j: int, k: int)
    requires
        definition_error(d) is None,
        0 <= j < d.transitions.len(),
        0 <= k < d.transitions.len(),
        d.transitions[j].guard is Some,
        d.transitions[k].guard is Some,
        d.transitions[j].guard->0.ident == d.transitions[k].guard->0.ident,
    ensures
        !guard_clash(
            state_data(d.transitions),
            event_data(d.transitions),
            d.transitions[j],
            d.transitions[k],
        ),
{
    let n = d.transitions.len() as int;
    if j < k {
        lemma_no_transition_error(d.transitions, n, k);
    } else if k < j {
        lemma_no_transition_error(d.transitions, n, j);
    }
}

/// In a definition without errors, two clauses that name the same action use
/// it alike: both await it or neither does, and the data of their states, of
/// their events and of their target states have the same types.
pub proof fn lemma_action_uses_agree(d: DefinitionView, j: int, k: int)
    requires
        definition_error(d) is None,
        0 <= j < d.transitions.len(),
        0 <= k < d.transitions.len(),
        d.transitions[j].action is Some,
        d.transitions[k].action is Some,
        d.transitions[j].action->0.ident == d.transitions[k].action->0.ident,
    ensures
        !action_clash(
            state_data(d.transitions),
            event_data(d.transitions),
            d.transitions[j],
            d.transitions[k],
        ),
{
    let n = d.transitions.len() as int;
    if j < k {
        lemma_no_transition_error(d.transitions, n, k);
    } else if k < j {
        lemma_no_transition_error(d.transitions, n, j);
    }
}

/// The data that a state has once the first clauses gave it some stays its
/// data when more clauses are taken in.
pub proof fn lemma_state_data_stays(clauses: Seq<StateTransitionView>, k: int, m: int, x: Seq<char>)
    requires
        0 <= k <= m <= clauses.len(),
        state_data(clauses.take(k)).data_type(x) is Some,
    ensures
        state_data(clauses.take(m)).data_type(x) == state_data(clauses.take(k)).data_type(x),
    decreases m - k,
{
    if k < m {
        lemma_state_data_stays(clauses, k, m - 1, x);
        let c = clauses[m - 1];
        assert(clauses.take(m).drop_last() =~= clauses.take(m - 1));
        assert(clauses.take(m).last() == c);
        let earlier = state_data(clauses.take(m - 1));
        lemma_declared(earlier, c.in_state, c.in_state_data, x);
        lemma_declared(declared(earlier, c.in_state, c.in_state_data), c.out_state, c.out_state_data, x);
    }
}

/// The data that an event has once the first clauses gave it some stays its
/// data when more clauses are taken in.
pub proof fn lemma_event_data_stays(clauses: Seq<StateTransitionView>, k: int, m: int, x: Seq<char>)
    requires
        0 <= k <= m <= clauses.len(),
        event_data(clauses.take(k)).data_type(x) is Some,
    ensures
        event_data(clauses.take(m)).data_type(x) == event_data(clauses.take(k)).data_type(x),
    decreases m - k,
{
    if k < m {
        lemma_event_data_stays(clauses, k, m - 1, x);
        let c = clauses[m - 1];
        assert(clauses.take(m).drop_last() =~= clauses.take(m - 1));
        assert(clauses.take(m).last() == c);
        lemma_declared(event_data(clauses.take(m - 1)), c.event, c.event_data, x);
    }
}

/// The state that a clause names, and the data that it gives it: its own
/// state, or its target state.
pub open spec fn state_given(c: StateTransitionView, target: bool) -> (Seq<char>, Option<Seq<char>>) {
    if target {
        (c.out_state, c.out_state_data)
    } else {
        (c.in_state, c.in_state_data)
    }
}

/// Where the clause at `i` gives a state data and the clauses up to it have
/// no error, that data is the state's data from there on.
proof fn lemma_state_given(clauses: Seq<StateTransitionView>, i: int, target: bool)
    requires
        0 <= i < clauses.len(),
        data_error(clauses, i) is None,
        state_given(clauses[i], target).1 is Some,
    ensures
        read_as_type(state_given(clauses[i], target).1->0) is Some,
        state_data(clauses.take(i + 1)).data_type(state_given(clauses[i], target).0)
            == read_as_type(state_given(clauses[i], target).1->0),
        !target ==> declared(
            state_data(clauses.take(i)),
            clauses[i].in_state,
            clauses[i].in_state_data,
        ).data_type(clauses[i].in_state) == read_as_type(clauses[i].in_state_data->0),
{
    let c = clauses[i];
    assert(clauses.take(i + 1).drop_last() =~= clauses.take(i));
    assert(clauses.take(i + 1).last() == c);
    let earlier = state_data(clauses.take(i));
    let middle = declared(earlier, c.in_state, c.in_state_data);
    let name = state_given(c, target).0;
    lemma_declared(earlier, c.in_state, c.in_state_data, name);
    lemma_declared(middle, c.out_state, c.out_state_data, name);
}

/// Two clauses that give one state data of two different types, or data whose
/// type is no type, are rejected: a state has one type of data.
pub proof fn lemma_conflicting_state_data_is_rejected(
    d: DefinitionView,
    i: int,
    first_target: bool,
    j: int,
    second_target: bool,
)
    requires
        0 <= i < d.transitions.len(),
        0 <= j < d.transitions.len(),
        state_given(d.transitions[i], first_target).0 == state_given(
            d.transitions[j],
            second_target,
        ).0,
        state_given(d.transitions[i], first_target).1 is Some,
        state_given(d.transitions[j], second_target).1 is Some,
        read_as_type(state_given(d.transitions[i], first_target).1->0) != read_as_type(
            state_given(d.transitions[j], second_target).1->0,
        ),
    ensures
        definition_error(d) is Some,
{
    let clauses = d.transitions;
    let n = clauses.len() as int;
    if first_data_error(clauses, n) is None {
        lemma_no_data_error(clauses, n, i);
        lemma_no_data_error(clauses, n, j);
        lemma_state_given(clauses, i, first_target);
        lemma_state_given(clauses, j, second_target);
        let name = state_given(clauses[i], first_target).0;
        if i < j {
            lemma_state_data_stays(clauses, i + 1, j, name);
            let c = clauses[j];
            lemma_declared(state_data(clauses.take(j)), c.in_state, c.in_state_data, name);
        } else if j < i {
            lemma_state_data_stays(clauses, j + 1, i, name);
            let c = clauses[i];
            lemma_declared(state_data(clauses.take(i)), c.in_state, c.in_state_data, name);
        }
    }
}

/// Two clauses that give one event data of two different types, or data whose
/// type is no type, are rejected: an event has one type of data.
pub proof fn lemma_conflicting_event_data_is_rejected(d: DefinitionView, i: int, j: int)
    requires
        0 <= i < d.transitions.len(),
        0 <= j < d.transitions.len(),
        d.transitions[i].event == d.transitions[j].event,
        d.transitions[i].event_data is Some,
        d.transitions[j].event_data is Some,
        read_as_type(d.transitions[i].event_data->0) != read_as_type(
            d.transitions[j].event_data->0,
        ),
    ensures
        definition_error(d) is Some,
{
    let clauses = d.transitions;
    let n = clauses.len() as int;
    if first_data_error(clauses, n) is None && i != j {
        let (a, b) = if i < j {
            (i, j)
        } else {
            (j, i)
        };
        lemma_no_data_error(clauses, n, a);
        lemma_no_data_error(clauses, n, b);
        let name = clauses[a].event;
        assert(clauses.take(a + 1).drop_last() =~= clauses.take(a));
        assert(clauses.take(a + 1).last() == clauses[a]);
        lemma_declared(event_data(clauses.take(a)), name, clauses[a].event_data, name);
        lemma_event_data_stays(clauses, a + 1, b, name);
    }
}

} // verus!

//! A definition written as text, and the law that what is written is read
//! as the definition that was written.

use crate::definition::{
    clause_views, is_name_char, text_view, Definition, DefinitionView, StateTransition,
    StateTransitionView,
};
use crate::model::{ident_view, AsyncIdent, AsyncIdentView};
use crate::text::texts;
use crate::parser::{
    action_at, clause_at, clauses_at, data_at, group_end, guard_at, is_closer, is_name_start,
    is_opener, is_setting, is_space, name_at, name_end, named_at, names_at, no_settings, parsed,
    setting_at, settings_at, skip_spaces, step_at, steps_at, symbol_at, type_end, ParseError,
    ParseErrorKind,
};
use vstd::prelude::*;

verus! {

/// Whether a text is a name: it begins with a character that can begin a
/// name, and holds name characters only.
pub open spec fn is_name(n: Seq<char>) -> bool {
    &&& n.len() > 0
    &&& is_name_start(n[0])
    &&& forall|i: int| 0 <= i < n.len() ==> is_name_char(#[trigger] n[i])
}

/// Whether the text `r` stands in `s` at `pos`.
pub open spec fn stands_at(s: Seq<char>, pos: int, r: Seq<char>) -> bool {
    &&& 0 <= pos
    &&& pos + r.len() <= s.len()
    &&& forall|i: int| 0 <= i < r.len() ==> s[pos + i] == #[trigger] r[i]
}

/// A text of two parts stands where its first part stands and its second
/// part stands after it.
pub proof fn lemma_stands_at_parts(s: Seq<char>, pos: int, a: Seq<char>, b: Seq<char>)
    ensures
        stands_at(s, pos, a + b) <==> stands_at(s, pos, a) && stands_at(s, pos + a.len(), b),
{
    if stands_at(s, pos, a + b) {
        assert forall|i: int| 0 <= i < a.len() implies s[pos + i] == #[trigger] a[i] by {
            assert((a + b)[i] == a[i]);
        }
        assert forall|i: int| 0 <= i < b.len() implies s[pos + a.len() + i] == #[trigger] b[i] by {
            assert((a + b)[a.len() + i] == b[i]);
        }
    }
    if stands_at(s, pos, a) && stands_at(s, pos + a.len(), b) {
        assert forall|i: int| 0 <= i < (a + b).len() implies s[pos + i] == #[trigger] (a + b)[i] by {
            if i < a.len() {
                assert(a[i] == (a + b)[i]);
            } else {
                assert(b[i - a.len()] == (a + b)[i]);
                assert(s[pos + a.len() + (i - a.len())] == b[i - a.len()]);
            }
        }
    }
}

/// Nothing is skipped at a place that holds no space.
pub proof fn lemma_no_space(s: Seq<char>, pos: int)
    requires
        pos >= s.len() || pos < 0 || !is_space(s[pos]),
    ensures
        skip_spaces(s, pos) == pos,
{
}

/// A name that stands at `pos` ends where it ends, where no name character
/// follows it.
pub proof fn lemma_name_end_of_name(s: Seq<char>, pos: int, n: Seq<char>, from: int)
    requires
        stands_at(s, pos, n),
        forall|i: int| 0 <= i < n.len() ==> is_name_char(#[trigger] n[i]),
        0 <= from <= n.len(),
        pos + n.len() < s.len() ==> !is_name_char(s[pos + n.len()]),
    ensures
        name_end(s, pos + from) == pos + n.len(),
    decreases n.len() - from,
{
    if from < n.len() {
        assert(s[pos + from] == n[from]);
        lemma_name_end_of_name(s, pos, n, from + 1);
    }
}

/// A name that stands at `pos` is read as that name, where no name character
/// follows it.
pub proof fn lemma_name_is_read(s: Seq<char>, pos: int, n: Seq<char>)
    requires
        stands_at(s, pos, n),
        is_name(n),
        pos + n.len() < s.len() ==> !is_name_char(s[pos + n.len()]),
    ensures
        name_at(s, pos) == Some((n, pos + n.len())),
{
    assert(s[pos + 0] == n[0]);
    lemma_no_space(s, pos);
    lemma_name_end_of_name(s, pos, n, 0);
    assert(s.subrange(pos, pos + n.len()) =~= n);
}

/// A character that stands at `pos` and is no space is read as a symbol.
pub proof fn lemma_symbol_is_read(s: Seq<char>, pos: int, c: char)
    requires
        0 <= pos < s.len(),
        s[pos] == c,
        !is_space(c),
    ensures
        symbol_at(s, pos, c) == Some(pos + 1),
{
}

/// No symbol `c` is read at a place that holds another character, which is
/// no space, or at the end.
pub proof fn lemma_symbol_is_absent(s: Seq<char>, pos: int, c: char)
    requires
        0 <= pos,
        pos < s.len() ==> s[pos] != c && !is_space(s[pos]),
    ensures
        symbol_at(s, pos, c) is None,
{
}

/// Whether the brackets of a text are closed in it: whether a closing
/// bracket after the text is the first that closes no bracket of the text.
pub open spec fn is_closed(t: Seq<char>) -> bool {
    group_end(t.push(')'), 0, 1) == Some(t.len() as int)
}

/// The end of a group depends on the text from the place on from which it is
/// looked for, up to that end.
pub proof fn lemma_group_end_elsewhere(
    s: Seq<char>,
    pos: int,
    u: Seq<char>,
    from: int,
    depth: nat,
)
    requires
        stands_at(s, pos, u),
        0 <= from <= u.len(),
        group_end(u, from, depth) is Some,
    ensures
        group_end(s, pos + from, depth) == Some(pos + group_end(u, from, depth)->0),
    decreases u.len() - from,
{
    if from < u.len() && depth > 0 {
        assert(s[pos + from] == u[from]);
        if is_opener(u[from]) {
            lemma_group_end_elsewhere(s, pos, u, from + 1, depth + 1);
        } else if is_closer(u[from]) {
            if depth > 1 {
                lemma_group_end_elsewhere(s, pos, u, from + 1, (depth - 1) as nat);
            }
        } else {
            lemma_group_end_elsewhere(s, pos, u, from + 1, depth);
        }
    }
}

/// Data as it is written: in round brackets, or nothing.
pub open spec fn written_data(data: Option<Seq<char>>) -> Seq<char> {
    match data {
        Some(t) => seq!['('] + (t + seq![')']),
        None => Seq::empty(),
    }
}

/// Whether data can be written: whether its brackets are closed in it.
pub open spec fn data_can_be_written(data: Option<Seq<char>>) -> bool {
    match data {
        Some(t) => is_closed(t),
        None => true,
    }
}

/// Data that stands at `pos` as it is written is read as that data, where
/// no round bracket opens after it.
pub proof fn lemma_data_is_read(s: Seq<char>, pos: int, data: Option<Seq<char>>)
    requires
        stands_at(s, pos, written_data(data)),
        data_can_be_written(data),
        s.len() <= usize::MAX,
        ({
            let end = pos + written_data(data).len();
            end < s.len() ==> s[end] != '(' && !is_space(s[end])
        }),
    ensures
        data_at(s, pos) == Ok::<(Option<Seq<char>>, int), ParseError>(
            (data, pos + written_data(data).len()),
        ),
{
    match data {
        None => {
            lemma_symbol_is_absent(s, pos, '(');
        },
        Some(t) => {
            let w = written_data(data);
            assert(w.len() == t.len() + 2);
            assert(w[0] == '(');
            assert(s[pos + 0] == w[0]);
            lemma_symbol_is_read(s, pos, '(');
            let u = t.push(')');
            assert forall|i: int| 0 <= i < u.len() implies s[pos + 1 + i] == #[trigger] u[i] by {
                assert(w[1 + i] == u[i]);
                assert(s[pos + (1 + i)] == w[1 + i]);
            }
            assert(stands_at(s, pos + 1, u));
            lemma_group_end_elsewhere(s, pos + 1, u, 0, 1);
            assert(s[pos + 1 + t.len()] == u[t.len() as int]);
            assert(s.subrange(pos + 1, pos + 1 + t.len()) =~= t) by {
                assert forall|i: int| 0 <= i < t.len() implies s[pos + 1 + i] == t[i] by {
                    assert(u[i] == t[i]);
                }
            }
        },
    }
}

/// A name with its data as it is written.
pub open spec fn written_named(name: Seq<char>, data: Option<Seq<char>>) -> Seq<char> {
    name + written_data(data)
}

/// A name with its data that stands at `pos` as it is written is read as
/// that name and that data, where what follows is no space, no name
/// character and no round bracket.
pub proof fn lemma_named_is_read(
    s: Seq<char>,
    pos: int,
    name: Seq<char>,
    data: Option<Seq<char>>,
    kind: ParseErrorKind,
)
    requires
        stands_at(s, pos, written_named(name, data)),
        is_name(name),
        data_can_be_written(data),
        s.len() <= usize::MAX,
        ({
            let end = pos + written_named(name, data).len();
            end < s.len() ==> s[end] != '(' && !is_space(s[end]) && !is_name_char(s[end])
        }),
    ensures
        named_at(s, pos, kind) == Ok::<(Seq<char>, Option<Seq<char>>, int), ParseError>(
            (name, data, pos + written_named(name, data).len()),
        ),
{
    lemma_stands_at_parts(s, pos, name, written_data(data));
    let after = pos + name.len();
    match data {
        Some(t) => {
            assert(written_data(data)[0] == '(');
            assert(s[after + 0] == written_data(data)[0]);
        },
        None => {},
    }
    lemma_name_is_read(s, pos, name);
    lemma_data_is_read(s, after, data);
}

/// The word that marks a guard or an action as awaited.
pub open spec fn async_word() -> Seq<char> {
    seq!['a', 's', 'y', 'n', 'c']
}

/// A guard or an action as it is written: its name, after the word `async`
/// and a space where it is awaited.
pub open spec fn written_step(a: AsyncIdentView) -> Seq<char> {
    if a.is_async {
        async_word() + (seq![' '] + a.ident)
    } else {
        a.ident
    }
}

/// Whether a guard or an action can be written: its name is a name, and not
/// the word `async`.
pub open spec fn step_can_be_written(a: AsyncIdentView) -> bool {
    is_name(a.ident) && a.ident != async_word()
}

proof fn lemma_async_word()
    ensures
        "async"@ == async_word(),
        is_name(async_word()),
{
    reveal_strlit("async");
    assert("async"@ =~= async_word());
}

/// A guard or an action that stands at `pos` as it is written is read as it
/// is, where no name character follows it.
pub proof fn lemma_step_is_read(s: Seq<char>, pos: int, a: AsyncIdentView)
    requires
        stands_at(s, pos, written_step(a)),
        step_can_be_written(a),
        ({
            let end = pos + written_step(a).len();
            end < s.len() ==> !is_name_char(s[end])
        }),
    ensures
        step_at(s, pos) == Ok::<(AsyncIdentView, int), ParseError>(
            (a, pos + written_step(a).len()),
        ),
{
    lemma_async_word();
    if a.is_async {
        let rest = seq![' '] + a.ident;
        lemma_stands_at_parts(s, pos, async_word(), rest);
        lemma_stands_at_parts(s, pos + 5, seq![' '], a.ident);
        assert(seq![' '][0] == ' ');
        assert(s[pos + 5 + 0] == seq![' '][0]);
        lemma_name_is_read(s, pos, async_word());
        assert(s[pos + 6 + 0] == a.ident[0]);
        lemma_no_space(s, pos + 6);
        assert(skip_spaces(s, pos + 5) == pos + 6);
        lemma_name_is_read(s, pos + 6, a.ident);
    } else {
        lemma_name_is_read(s, pos, a.ident);
    }
}

/// A guard as it is written: in square brackets, or nothing.
pub open spec fn written_guard(guard: Option<AsyncIdentView>) -> Seq<char> {
    match guard {
        Some(g) => seq!['['] + (written_step(g) + seq![']']),
        None => Seq::empty(),
    }
}

/// An action as it is written: after a slash, or nothing.
pub open spec fn written_action(action: Option<AsyncIdentView>) -> Seq<char> {
    match action {
        Some(a) => seq!['/'] + written_step(a),
        None => Seq::empty(),
    }
}

/// Whether a guard or an action that may be absent can be written.
pub open spec fn steps_can_be_written(step: Option<AsyncIdentView>) -> bool {
    match step {
        Some(a) => step_can_be_written(a),
        None => true,
    }
}

/// A guard and an action that stand at `pos` as they are written are read as
/// they are, where an equals sign follows them.
pub proof fn lemma_steps_are_read(
    s: Seq<char>,
    pos: int,
    guard: Option<AsyncIdentView>,
    action: Option<AsyncIdentView>,
)
    requires
        stands_at(s, pos, written_guard(guard) + written_action(action)),
        steps_can_be_written(guard),
        steps_can_be_written(action),
        ({
            let end = pos + written_guard(guard).len() + written_action(action).len();
            end < s.len() && s[end] == '='
        }),
    ensures
        steps_at(s, pos) == Ok::<(Option<AsyncIdentView>, Option<AsyncIdentView>, int), ParseError>(
            (guard, action, pos + written_guard(guard).len() + written_action(action).len()),
        ),
{
    lemma_stands_at_parts(s, pos, written_guard(guard), written_action(action));
    let middle = pos + written_guard(guard).len();
    let end = middle + written_action(action).len();
    match action {
        Some(a) => {
            let w = written_action(action);
            lemma_stands_at_parts(s, middle, seq!['/'], written_step(a));
            assert(seq!['/'][0] == '/');
            assert(s[middle + 0] == seq!['/'][0]);
            lemma_symbol_is_read(s, middle, '/');
            lemma_step_is_read(s, middle + 1, a);
        },
        None => {
            lemma_symbol_is_absent(s, middle, '/');
        },
    }
    assert(action_at(s, middle) == Ok::<(Option<AsyncIdentView>, int), ParseError>((action, end)));
    match guard {
        Some(g) => {
            let inner = written_step(g) + seq![']'];
            lemma_stands_at_parts(s, pos, seq!['['], inner);
            lemma_stands_at_parts(s, pos + 1, written_step(g), seq![']']);
            assert(seq!['['][0] == '[');
            assert(s[pos + 0] == seq!['['][0]);
            lemma_symbol_is_read(s, pos, '[');
            let close = pos + 1 + written_step(g).len();
            assert(seq![']'][0] == ']');
            assert(s[close + 0] == seq![']'][0]);
            lemma_step_is_read(s, pos + 1, g);
            lemma_symbol_is_read(s, close, ']');
        },
        None => {
            lemma_symbol_is_absent(s, pos, '[');
        },
    }
    assert(guard_at(s, pos) == Ok::<(Option<AsyncIdentView>, int), ParseError>((guard, middle)));
}

/// The asterisk that marks the starting state, or nothing.
pub open spec fn written_start(start: bool) -> Seq<char> {
    if start {
        seq!['*']
    } else {
        Seq::empty()
    }
}

/// What stands in a clause after its state and its event.
pub open spec fn written_target(c: StateTransitionView) -> Seq<char> {
    (written_guard(c.guard) + written_action(c.action)) + (seq!['='] + written_named(
        c.out_state,
        c.out_state_data,
    ))
}

/// A clause as it is written, without spaces but the one after `async`.
pub open spec fn written_clause(c: StateTransitionView) -> Seq<char> {
    written_start(c.start) + (written_named(c.in_state, c.in_state_data) + (seq!['+'] + (
    written_named(c.event, c.event_data) + written_target(c))))
}

/// Whether a clause can be written: its names are names, the brackets of its
/// data are closed, and neither its guard nor its action is named `async`.
pub open spec fn clause_can_be_written(c: StateTransitionView) -> bool {
    &&& is_name(c.in_state)
    &&& is_name(c.event)
    &&& is_name(c.out_state)
    &&& data_can_be_written(c.in_state_data)
    &&& data_can_be_written(c.event_data)
    &&& data_can_be_written(c.out_state_data)
    &&& steps_can_be_written(c.guard)
    &&& steps_can_be_written(c.action)
}

/// A clause that stands at `pos` as it is written is read as that clause,
/// where a comma or a closing curly bracket follows it, or nothing.
pub proof fn lemma_clause_is_read(s: Seq<char>, pos: int, c: StateTransitionView)
    requires
        stands_at(s, pos, written_clause(c)),
        clause_can_be_written(c),
        s.len() <= usize::MAX,
        ({
            let end = pos + written_clause(c).len();
            end < s.len() ==> s[end] == ',' || s[end] == '}'
        }),
    ensures
        clause_at(s, pos) == Ok::<(StateTransitionView, int), ParseError>(
            (c, pos + written_clause(c).len()),
        ),
{
    let first = written_named(c.in_state, c.in_state_data);
    let second = written_named(c.event, c.event_data);
    let steps = written_guard(c.guard) + written_action(c.action);
    let third = written_named(c.out_state, c.out_state_data);
    let after_event = written_target(c);
    let after_plus = second + after_event;
    let after_state = seq!['+'] + after_plus;
    let after_start = first + after_state;
    lemma_stands_at_parts(s, pos, written_start(c.start), after_start);
    let begin = pos + written_start(c.start).len();
    lemma_stands_at_parts(s, begin, first, after_state);
    let p1 = begin + first.len();
    lemma_stands_at_parts(s, p1, seq!['+'], after_plus);
    let p2 = p1 + 1;
    lemma_stands_at_parts(s, p2, second, after_event);
    let p3 = p2 + second.len();
    lemma_stands_at_parts(s, p3, steps, seq!['='] + third);
    let p4 = p3 + steps.len();
    lemma_stands_at_parts(s, p4, seq!['='], third);
    let p5 = p4 + 1;
    let p6 = p5 + third.len();
    assert(p6 == pos + written_clause(c).len());
    assert(seq!['+'][0] == '+');
    assert(s[p1 + 0] == seq!['+'][0]);
    assert(seq!['='][0] == '=');
    assert(s[p4 + 0] == seq!['='][0]);
    if c.start {
        assert(seq!['*'][0] == '*');
        assert(s[pos + 0] == seq!['*'][0]);
        lemma_symbol_is_read(s, pos, '*');
    } else {
        lemma_stands_at_parts(s, begin, c.in_state, written_data(c.in_state_data));
        assert(s[begin + 0] == c.in_state[0]);
        lemma_symbol_is_absent(s, pos, '*');
    }
    lemma_named_is_read(s, begin, c.in_state, c.in_state_data, ParseErrorKind::ExpectedState);
    lemma_symbol_is_read(s, p1, '+');
    assert(s[p3] != '(' && !is_space(s[p3]) && !is_name_char(s[p3])) by {
        lemma_stands_at_parts(s, p3, written_guard(c.guard), written_action(c.action));
        match c.guard {
            Some(g) => {
                assert(written_guard(c.guard)[0] == '[');
                assert(s[p3 + 0] == written_guard(c.guard)[0]);
            },
            None => {
                match c.action {
                    Some(a) => {
                        assert(written_action(c.action)[0] == '/');
                        assert(s[p3 + 0] == written_action(c.action)[0]);
                    },
                    None => {},
                }
            },
        }
    }
    lemma_named_is_read(s, p2, c.event, c.event_data, ParseErrorKind::ExpectedEvent);
    lemma_steps_are_read(s, p3, c.guard, c.action);
    lemma_symbol_is_read(s, p4, '=');
    lemma_named_is_read(s, p5, c.out_state, c.out_state_data, ParseErrorKind::ExpectedState);
}

/// Clauses as they are written: a comma after each, and the curly bracket
/// that closes them.
pub open spec fn written_clauses(clauses: Seq<StateTransitionView>) -> Seq<char>
    decreases clauses.len(),
{
    if clauses.len() == 0 {
        seq!['}']
    } else {
        written_clause(clauses[0]) + (seq![','] + written_clauses(clauses.skip(1)))
    }
}

/// Clauses that stand at `pos` as they are written are read as those
/// clauses, after the clauses that were read before.
pub proof fn lemma_clauses_are_read(
    s: Seq<char>,
    pos: int,
    clauses: Seq<StateTransitionView>,
    acc: Seq<StateTransitionView>,
)
    requires
        stands_at(s, pos, written_clauses(clauses)),
        forall|k: int| 0 <= k < clauses.len() ==> clause_can_be_written(#[trigger] clauses[k]),
        s.len() <= usize::MAX,
    ensures
        clauses_at(s, pos, acc) == Ok::<(Seq<StateTransitionView>, int), ParseError>(
            (acc + clauses, pos + written_clauses(clauses).len()),
        ),
    decreases clauses.len(),
{
    if clauses.len() == 0 {
        assert(seq!['}'][0] == '}');
        assert(s[pos + 0] == seq!['}'][0]);
        lemma_symbol_is_read(s, pos, '}');
        assert(acc + clauses =~= acc);
    } else {
        let c = clauses[0];
        let rest = clauses.skip(1);
        let tail = seq![','] + written_clauses(rest);
        lemma_stands_at_parts(s, pos, written_clause(c), tail);
        let end = pos + written_clause(c).len();
        lemma_stands_at_parts(s, end, seq![','], written_clauses(rest));
        assert(seq![','][0] == ',');
        assert(s[end + 0] == seq![','][0]);
        assert(s[pos] != '}' && !is_space(s[pos])) by {
            let named = written_named(c.in_state, c.in_state_data);
            let after = seq!['+'] + (written_named(c.event, c.event_data) + written_target(c));
            lemma_stands_at_parts(s, pos, written_start(c.start), named + after);
            if c.start {
                assert(seq!['*'][0] == '*');
                assert(s[pos + 0] == seq!['*'][0]);
            } else {
                lemma_stands_at_parts(s, pos, named, after);
                lemma_stands_at_parts(s, pos, c.in_state, written_data(c.in_state_data));
                assert(s[pos + 0] == c.in_state[0]);
            }
        }
        lemma_symbol_is_absent(s, pos, '}');
        lemma_clause_is_read(s, pos, c);
        lemma_symbol_is_read(s, end, ',');
        assert forall|k: int| 0 <= k < rest.len() implies clause_can_be_written(
            #[trigger] rest[k],
        ) by {
            assert(rest[k] == clauses[k + 1]);
        }
        lemma_clauses_are_read(s, end + 1, rest, acc.push(c));
        assert(acc.push(c) + rest =~= acc + clauses);
    }
}

/// Names as they are written in a list: a comma after each, and the square
/// bracket that closes the list.
pub open spec fn written_names(names: Seq<Seq<char>>) -> Seq<char>
    decreases names.len(),
{
    if names.len() == 0 {
        seq![']']
    } else {
        names[0] + (seq![','] + written_names(names.skip(1)))
    }
}

/// Names that stand at `pos` as they are written are read as those names,
/// after the names that were read before.
pub proof fn lemma_names_are_read(
    s: Seq<char>,
    pos: int,
    names: Seq<Seq<char>>,
    acc: Seq<Seq<char>>,
)
    requires
        stands_at(s, pos, written_names(names)),
        forall|k: int| 0 <= k < names.len() ==> is_name(#[trigger] names[k]),
    ensures
        names_at(s, pos, acc) == Ok::<(Seq<Seq<char>>, int), ParseError>(
            (acc + names, pos + written_names(names).len()),
        ),
    decreases names.len(),
{
    if names.len() == 0 {
        assert(seq![']'][0] == ']');
        assert(s[pos + 0] == seq![']'][0]);
        lemma_symbol_is_read(s, pos, ']');
        assert(acc + names =~= acc);
    } else {
        let n = names[0];
        let rest = names.skip(1);
        lemma_stands_at_parts(s, pos, n, seq![','] + written_names(rest));
        let end = pos + n.len();
        lemma_stands_at_parts(s, end, seq![','], written_names(rest));
        assert(seq![','][0] == ',');
        assert(s[end + 0] == seq![','][0]);
        assert(s[pos + 0] == n[0]);
        lemma_symbol_is_absent(s, pos, ']');
        lemma_name_is_read(s, pos, n);
        lemma_symbol_is_read(s, end, ',');
        assert forall|k: int| 0 <= k < rest.len() implies is_name(#[trigger] rest[k]) by {
            assert(rest[k] == names[k + 1]);
        }
        lemma_names_are_read(s, end + 1, rest, acc.push(n));
        assert(acc.push(n) + rest =~= acc + names);
    }
}

/// Whether a type can be written as the type of the temporary context: it
/// begins with no space, and a comma after it is the first that stands
/// outside all its brackets.
pub open spec fn type_can_be_written(t: Seq<char>) -> bool {
    &&& t.len() > 0 ==> !is_space(t[0])
    &&& type_end(t.push(','), 0, 0) == t.len()
}

/// The end of a type depends on the text from the place on from which it is
/// looked for, up to that end.
pub proof fn lemma_type_end_elsewhere(s: Seq<char>, pos: int, u: Seq<char>, from: int, depth: nat)
    requires
        stands_at(s, pos, u),
        0 <= from <= u.len(),
        type_end(u, from, depth) < u.len(),
    ensures
        type_end(s, pos + from, depth) == pos + type_end(u, from, depth),
    decreases u.len() - from,
{
    crate::parser::lemma_type_end(u, from, depth);
    if from < u.len() {
        assert(s[pos + from] == u[from]);
        if depth == 0 && (u[from] == ',' || is_closer(u[from])) {
        } else if u[from] == '-' && from + 1 < u.len() && u[from + 1] == '>' {
            assert(s[pos + (from + 1)] == u[from + 1]);
            crate::parser::lemma_type_end(u, from + 2, depth);
            lemma_type_end_elsewhere(s, pos, u, from + 2, depth);
        } else if is_opener(u[from]) || u[from] == '<' {
            lemma_type_end_elsewhere(s, pos, u, from + 1, depth + 1);
        } else if is_closer(u[from]) || u[from] == '>' {
            lemma_type_end_elsewhere(
                s,
                pos,
                u,
                from + 1,
                if depth > 0 {
                    (depth - 1) as nat
                } else {
                    0
                },
            );
        } else {
            lemma_type_end_elsewhere(s, pos, u, from + 1, depth);
        }
    }
}

/// A setting as it is written: its name, a colon, what is set, and what
/// follows the setting.
pub open spec fn written_setting(key: Seq<char>, value: Seq<char>, rest: Seq<char>) -> Seq<char> {
    key + (seq![':'] + (value + rest))
}

/// The name of the machine as it is written, where it has one, before the
/// settings `rest`.
pub open spec fn written_name(name: Option<Seq<char>>, rest: Seq<char>) -> Seq<char> {
    match name {
        Some(n) => written_setting("name"@, n, seq![','] + rest),
        None => rest,
    }
}

/// The type of the temporary context as it is written, where there is one,
/// before the settings `rest`.
pub open spec fn written_context(context: Option<Seq<char>>, rest: Seq<char>) -> Seq<char> {
    match context {
        Some(t) => written_setting("temporary_context"@, t, seq![','] + rest),
        None => rest,
    }
}

/// `true` or `false` as it is written.
pub open spec fn written_bool(b: bool) -> Seq<char> {
    if b {
        "true"@
    } else {
        "false"@
    }
}

/// A definition as it is written: its settings in a fixed order, without
/// spaces but the one after `async`.
pub open spec fn written(d: DefinitionView) -> Seq<char> {
    written_name(
        d.name,
        written_context(
            d.temporary_context_type,
            written_setting(
                "custom_guard_error"@,
                written_bool(d.custom_guard_error),
                seq![','] + written_setting(
                    "derive_states"@,
                    seq!['['] + written_names(d.derive_states),
                    seq![','] + written_setting(
                        "derive_events"@,
                        seq!['['] + written_names(d.derive_events),
                        seq![','] + written_setting(
                            "transitions"@,
                            seq!['{'] + written_clauses(d.transitions),
                            Seq::empty(),
                        ),
                    ),
                ),
            ),
        ),
    )
}

/// Whether a definition can be written: its names are names, its clauses
/// can be written, and so can the type of its temporary context.
pub open spec fn can_be_written(d: DefinitionView) -> bool {
    &&& d.name is Some ==> is_name(d.name->0)
    &&& d.temporary_context_type is Some ==> type_can_be_written(d.temporary_context_type->0)
    &&& forall|k: int| 0 <= k < d.derive_states.len() ==> is_name(#[trigger] d.derive_states[k])
    &&& forall|k: int| 0 <= k < d.derive_events.len() ==> is_name(#[trigger] d.derive_events[k])
    &&& forall|k: int|
        0 <= k < d.transitions.len() ==> clause_can_be_written(#[trigger] d.transitions[k])
}

proof fn lemma_words()
    ensures
        is_name("name"@),
        is_name("temporary_context"@),
        is_name("custom_guard_error"@),
        is_name("derive_states"@),
        is_name("derive_events"@),
        is_name("transitions"@),
        is_name("true"@),
        is_name("false"@),
        "true"@ != "false"@,
        "name"@.len() == 4,
        "temporary_context"@.len() == 17,
        "custom_guard_error"@.len() == 18,
        "derive_states"@.len() == 13,
        "derive_events"@.len() == 13,
        "transitions"@.len() == 11,
        "derive_states"@ != "derive_events"@,
{
    reveal_strlit("name");
    reveal_strlit("temporary_context");
    reveal_strlit("custom_guard_error");
    reveal_strlit("derive_states");
    reveal_strlit("derive_events");
    reveal_strlit("transitions");
    reveal_strlit("true");
    reveal_strlit("false");
    assert("true"@.len() == 4);
    assert("false"@.len() == 5);
    assert("derive_states"@[7] == 's');
    assert("derive_events"@[7] == 'e');
}

/// What is known of a setting that stands at `pos` as it is written: its
/// name is read, the colon after it, and what is set stands after the colon.
proof fn lemma_setting_stands(s: Seq<char>, pos: int, key: Seq<char>, value: Seq<char>, rest: Seq<char>)
    requires
        stands_at(s, pos, written_setting(key, value, rest)),
        is_name(key),
    ensures
        skip_spaces(s, pos) == pos,
        pos < s.len(),
        name_at(s, pos) == Some((key, pos + key.len())),
        symbol_at(s, pos + key.len(), ':') == Some(pos + key.len() + 1),
        stands_at(s, pos + key.len() + 1, value),
        stands_at(s, pos + key.len() + 1 + value.len(), rest),
        stands_at(s, pos + key.len() + 1, value + rest),
{
    let after = seq![':'] + (value + rest);
    lemma_stands_at_parts(s, pos, key, after);
    let colon = pos + key.len();
    lemma_stands_at_parts(s, colon, seq![':'], value + rest);
    lemma_stands_at_parts(s, colon + 1, value, rest);
    assert(seq![':'][0] == ':');
    assert(s[colon + 0] == seq![':'][0]);
    assert(s[pos + 0] == key[0]);
    lemma_no_space(s, pos);
    lemma_name_is_read(s, pos, key);
    lemma_symbol_is_read(s, colon, ':');
}

/// A setting before a comma is read, and the settings after the comma are
/// read next.
proof fn lemma_setting_is_read(
    s: Seq<char>,
    pos: int,
    key: Seq<char>,
    value: Seq<char>,
    rest: Seq<char>,
    d: DefinitionView,
    next: DefinitionView,
)
    requires
        stands_at(s, pos, written_setting(key, value, seq![','] + rest)),
        is_name(key),
        is_setting(key),
        setting_at(s, pos + key.len() + 1, key, d) == Ok::<(DefinitionView, int), ParseError>(
            (next, pos + key.len() + 1 + value.len()),
        ),
    ensures
        settings_at(s, pos, d) == settings_at(s, pos + key.len() + value.len() + 2, next),
        stands_at(s, pos + key.len() + value.len() + 2, rest),
{
    lemma_setting_stands(s, pos, key, value, seq![','] + rest);
    let end = pos + key.len() + 1 + value.len();
    lemma_stands_at_parts(s, end, seq![','], rest);
    assert(seq![','][0] == ',');
    assert(s[end + 0] == seq![','][0]);
    lemma_no_space(s, end);
    lemma_symbol_is_read(s, end, ',');
}

/// The name of the machine is read as it is written.
proof fn lemma_name_is_set(s: Seq<char>, pos: int, n: Seq<char>, rest: Seq<char>, d: DefinitionView)
    requires
        stands_at(s, pos, written_setting("name"@, n, seq![','] + rest)),
        is_name(n),
    ensures
        settings_at(s, pos, d) == settings_at(
            s,
            pos + n.len() + 6,
            DefinitionView { name: Some(n), ..d },
        ),
        stands_at(s, pos + n.len() + 6, rest),
{
    lemma_words();
    let key = "name"@;
    lemma_setting_stands(s, pos, key, n, seq![','] + rest);
    let value: int = pos + 5;
    let end: int = value + n.len();
    lemma_stands_at_parts(s, end, seq![','], rest);
    assert(seq![','][0] == ',');
    assert(s[end + 0] == seq![','][0]);
    lemma_name_is_read(s, value, n);
    lemma_setting_is_read(s, pos, key, n, rest, d, DefinitionView { name: Some(n), ..d });
}

/// The type of the temporary context is read as it is written.
proof fn lemma_context_is_set(s: Seq<char>, pos: int, t: Seq<char>, rest: Seq<char>, d: DefinitionView)
    requires
        stands_at(s, pos, written_setting("temporary_context"@, t, seq![','] + rest)),
        type_can_be_written(t),
    ensures
        settings_at(s, pos, d) == settings_at(
            s,
            pos + t.len() + 19,
            DefinitionView { temporary_context_type: Some(t), ..d },
        ),
        stands_at(s, pos + t.len() + 19, rest),
{
    lemma_words();
    let key = "temporary_context"@;
    lemma_setting_stands(s, pos, key, t, seq![','] + rest);
    let value: int = pos + 18;
    let end: int = value + t.len();
    lemma_stands_at_parts(s, end, seq![','], rest);
    assert(seq![','][0] == ',');
    assert(s[end + 0] == seq![','][0]);
    let u = t.push(',');
    assert forall|i: int| 0 <= i < u.len() implies s[value + i] == #[trigger] u[i] by {
        if i < t.len() {
            assert(t[i] == u[i]);
        }
    }
    assert(stands_at(s, value, u));
    lemma_type_end_elsewhere(s, value, u, 0, 0);
    if t.len() > 0 {
        assert(s[value + 0] == t[0]);
    }
    lemma_no_space(s, value);
    assert(s.subrange(value, end) =~= t);
    lemma_setting_is_read(
        s,
        pos,
        key,
        t,
        rest,
        d,
        DefinitionView { temporary_context_type: Some(t), ..d },
    );
}

/// Whether the guards have their own error is read as it is written.
proof fn lemma_guard_error_is_set(s: Seq<char>, pos: int, b: bool, rest: Seq<char>, d: DefinitionView)
    requires
        stands_at(
            s,
            pos,
            written_setting("custom_guard_error"@, written_bool(b), seq![','] + rest),
        ),
    ensures
        settings_at(s, pos, d) == settings_at(
            s,
            pos + written_bool(b).len() + 20,
            DefinitionView { custom_guard_error: b, ..d },
        ),
        stands_at(s, pos + written_bool(b).len() + 20, rest),
{
    lemma_words();
    let key = "custom_guard_error"@;
    let word = written_bool(b);
    lemma_setting_stands(s, pos, key, word, seq![','] + rest);
    let value: int = pos + 19;
    let end: int = value + word.len();
    lemma_stands_at_parts(s, end, seq![','], rest);
    assert(seq![','][0] == ',');
    assert(s[end + 0] == seq![','][0]);
    lemma_name_is_read(s, value, word);
    lemma_setting_is_read(s, pos, key, word, rest, d, DefinitionView { custom_guard_error: b, ..d });
}

/// A list of names in square brackets is read as it is written.
proof fn lemma_list_is_read(s: Seq<char>, pos: int, names: Seq<Seq<char>>)
    requires
        stands_at(s, pos, seq!['['] + written_names(names)),
        forall|k: int| 0 <= k < names.len() ==> is_name(#[trigger] names[k]),
    ensures
        symbol_at(s, pos, '[') == Some(pos + 1),
        names_at(s, pos + 1, Seq::empty()) == Ok::<(Seq<Seq<char>>, int), ParseError>(
            (names, pos + 1 + written_names(names).len()),
        ),
{
    lemma_stands_at_parts(s, pos, seq!['['], written_names(names));
    assert(seq!['['][0] == '[');
    assert(s[pos + 0] == seq!['['][0]);
    lemma_symbol_is_read(s, pos, '[');
    lemma_names_are_read(s, pos + 1, names, Seq::empty());
    assert(Seq::<Seq<char>>::empty() + names =~= names);
}

/// What the states derive is read as it is written.
proof fn lemma_derive_states_is_set(
    s: Seq<char>,
    pos: int,
    names: Seq<Seq<char>>,
    rest: Seq<char>,
    d: DefinitionView,
)
    requires
        stands_at(
            s,
            pos,
            written_setting("derive_states"@, seq!['['] + written_names(names), seq![','] + rest),
        ),
        forall|k: int| 0 <= k < names.len() ==> is_name(#[trigger] names[k]),
    ensures
        settings_at(s, pos, d) == settings_at(
            s,
            pos + written_names(names).len() + 16,
            DefinitionView { derive_states: names, ..d },
        ),
        stands_at(s, pos + written_names(names).len() + 16, rest),
{
    lemma_words();
    let key = "derive_states"@;
    let list = seq!['['] + written_names(names);
    lemma_setting_stands(s, pos, key, list, seq![','] + rest);
    lemma_list_is_read(s, pos + 14, names);
    lemma_setting_is_read(s, pos, key, list, rest, d, DefinitionView { derive_states: names, ..d });
}

/// What the events derive is read as it is written.
proof fn lemma_derive_events_is_set(
    s: Seq<char>,
    pos: int,
    names: Seq<Seq<char>>,
    rest: Seq<char>,
    d: DefinitionView,
)
    requires
        stands_at(
            s,
            pos,
            written_setting("derive_events"@, seq!['['] + written_names(names), seq![','] + rest),
        ),
        forall|k: int| 0 <= k < names.len() ==> is_name(#[trigger] names[k]),
    ensures
        settings_at(s, pos, d) == settings_at(
            s,
            pos + written_names(names).len() + 16,
            DefinitionView { derive_events: names, ..d },
        ),
        stands_at(s, pos + written_names(names).len() + 16, rest),
{
    lemma_words();
    let key = "derive_events"@;
    let list = seq!['['] + written_names(names);
    lemma_setting_stands(s, pos, key, list, seq![','] + rest);
    lemma_list_is_read(s, pos + 14, names);
    lemma_setting_is_read(s, pos, key, list, rest, d, DefinitionView { derive_events: names, ..d });
}

/// The clauses are read as they are written, where the text ends after them.
proof fn lemma_transitions_is_set(
    s: Seq<char>,
    pos: int,
    clauses: Seq<StateTransitionView>,
    d: DefinitionView,
)
    requires
        stands_at(
            s,
            pos,
            written_setting("transitions"@, seq!['{'] + written_clauses(clauses), Seq::empty()),
        ),
        pos + written_clauses(clauses).len() + 13 == s.len(),
        forall|k: int| 0 <= k < clauses.len() ==> clause_can_be_written(#[trigger] clauses[k]),
        s.len() <= usize::MAX,
    ensures
        settings_at(s, pos, d) == Ok::<DefinitionView, ParseError>(
            DefinitionView { transitions: clauses, ..d },
        ),
{
    lemma_words();
    let key = "transitions"@;
    let body = seq!['{'] + written_clauses(clauses);
    lemma_setting_stands(s, pos, key, body, Seq::empty());
    let value: int = pos + 12;
    lemma_stands_at_parts(s, value, seq!['{'], written_clauses(clauses));
    assert(seq!['{'][0] == '{');
    assert(s[value + 0] == seq!['{'][0]);
    lemma_symbol_is_read(s, value, '{');
    lemma_clauses_are_read(s, value + 1, clauses, Seq::empty());
    assert(Seq::<StateTransitionView>::empty() + clauses =~= clauses);
    lemma_no_space(s, s.len() as int);
}

/// A definition that can be written is read from what is written of it as
/// that definition.
pub proof fn lemma_written_is_read(d: DefinitionView)
    requires
        can_be_written(d),
        written(d).len() <= usize::MAX,
    ensures
        parsed(written(d)) == Ok::<DefinitionView, ParseError>(d),
{
    let s = written(d);
    assert(stands_at(s, 0, s));
    let transitions = written_setting(
        "transitions"@,
        seq!['{'] + written_clauses(d.transitions),
        Seq::empty(),
    );
    let events = written_setting(
        "derive_events"@,
        seq!['['] + written_names(d.derive_events),
        seq![','] + transitions,
    );
    let states = written_setting(
        "derive_states"@,
        seq!['['] + written_names(d.derive_states),
        seq![','] + events,
    );
    let error = written_setting(
        "custom_guard_error"@,
        written_bool(d.custom_guard_error),
        seq![','] + states,
    );
    let context = written_context(d.temporary_context_type, error);
    let d0 = no_settings();
    let d1 = DefinitionView { name: d.name, ..d0 };
    let d2 = DefinitionView { temporary_context_type: d.temporary_context_type, ..d1 };
    let d3 = DefinitionView { custom_guard_error: d.custom_guard_error, ..d2 };
    let d4 = DefinitionView { derive_states: d.derive_states, ..d3 };
    let d5 = DefinitionView { derive_events: d.derive_events, ..d4 };
    assert(d == DefinitionView { transitions: d.transitions, ..d5 });
    let p1: int = match d.name {
        Some(n) => n.len() as int + 6,
        None => 0,
    };
    match d.name {
        Some(n) => {
            lemma_name_is_set(s, 0, n, context, d0);
        },
        None => {},
    }
    assert(settings_at(s, 0, d0) == settings_at(s, p1, d1) && stands_at(s, p1, context));
    let p2: int = match d.temporary_context_type {
        Some(t) => p1 + t.len() + 19,
        None => p1,
    };
    match d.temporary_context_type {
        Some(t) => {
            lemma_context_is_set(s, p1, t, error, d1);
        },
        None => {},
    }
    assert(settings_at(s, p1, d1) == settings_at(s, p2, d2) && stands_at(s, p2, error));
    let p3: int = p2 + written_bool(d.custom_guard_error).len() + 20;
    lemma_guard_error_is_set(s, p2, d.custom_guard_error, states, d2);
    let p4: int = p3 + written_names(d.derive_states).len() + 16;
    lemma_derive_states_is_set(s, p3, d.derive_states, events, d3);
    let p5: int = p4 + written_names(d.derive_events).len() + 16;
    lemma_derive_events_is_set(s, p4, d.derive_events, transitions, d4);
    assert(p5 + written_clauses(d.transitions).len() + 13 == s.len()) by {
        lemma_words();
    }
    lemma_transitions_is_set(s, p5, d.transitions, d5);
}

fn append_symbol(res: &mut String, c: char)
    requires
        c == '(' || c == ')' || c == '[' || c == ']' || c == '{' || c == '}' || c == ',' || c == ':'
            || c == '+' || c == '/' || c == '=' || c == '*' || c == ' ',
    ensures
        final(res)@ == old(res)@ + seq![c],
{
    proof {
        reveal_strlit("(");
        reveal_strlit(")");
        reveal_strlit("[");
        reveal_strlit("]");
        reveal_strlit("{");
        reveal_strlit("}");
        reveal_strlit(",");
        reveal_strlit(":");
        reveal_strlit("+");
        reveal_strlit("/");
        reveal_strlit("=");
        reveal_strlit("*");
        reveal_strlit(" ");
    }
    let symbol = if c == '(' {
        "("
    } else if c == ')' {
        ")"
    } else if c == '[' {
        "["
    } else if c == ']' {
        "]"
    } else if c == '{' {
        "{"
    } else if c == '}' {
        "}"
    } else if c == ',' {
        ","
    } else if c == ':' {
        ":"
    } else if c == '+' {
        "+"
    } else if c == '/' {
        "/"
    } else if c == '=' {
        "="
    } else if c == '*' {
        "*"
    } else {
        " "
    };
    assert(symbol@ =~= seq![c]);
    res.append(symbol);
}

fn write_named(res: &mut String, name: &str, data: &Option<String>)
    ensures
        final(res)@ == old(res)@ + written_named(name@, text_view(*data)),
{
    res.append(name);
    match data {
        Some(t) => {
            append_symbol(res, '(');
            res.append(t.as_str());
            append_symbol(res, ')');
            assert(res@ =~= old(res)@ + written_named(name@, text_view(*data)));
        },
        None => {
            assert(res@ =~= old(res)@ + written_named(name@, text_view(*data)));
        },
    }
}

fn write_step(res: &mut String, a: &AsyncIdent)
    ensures
        final(res)@ == old(res)@ + written_step(a@),
{
    if a.is_async {
        proof {
            lemma_async_word();
        }
        res.append("async");
        append_symbol(res, ' ');
    }
    res.append(a.ident.as_str());
    assert(res@ =~= old(res)@ + written_step(a@));
}

/// Joining three texts gives the same text in either order of joining.
proof fn lemma_join(a: Seq<char>, b: Seq<char>, c: Seq<char>)
    ensures
        (a + b) + c == a + (b + c),
{
    assert((a + b) + c =~= a + (b + c));
}

fn write_guard(res: &mut String, guard: &Option<AsyncIdent>)
    ensures
        final(res)@ == old(res)@ + written_guard(ident_view(*guard)),
{
    match guard {
        Some(g) => {
            append_symbol(res, '[');
            write_step(res, g);
            append_symbol(res, ']');
            proof {
                lemma_join(old(res)@ + seq!['['], written_step(g@), seq![']']);
                lemma_join(old(res)@, seq!['['], written_step(g@) + seq![']']);
            }
        },
        None => {
            assert(res@ =~= old(res)@ + Seq::<char>::empty());
        },
    }
}

fn write_action(res: &mut String, action: &Option<AsyncIdent>)
    ensures
        final(res)@ == old(res)@ + written_action(ident_view(*action)),
{
    match action {
        Some(a) => {
            append_symbol(res, '/');
            write_step(res, a);
            proof {
                lemma_join(old(res)@, seq!['/'], written_step(a@));
            }
        },
        None => {
            assert(res@ =~= old(res)@ + Seq::<char>::empty());
        },
    }
}

fn write_target(res: &mut String, c: &StateTransition)
    ensures
        final(res)@ == old(res)@ + written_target(c@),
{
    write_guard(res, &c.guard);
    write_action(res, &c.action);
    append_symbol(res, '=');
    write_named(res, c.out_state.as_str(), &c.out_state_data);
    proof {
        let guard = written_guard(c@.guard);
        let action = written_action(c@.action);
        let named = written_named(c@.out_state, c@.out_state_data);
        lemma_join(old(res)@, guard, action);
        lemma_join(old(res)@ + (guard + action), seq!['='], named);
        lemma_join(old(res)@, guard + action, seq!['='] + named);
    }
}

fn write_start(res: &mut String, start: bool)
    ensures
        final(res)@ == old(res)@ + written_start(start),
{
    if start {
        append_symbol(res, '*');
    } else {
        assert(res@ =~= old(res)@ + Seq::<char>::empty());
    }
}

fn write_clause(res: &mut String, c: &StateTransition)
    ensures
        final(res)@ == old(res)@ + written_clause(c@),
{
    write_start(res, c.start);
    write_named(res, c.in_state.as_str(), &c.in_state_data);
    append_symbol(res, '+');
    write_named(res, c.event.as_str(), &c.event_data);
    write_target(res, c);
    proof {
        let start = written_start(c.start);
        let first = written_named(c@.in_state, c@.in_state_data);
        let second = written_named(c@.event, c@.event_data);
        let target = written_target(c@);
        let base = old(res)@;
        lemma_join(((base + start) + first) + seq!['+'], second, target);
        lemma_join((base + start) + first, seq!['+'], second + target);
        lemma_join(base + start, first, seq!['+'] + (second + target));
        lemma_join(base, start, first + (seq!['+'] + (second + target)));
    }
}

fn write_clauses(res: &mut String, clauses: &Vec<StateTransition>)
    ensures
        final(res)@ == old(res)@ + written_clauses(clause_views(clauses@)),
{
    let ghost views = clause_views(clauses@);
    let mut i: usize = 0;
    proof {
        assert(views.skip(0) =~= views);
        assert(res@ =~= old(res)@ + Seq::<char>::empty());
    }
    let ghost mut done = Seq::<char>::empty();
    while i < clauses.len()
        invariant
            i <= clauses.len(),
            views == clause_views(clauses@),
            res@ == old(res)@ + done,
            written_clauses(views) == done + written_clauses(views.skip(i as int)),
        decreases clauses.len() - i,
    {
        let ghost before = res@;
        write_clause(res, &clauses[i]);
        append_symbol(res, ',');
        proof {
            let c = views[i as int];
            assert(views.skip(i as int)[0] == c);
            assert(views.skip(i as int).skip(1) =~= views.skip(i + 1));
            let next = done + (written_clause(c) + seq![',']);
            assert(res@ =~= old(res)@ + next);
            assert(written_clauses(views) =~= next + written_clauses(views.skip(i + 1)));
            done = next;
        }
        i += 1;
    }
    append_symbol(res, '}');
    assert(res@ =~= old(res)@ + written_clauses(views));
}

fn write_names(res: &mut String, names: &Vec<String>)
    ensures
        final(res)@ == old(res)@ + written_names(texts(names@)),
{
    let ghost views = texts(names@);
    let mut i: usize = 0;
    proof {
        assert(views.skip(0) =~= views);
        assert(res@ =~= old(res)@ + Seq::<char>::empty());
    }
    let ghost mut done = Seq::<char>::empty();
    while i < names.len()
        invariant
            i <= names.len(),
            views == texts(names@),
            res@ == old(res)@ + done,
            written_names(views) == done + written_names(views.skip(i as int)),
        decreases names.len() - i,
    {
        res.append(names[i].as_str());
        append_symbol(res, ',');
        proof {
            let n = views[i as int];
            assert(views.skip(i as int)[0] == n);
            assert(views.skip(i as int).skip(1) =~= views.skip(i + 1));
            let next = done + (n + seq![',']);
            assert(res@ =~= old(res)@ + next);
            assert(written_names(views) =~= next + written_names(views.skip(i + 1)));
            done = next;
        }
        i += 1;
    }
    append_symbol(res, ']');
    assert(res@ =~= old(res)@ + written_names(views));
}

/// The text before what follows a setting, as it is written piece by piece,
/// is the setting as it is written.
proof fn lemma_setting_written(before: Seq<char>, key: Seq<char>, value: Seq<char>, rest: Seq<char>)
    ensures
        (((before + key) + seq![':']) + value) + rest == before + written_setting(key, value, rest),
{
    lemma_join((before + key) + seq![':'], value, rest);
    lemma_join(before + key, seq![':'], value + rest);
    lemma_join(before, key, seq![':'] + (value + rest));
}

fn write_setting(res: &mut String, key: &str, value: &str)
    ensures
        final(res)@ == (((old(res)@ + key@) + seq![':']) + value@) + seq![','],
{
    res.append(key);
    append_symbol(res, ':');
    res.append(value);
    append_symbol(res, ',');
}

fn write_list(res: &mut String, key: &str, names: &Vec<String>)
    ensures
        final(res)@ == (((old(res)@ + key@) + seq![':']) + (seq!['['] + written_names(
            texts(names@),
        ))) + seq![','],
{
    res.append(key);
    append_symbol(res, ':');
    let ghost before = res@;
    append_symbol(res, '[');
    write_names(res, names);
    proof {
        lemma_join(before, seq!['['], written_names(texts(names@)));
    }
    append_symbol(res, ',');
}

fn write_transitions(res: &mut String, clauses: &Vec<StateTransition>)
    ensures
        final(res)@ == old(res)@ + written_setting(
            "transitions"@,
            seq!['{'] + written_clauses(clause_views(clauses@)),
            Seq::empty(),
        ),
{
    res.append("transitions");
    append_symbol(res, ':');
    let ghost before = res@;
    append_symbol(res, '{');
    write_clauses(res, clauses);
    proof {
        let body = seq!['{'] + written_clauses(clause_views(clauses@));
        lemma_join(before, seq!['{'], written_clauses(clause_views(clauses@)));
        assert(res@ =~= (before + body) + Seq::<char>::empty());
        lemma_setting_written(old(res)@, "transitions"@, body, Seq::empty());
    }
}

fn write_optional(res: &mut String, key: &str, value: &Option<String>)
    ensures
        final(res)@ == (match value {
            Some(v) => (((old(res)@ + key@) + seq![':']) + v@) + seq![','],
            None => old(res)@,
        }),
{
    match value {
        Some(v) => {
            write_setting(res, key, v.as_str());
        },
        None => {},
    }
}

/// Writes a definition: the text that is read as this definition, where the
/// definition can be written.
pub fn write_definition(d: &Definition) -> (res: String)
    ensures
        res@ == written(d@),
{
    let mut res = String::new();
    write_optional(&mut res, "name", &d.name);
    let ghost p1 = res@;
    write_optional(&mut res, "temporary_context", &d.temporary_context_type);
    let ghost p2 = res@;
    write_setting(
        &mut res,
        "custom_guard_error",
        if d.custom_guard_error {
            "true"
        } else {
            "false"
        },
    );
    let ghost p3 = res@;
    write_list(&mut res, "derive_states", &d.derive_states);
    let ghost p4 = res@;
    write_list(&mut res, "derive_events", &d.derive_events);
    let ghost p5 = res@;
    write_transitions(&mut res, &d.transitions);
    proof {
        let v = d@;
        let transitions = written_setting(
            "transitions"@,
            seq!['{'] + written_clauses(v.transitions),
            Seq::empty(),
        );
        let events_list = seq!['['] + written_names(v.derive_events);
        let events = written_setting("derive_events"@, events_list, seq![','] + transitions);
        let states_list = seq!['['] + written_names(v.derive_states);
        let states = written_setting("derive_states"@, states_list, seq![','] + events);
        let word = written_bool(v.custom_guard_error);
        let error = written_setting("custom_guard_error"@, word, seq![','] + states);
        let context = written_context(v.temporary_context_type, error);
        lemma_join(((p4 + "derive_events"@) + seq![':']) + events_list, seq![','], transitions);
        lemma_setting_written(p4, "derive_events"@, events_list, seq![','] + transitions);
        assert(res@ == p4 + events);
        lemma_join(((p3 + "derive_states"@) + seq![':']) + states_list, seq![','], events);
        lemma_setting_written(p3, "derive_states"@, states_list, seq![','] + events);
        assert(res@ == p3 + states);
        lemma_join(((p2 + "custom_guard_error"@) + seq![':']) + word, seq![','], states);
        lemma_setting_written(p2, "custom_guard_error"@, word, seq![','] + states);
        assert(res@ == p2 + error);
        match v.temporary_context_type {
            Some(t) => {
                lemma_join(((p1 + "temporary_context"@) + seq![':']) + t, seq![','], error);
                lemma_setting_written(p1, "temporary_context"@, t, seq![','] + error);
            },
            None => {},
        }
        assert(res@ == p1 + context);
        let empty = Seq::<char>::empty();
        match v.name {
            Some(n) => {
                lemma_join(((empty + "name"@) + seq![':']) + n, seq![','], context);
                lemma_setting_written(empty, "name"@, n, seq![','] + context);
            },
            None => {},
        }
        assert(empty + written(v) =~= written(v));
    }
    res
}

} // verus!

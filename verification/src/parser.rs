//! The grammar of a definition: how a text is read as settings and clauses,
//! and which error is reported where it is none.

use crate::definition::{
    check_name_char, clause_views, is_name_char, text_view, Definition, DefinitionView, StateTransition,
    StateTransitionView,
};
use crate::model::{ident_view, AsyncIdent, AsyncIdentView};
use crate::text::{same_text, texts};
use vstd::prelude::*;

verus! {

/// Whether a character separates tokens and means nothing else.
pub open spec fn is_space(c: char) -> bool {
    c == ' ' || c == '\t' || c == '\n' || c == '\r'
}

/// Whether a character can begin a name: a name character that is no digit.
pub open spec fn is_name_start(c: char) -> bool {
    is_name_char(c) && !('0' <= c && c <= '9')
}

/// Whether a character opens a group.
pub open spec fn is_opener(c: char) -> bool {
    c == '(' || c == '[' || c == '{'
}

/// Whether a character closes a group.
pub open spec fn is_closer(c: char) -> bool {
    c == ')' || c == ']' || c == '}'
}

/// The first place at or after `pos` that holds no space; the end of the
/// text where there is none.
pub open spec fn skip_spaces(s: Seq<char>, pos: int) -> int
    decreases s.len() - pos,
{
    if 0 <= pos < s.len() && is_space(s[pos]) {
        skip_spaces(s, pos + 1)
    } else {
        pos
    }
}

/// The first place at or after `pos` that holds no name character.
pub open spec fn name_end(s: Seq<char>, pos: int) -> int
    decreases s.len() - pos,
{
    if 0 <= pos < s.len() && is_name_char(s[pos]) {
        name_end(s, pos + 1)
    } else {
        pos
    }
}

/// The place of the character that closes the group which is `depth` groups
/// deep at `pos`, if the text closes it.
pub open spec fn group_end(s: Seq<char>, pos: int, depth: nat) -> Option<int>
    decreases s.len() - pos,
{
    if pos < 0 || pos >= s.len() || depth == 0 {
        None
    } else if is_opener(s[pos]) {
        group_end(s, pos + 1, depth + 1)
    } else if is_closer(s[pos]) {
        if depth == 1 {
            Some(pos)
        } else {
            group_end(s, pos + 1, (depth - 1) as nat)
        }
    } else {
        group_end(s, pos + 1, depth)
    }
}

/// Skipping spaces goes forward, and not past the end of the text.
pub proof fn lemma_skip_spaces(s: Seq<char>, pos: int)
    ensures
        pos <= skip_spaces(s, pos),
        pos <= s.len() ==> skip_spaces(s, pos) <= s.len(),
    decreases s.len() - pos,
{
    if 0 <= pos < s.len() && is_space(s[pos]) {
        lemma_skip_spaces(s, pos + 1);
    }
}

/// A name ends after its first character, and not past the end of the text.
pub proof fn lemma_name_end(s: Seq<char>, pos: int)
    ensures
        pos <= name_end(s, pos),
        pos <= s.len() ==> name_end(s, pos) <= s.len(),
        0 <= pos < s.len() && is_name_char(s[pos]) ==> pos < name_end(s, pos),
    decreases s.len() - pos,
{
    if 0 <= pos < s.len() && is_name_char(s[pos]) {
        lemma_name_end(s, pos + 1);
    }
}

/// A group is closed at or after the place from which its end is looked
/// for, by a closing bracket.
pub proof fn lemma_group_end(s: Seq<char>, pos: int, depth: nat)
    requires
        0 <= pos <= s.len(),
    ensures
        group_end(s, pos, depth) is Some ==> pos <= group_end(s, pos, depth)->0 < s.len()
            && is_closer(s[group_end(s, pos, depth)->0]),
    decreases s.len() - pos,
{
    if pos < s.len() && depth > 0 {
        if is_opener(s[pos]) {
            lemma_group_end(s, pos + 1, depth + 1);
        } else if is_closer(s[pos]) {
            if depth > 1 {
                lemma_group_end(s, pos + 1, (depth - 1) as nat);
            }
        } else {
            lemma_group_end(s, pos + 1, depth);
        }
    }
}

/// What a text lacks where it is no definition.
#[derive(Debug, Clone, Copy, PartialEq, Eq, Structural)]
pub enum ParseErrorKind {
    /// The name of a setting is expected.
    ExpectedKey,
    /// The name is not that of a setting.
    UnknownKey,
    /// A colon is expected after the name of a setting.
    ExpectedColon,
    /// A comma is expected between two settings.
    ExpectedComma,
    /// A name is expected.
    ExpectedName,
    /// `true` or `false` is expected.
    ExpectedBool,
    /// A list in square brackets is expected.
    ExpectedList,
    /// A comma or the end of the list is expected.
    ExpectedListEnd,
    /// The clauses in curly brackets are expected.
    ExpectedTransitions,
    /// A comma or the end of the clauses is expected.
    ExpectedClauseEnd,
    /// The name of a state is expected.
    ExpectedState,
    /// A plus sign is expected between the state and the event.
    ExpectedPlus,
    /// The name of an event is expected.
    ExpectedEvent,
    /// The square bracket that closes the guard is expected.
    ExpectedGuardEnd,
    /// An equals sign is expected before the target state.
    ExpectedEquals,
    /// The round bracket that opens the data is never closed.
    UnclosedData,
    /// The data is closed by another bracket than a round one.
    MismatchedData,
}

/// Why a text is no definition, and the place in the text, counted in
/// characters, where that shows.
#[derive(Debug, Clone, Copy, PartialEq, Eq, Structural)]
pub struct ParseError {
    pub position: usize,
    pub kind: ParseErrorKind,
}

/// The error of kind `kind` at `pos`.
pub open spec fn fail(pos: int, kind: ParseErrorKind) -> ParseError {
    ParseError { position: pos as usize, kind }
}

/// The name that is the next token, and the place after it.
pub open spec fn name_at(s: Seq<char>, pos: int) -> Option<(Seq<char>, int)> {
    let p = skip_spaces(s, pos);
    if 0 <= p < s.len() && is_name_start(s[p]) {
        Some((s.subrange(p, name_end(s, p)), name_end(s, p)))
    } else {
        None
    }
}

/// The place after the next token, where that token is the character `c`.
pub open spec fn symbol_at(s: Seq<char>, pos: int, c: char) -> Option<int> {
    let p = skip_spaces(s, pos);
    if 0 <= p < s.len() && s[p] == c {
        Some(p + 1)
    } else {
        None
    }
}

/// The data in round brackets at `pos`, if a round bracket opens there: the
/// text between the brackets, and the place after them.
pub open spec fn data_at(s: Seq<char>, pos: int) -> Result<(Option<Seq<char>>, int), ParseError> {
    match symbol_at(s, pos, '(') {
        None => Ok((None, pos)),
        Some(inner) => match group_end(s, inner, 1) {
            Some(end) => if s[end] == ')' {
                Ok((Some(s.subrange(inner, end)), end + 1))
            } else {
                Err(fail(end, ParseErrorKind::MismatchedData))
            },
            None => Err(fail(inner - 1, ParseErrorKind::UnclosedData)),
        },
    }
}

/// The guard or the action at `pos`: its name, after the word `async` where
/// it is awaited.
pub open spec fn step_at(s: Seq<char>, pos: int) -> Result<(AsyncIdentView, int), ParseError> {
    match name_at(s, pos) {
        None => Err(fail(skip_spaces(s, pos), ParseErrorKind::ExpectedName)),
        Some((first, next)) => if first == "async"@ {
            match name_at(s, next) {
                Some((name, after)) => Ok((AsyncIdentView { ident: name, is_async: true }, after)),
                None => Err(fail(skip_spaces(s, next), ParseErrorKind::ExpectedName)),
            }
        } else {
            Ok((AsyncIdentView { ident: first, is_async: false }, next))
        },
    }
}

/// The guard in square brackets at `pos`, if a square bracket opens there.
pub open spec fn guard_at(s: Seq<char>, pos: int) -> Result<(Option<AsyncIdentView>, int), ParseError> {
    match symbol_at(s, pos, '[') {
        None => Ok((None, pos)),
        Some(inner) => match step_at(s, inner) {
            Err(e) => Err(e),
            Ok((guard, after)) => match symbol_at(s, after, ']') {
                Some(end) => Ok((Some(guard), end)),
                None => Err(fail(skip_spaces(s, after), ParseErrorKind::ExpectedGuardEnd)),
            },
        },
    }
}

/// The action after a slash at `pos`, if a slash stands there.
pub open spec fn action_at(s: Seq<char>, pos: int) -> Result<(Option<AsyncIdentView>, int), ParseError> {
    match symbol_at(s, pos, '/') {
        None => Ok((None, pos)),
        Some(inner) => match step_at(s, inner) {
            Err(e) => Err(e),
            Ok((action, after)) => Ok((Some(action), after)),
        },
    }
}

/// A name and the data after it, where a name of the kind that `kind` asks
/// for stands at `pos`.
pub open spec fn named_at(s: Seq<char>, pos: int, kind: ParseErrorKind) -> Result<
    (Seq<char>, Option<Seq<char>>, int),
    ParseError,
> {
    match name_at(s, pos) {
        None => Err(fail(skip_spaces(s, pos), kind)),
        Some((name, after)) => match data_at(s, after) {
            Err(e) => Err(e),
            Ok((data, end)) => Ok((name, data, end)),
        },
    }
}

/// The guard and the action at `pos`, where there are any.
pub open spec fn steps_at(s: Seq<char>, pos: int) -> Result<
    (Option<AsyncIdentView>, Option<AsyncIdentView>, int),
    ParseError,
> {
    match guard_at(s, pos) {
        Err(e) => Err(e),
        Ok((guard, after)) => match action_at(s, after) {
            Err(e) => Err(e),
            Ok((action, end)) => Ok((guard, action, end)),
        },
    }
}

/// The clause at `pos`: an asterisk where its state is the starting state,
/// the state, a plus sign, the event, the guard in square brackets, the
/// action after a slash, an equals sign and the target state; each state and
/// the event with its data in round brackets where it carries any.
pub open spec fn clause_at(s: Seq<char>, pos: int) -> Result<(StateTransitionView, int), ParseError> {
    let (start, begin) = match symbol_at(s, pos, '*') {
        Some(p) => (true, p),
        None => (false, pos),
    };
    match named_at(s, begin, ParseErrorKind::ExpectedState) {
        Err(e) => Err(e),
        Ok((in_state, in_state_data, p1)) => match symbol_at(s, p1, '+') {
            None => Err(fail(skip_spaces(s, p1), ParseErrorKind::ExpectedPlus)),
            Some(p2) => match named_at(s, p2, ParseErrorKind::ExpectedEvent) {
                Err(e) => Err(e),
                Ok((event, event_data, p3)) => match steps_at(s, p3) {
                    Err(e) => Err(e),
                    Ok((guard, action, p4)) => match symbol_at(s, p4, '=') {
                        None => Err(fail(skip_spaces(s, p4), ParseErrorKind::ExpectedEquals)),
                        Some(p5) => match named_at(s, p5, ParseErrorKind::ExpectedState) {
                            Err(e) => Err(e),
                            Ok((out_state, out_state_data, p6)) => Ok(
                                (
                                    StateTransitionView {
                                        start,
                                        in_state,
                                        in_state_data,
                                        event,
                                        event_data,
                                        guard,
                                        action,
                                        out_state,
                                        out_state_data,
                                    },
                                    p6,
                                ),
                            ),
                        },
                    },
                },
            },
        },
    }
}

/// A name ends after the place where it begins.
pub proof fn lemma_name_at(s: Seq<char>, pos: int)
    ensures
        name_at(s, pos) is Some ==> 0 <= pos < (name_at(s, pos)->0).1 <= s.len(),
{
    lemma_skip_spaces(s, pos);
    lemma_name_end(s, skip_spaces(s, pos));
}

/// A symbol ends after the place where it is looked for.
pub proof fn lemma_symbol_at(s: Seq<char>, pos: int, c: char)
    ensures
        symbol_at(s, pos, c) is Some ==> 0 <= pos < symbol_at(s, pos, c)->0 <= s.len(),
{
    lemma_skip_spaces(s, pos);
}

/// Data ends no earlier than where it is looked for.
pub proof fn lemma_data_at(s: Seq<char>, pos: int)
    ensures
        data_at(s, pos) is Ok ==> pos <= data_at(s, pos)->Ok_0.1,
        data_at(s, pos) is Ok && pos <= s.len() ==> data_at(s, pos)->Ok_0.1 <= s.len(),
{
    lemma_symbol_at(s, pos, '(');
    if symbol_at(s, pos, '(') is Some {
        lemma_group_end(s, symbol_at(s, pos, '(')->0, 1);
    }
}

/// A guard or an action ends after the place where it begins.
pub proof fn lemma_step_at(s: Seq<char>, pos: int)
    ensures
        step_at(s, pos) is Ok ==> 0 <= pos < step_at(s, pos)->Ok_0.1 <= s.len(),
{
    lemma_name_at(s, pos);
    if name_at(s, pos) is Some {
        lemma_name_at(s, (name_at(s, pos)->0).1);
    }
}

/// The guard and the action end no earlier than where they are looked for.
pub proof fn lemma_steps_at(s: Seq<char>, pos: int)
    ensures
        steps_at(s, pos) is Ok ==> pos <= steps_at(s, pos)->Ok_0.2,
        steps_at(s, pos) is Ok && pos <= s.len() ==> steps_at(s, pos)->Ok_0.2 <= s.len(),
{
    lemma_symbol_at(s, pos, '[');
    if symbol_at(s, pos, '[') is Some {
        let inner = symbol_at(s, pos, '[')->0;
        lemma_step_at(s, inner);
        if step_at(s, inner) is Ok {
            lemma_symbol_at(s, step_at(s, inner)->Ok_0.1, ']');
        }
    }
    if guard_at(s, pos) is Ok {
        let after = guard_at(s, pos)->Ok_0.1;
        lemma_symbol_at(s, after, '/');
        if symbol_at(s, after, '/') is Some {
            lemma_step_at(s, symbol_at(s, after, '/')->0);
        }
    }
}

/// A name with its data ends after the place where it begins.
pub proof fn lemma_named_at(s: Seq<char>, pos: int, kind: ParseErrorKind)
    ensures
        named_at(s, pos, kind) is Ok ==> 0 <= pos < named_at(s, pos, kind)->Ok_0.2 <= s.len(),
{
    lemma_name_at(s, pos);
    if name_at(s, pos) is Some {
        lemma_data_at(s, (name_at(s, pos)->0).1);
    }
}

/// A clause ends after the place where it begins.
pub proof fn lemma_clause_at(s: Seq<char>, pos: int)
    ensures
        clause_at(s, pos) is Ok ==> 0 <= pos < clause_at(s, pos)->Ok_0.1 <= s.len(),
{
    lemma_symbol_at(s, pos, '*');
    let begin = match symbol_at(s, pos, '*') {
        Some(p) => p,
        None => pos,
    };
    lemma_named_at(s, begin, ParseErrorKind::ExpectedState);
    if named_at(s, begin, ParseErrorKind::ExpectedState) is Ok {
        let p1 = named_at(s, begin, ParseErrorKind::ExpectedState)->Ok_0.2;
        lemma_symbol_at(s, p1, '+');
        if symbol_at(s, p1, '+') is Some {
            let p2 = symbol_at(s, p1, '+')->0;
            lemma_named_at(s, p2, ParseErrorKind::ExpectedEvent);
            if named_at(s, p2, ParseErrorKind::ExpectedEvent) is Ok {
                let p3 = named_at(s, p2, ParseErrorKind::ExpectedEvent)->Ok_0.2;
                lemma_steps_at(s, p3);
                if steps_at(s, p3) is Ok {
                    let p4 = steps_at(s, p3)->Ok_0.2;
                    lemma_symbol_at(s, p4, '=');
                    if symbol_at(s, p4, '=') is Some {
                        lemma_named_at(s, symbol_at(s, p4, '=')->0, ParseErrorKind::ExpectedState);
                    }
                }
            }
        }
    }
}

/// The clauses from `pos` up to the curly bracket that closes them, after
/// those of `acc`: clauses with a comma between them, and a comma after the
/// last one or none.
pub open spec fn clauses_at(s: Seq<char>, pos: int, acc: Seq<StateTransitionView>) -> Result<
    (Seq<StateTransitionView>, int),
    ParseError,
>
    decreases s.len() - pos,
    via clauses_at_ends
{
    match symbol_at(s, pos, '}') {
        Some(end) => Ok((acc, end)),
        None => match clause_at(s, pos) {
            Err(e) => Err(e),
            Ok((c, after)) => match symbol_at(s, after, ',') {
                Some(next) => clauses_at(s, next, acc.push(c)),
                None => match symbol_at(s, after, '}') {
                    Some(end) => Ok((acc.push(c), end)),
                    None => Err(fail(skip_spaces(s, after), ParseErrorKind::ExpectedClauseEnd)),
                },
            },
        },
    }
}

#[via_fn]
proof fn clauses_at_ends(s: Seq<char>, pos: int, acc: Seq<StateTransitionView>) {
    lemma_clause_at(s, pos);
    if clause_at(s, pos) is Ok {
        lemma_symbol_at(s, clause_at(s, pos)->Ok_0.1, ',');
    }
}

/// The names from `pos` up to the square bracket that closes them, after
/// those of `acc`: names with a comma between them, and a comma after the
/// last one or none.
pub open spec fn names_at(s: Seq<char>, pos: int, acc: Seq<Seq<char>>) -> Result<
    (Seq<Seq<char>>, int),
    ParseError,
>
    decreases s.len() - pos,
    via names_at_ends
{
    match symbol_at(s, pos, ']') {
        Some(end) => Ok((acc, end)),
        None => match name_at(s, pos) {
            None => Err(fail(skip_spaces(s, pos), ParseErrorKind::ExpectedName)),
            Some((name, after)) => match symbol_at(s, after, ',') {
                Some(next) => names_at(s, next, acc.push(name)),
                None => match symbol_at(s, after, ']') {
                    Some(end) => Ok((acc.push(name), end)),
                    None => Err(fail(skip_spaces(s, after), ParseErrorKind::ExpectedListEnd)),
                },
            },
        },
    }
}

#[via_fn]
proof fn names_at_ends(s: Seq<char>, pos: int, acc: Seq<Seq<char>>) {
    lemma_name_at(s, pos);
    if name_at(s, pos) is Some {
        lemma_symbol_at(s, (name_at(s, pos)->0).1, ',');
    }
}

/// The end of the type that begins at or before `pos`, at which `depth`
/// brackets are open: the place of the first comma or closing bracket outside
/// all brackets, angle brackets included, or the end of the text. An arrow is
/// no bracket.
pub open spec fn type_end(s: Seq<char>, pos: int, depth: nat) -> int
    decreases s.len() - pos,
{
    if pos < 0 || pos >= s.len() {
        pos
    } else if depth == 0 && (s[pos] == ',' || is_closer(s[pos])) {
        pos
    } else if s[pos] == '-' && pos + 1 < s.len() && s[pos + 1] == '>' {
        type_end(s, pos + 2, depth)
    } else if is_opener(s[pos]) || s[pos] == '<' {
        type_end(s, pos + 1, depth + 1)
    } else if is_closer(s[pos]) || s[pos] == '>' {
        type_end(
            s,
            pos + 1,
            if depth > 0 {
                (depth - 1) as nat
            } else {
                0
            },
        )
    } else {
        type_end(s, pos + 1, depth)
    }
}

/// A type ends no earlier than where it is looked for.
pub proof fn lemma_type_end(s: Seq<char>, pos: int, depth: nat)
    ensures
        pos <= type_end(s, pos, depth),
        0 <= pos <= s.len() ==> type_end(s, pos, depth) <= s.len(),
    decreases s.len() - pos,
{
    if 0 <= pos < s.len() && !(depth == 0 && (s[pos] == ',' || is_closer(s[pos]))) {
        if s[pos] == '-' && pos + 1 < s.len() && s[pos + 1] == '>' {
            lemma_type_end(s, pos + 2, depth);
        } else if is_opener(s[pos]) || s[pos] == '<' {
            lemma_type_end(s, pos + 1, depth + 1);
        } else if is_closer(s[pos]) || s[pos] == '>' {
            lemma_type_end(
                s,
                pos + 1,
                if depth > 0 {
                    (depth - 1) as nat
                } else {
                    0
                },
            );
        } else {
            lemma_type_end(s, pos + 1, depth);
        }
    }
}

/// Whether a name is that of a setting.
pub open spec fn is_setting(key: Seq<char>) -> bool {
    key == "name"@ || key == "derive_states"@ || key == "derive_events"@ || key
        == "temporary_context"@ || key == "custom_guard_error"@ || key == "transitions"@
}

/// The definition `d` with the setting `key` as it is written at `pos`, and
/// the place after it. The settings are `name` with a name,
/// `derive_states` and `derive_events` with a list of names in square
/// brackets, `temporary_context` with a type, `custom_guard_error` with
/// `true` or `false`, and `transitions` with the clauses in curly brackets.
pub open spec fn setting_at(s: Seq<char>, pos: int, key: Seq<char>, d: DefinitionView) -> Result<
    (DefinitionView, int),
    ParseError,
> {
    if key == "name"@ {
        match name_at(s, pos) {
            Some((name, after)) => Ok((DefinitionView { name: Some(name), ..d }, after)),
            None => Err(fail(skip_spaces(s, pos), ParseErrorKind::ExpectedName)),
        }
    } else if key == "derive_states"@ {
        match symbol_at(s, pos, '[') {
            Some(inner) => match names_at(s, inner, Seq::empty()) {
                Ok((names, after)) => Ok((DefinitionView { derive_states: names, ..d }, after)),
                Err(e) => Err(e),
            },
            None => Err(fail(skip_spaces(s, pos), ParseErrorKind::ExpectedList)),
        }
    } else if key == "derive_events"@ {
        match symbol_at(s, pos, '[') {
            Some(inner) => match names_at(s, inner, Seq::empty()) {
                Ok((names, after)) => Ok((DefinitionView { derive_events: names, ..d }, after)),
                Err(e) => Err(e),
            },
            None => Err(fail(skip_spaces(s, pos), ParseErrorKind::ExpectedList)),
        }
    } else if key == "temporary_context"@ {
        let begin = skip_spaces(s, pos);
        let end = type_end(s, begin, 0);
        Ok((DefinitionView { temporary_context_type: Some(s.subrange(begin, end)), ..d }, end))
    } else if key == "custom_guard_error"@ {
        match name_at(s, pos) {
            Some((value, after)) => if value == "true"@ {
                Ok((DefinitionView { custom_guard_error: true, ..d }, after))
            } else if value == "false"@ {
                Ok((DefinitionView { custom_guard_error: false, ..d }, after))
            } else {
                Err(fail(skip_spaces(s, pos), ParseErrorKind::ExpectedBool))
            },
            None => Err(fail(skip_spaces(s, pos), ParseErrorKind::ExpectedBool)),
        }
    } else if key == "transitions"@ {
        match symbol_at(s, pos, '{') {
            Some(inner) => match clauses_at(s, inner, Seq::empty()) {
                Ok((clauses, after)) => Ok((DefinitionView { transitions: clauses, ..d }, after)),
                Err(e) => Err(e),
            },
            None => Err(fail(skip_spaces(s, pos), ParseErrorKind::ExpectedTransitions)),
        }
    } else {
        Err(fail(skip_spaces(s, pos), ParseErrorKind::UnknownKey))
    }
}

/// The definition `d` with the settings that are written from `pos` on: each
/// is a name, a colon and what is set, with a comma between two settings and
/// a comma after the last one or none. A setting that is written twice holds
/// what was written last.
pub open spec fn settings_at(s: Seq<char>, pos: int, d: DefinitionView) -> Result<
    DefinitionView,
    ParseError,
>
    decreases s.len() - pos,
    via settings_at_ends
{
    if skip_spaces(s, pos) >= s.len() {
        Ok(d)
    } else {
        match name_at(s, pos) {
            None => Err(fail(skip_spaces(s, pos), ParseErrorKind::ExpectedKey)),
            Some((key, after)) => if !is_setting(key) {
                Err(fail(skip_spaces(s, pos), ParseErrorKind::UnknownKey))
            } else {
                match symbol_at(s, after, ':') {
                    None => Err(fail(skip_spaces(s, after), ParseErrorKind::ExpectedColon)),
                    Some(value) => match setting_at(s, value, key, d) {
                        Err(e) => Err(e),
                        Ok((next, end)) => if skip_spaces(s, end) >= s.len() {
                            Ok(next)
                        } else {
                            match symbol_at(s, end, ',') {
                                Some(rest) => settings_at(s, rest, next),
                                None => Err(
                                    fail(skip_spaces(s, end), ParseErrorKind::ExpectedComma),
                                ),
                            }
                        },
                    },
                }
            },
        }
    }
}

#[via_fn]
proof fn settings_at_ends(s: Seq<char>, pos: int, d: DefinitionView) {
    lemma_name_at(s, pos);
    if name_at(s, pos) is Some {
        let after = (name_at(s, pos)->0).1;
        lemma_symbol_at(s, after, ':');
        if symbol_at(s, after, ':') is Some {
            let value = symbol_at(s, after, ':')->0;
            let key = (name_at(s, pos)->0).0;
            lemma_setting_at(s, value, key, d);
            if setting_at(s, value, key, d) is Ok {
                lemma_symbol_at(s, setting_at(s, value, key, d)->Ok_0.1, ',');
            }
        }
    }
}

/// The clauses end after the place where they begin.
pub proof fn lemma_clauses_at(s: Seq<char>, pos: int, acc: Seq<StateTransitionView>)
    ensures
        clauses_at(s, pos, acc) is Ok ==> 0 <= pos < clauses_at(s, pos, acc)->Ok_0.1 <= s.len(),
    decreases s.len() - pos,
{
    lemma_symbol_at(s, pos, '}');
    lemma_clause_at(s, pos);
    if symbol_at(s, pos, '}') is None && clause_at(s, pos) is Ok {
        let (c, after) = clause_at(s, pos)->Ok_0;
        lemma_symbol_at(s, after, ',');
        lemma_symbol_at(s, after, '}');
        if symbol_at(s, after, ',') is Some {
            lemma_clauses_at(s, symbol_at(s, after, ',')->0, acc.push(c));
        }
    }
}

/// The names end after the place where they begin.
pub proof fn lemma_names_at(s: Seq<char>, pos: int, acc: Seq<Seq<char>>)
    ensures
        names_at(s, pos, acc) is Ok ==> 0 <= pos < names_at(s, pos, acc)->Ok_0.1 <= s.len(),
    decreases s.len() - pos,
{
    lemma_symbol_at(s, pos, ']');
    lemma_name_at(s, pos);
    if symbol_at(s, pos, ']') is None && name_at(s, pos) is Some {
        let (name, after) = name_at(s, pos)->0;
        lemma_symbol_at(s, after, ',');
        lemma_symbol_at(s, after, ']');
        if symbol_at(s, after, ',') is Some {
            lemma_names_at(s, symbol_at(s, after, ',')->0, acc.push(name));
        }
    }
}

/// A setting ends no earlier than where it is looked for.
pub proof fn lemma_setting_at(s: Seq<char>, pos: int, key: Seq<char>, d: DefinitionView)
    ensures
        setting_at(s, pos, key, d) is Ok ==> pos <= setting_at(s, pos, key, d)->Ok_0.1,
        setting_at(s, pos, key, d) is Ok && 0 <= pos <= s.len() ==> setting_at(
            s,
            pos,
            key,
            d,
        )->Ok_0.1 <= s.len(),
{
    lemma_name_at(s, pos);
    lemma_symbol_at(s, pos, '[');
    lemma_symbol_at(s, pos, '{');
    lemma_skip_spaces(s, pos);
    lemma_type_end(s, skip_spaces(s, pos), 0);
    if symbol_at(s, pos, '[') is Some {
        lemma_names_at(s, symbol_at(s, pos, '[')->0, Seq::empty());
    }
    if symbol_at(s, pos, '{') is Some {
        lemma_clauses_at(s, symbol_at(s, pos, '{')->0, Seq::empty());
    }
}

/// A definition without settings.
pub open spec fn no_settings() -> DefinitionView {
    DefinitionView {
        name: None,
        temporary_context_type: None,
        custom_guard_error: false,
        derive_states: Seq::empty(),
        derive_events: Seq::empty(),
        transitions: Seq::empty(),
    }
}

/// The definition that a text is, or why it is none.
pub open spec fn parsed(s: Seq<char>) -> Result<DefinitionView, ParseError> {
    settings_at(s, 0, no_settings())
}

/// An error in data is at a place of the text.
pub proof fn lemma_data_at_error(s: Seq<char>, pos: int)
    requires
        0 <= pos <= s.len() <= usize::MAX,
    ensures
        data_at(s, pos) is Err ==> data_at(s, pos)->Err_0.position <= s.len(),
{
    lemma_symbol_at(s, pos, '(');
    if symbol_at(s, pos, '(') is Some {
        lemma_group_end(s, symbol_at(s, pos, '(')->0, 1);
    }
}

/// An error in a guard or an action is at a place of the text.
pub proof fn lemma_step_at_error(s: Seq<char>, pos: int)
    requires
        0 <= pos <= s.len() <= usize::MAX,
    ensures
        step_at(s, pos) is Err ==> step_at(s, pos)->Err_0.position <= s.len(),
{
    lemma_skip_spaces(s, pos);
    lemma_name_at(s, pos);
    if name_at(s, pos) is Some {
        lemma_skip_spaces(s, (name_at(s, pos)->0).1);
    }
}

/// An error in a name with data is at a place of the text.
pub proof fn lemma_named_at_error(s: Seq<char>, pos: int, kind: ParseErrorKind)
    requires
        0 <= pos <= s.len() <= usize::MAX,
    ensures
        named_at(s, pos, kind) is Err ==> named_at(s, pos, kind)->Err_0.position <= s.len(),
{
    lemma_skip_spaces(s, pos);
    lemma_name_at(s, pos);
    if name_at(s, pos) is Some {
        lemma_data_at_error(s, (name_at(s, pos)->0).1);
    }
}

/// An error in the guard and the action is at a place of the text.
pub proof fn lemma_steps_at_error(s: Seq<char>, pos: int)
    requires
        0 <= pos <= s.len() <= usize::MAX,
    ensures
        steps_at(s, pos) is Err ==> steps_at(s, pos)->Err_0.position <= s.len(),
{
    lemma_symbol_at(s, pos, '[');
    if symbol_at(s, pos, '[') is Some {
        let inner = symbol_at(s, pos, '[')->0;
        lemma_step_at(s, inner);
        lemma_step_at_error(s, inner);
        if step_at(s, inner) is Ok {
            let after = step_at(s, inner)->Ok_0.1;
            lemma_symbol_at(s, after, ']');
            lemma_skip_spaces(s, after);
        }
    }
    if guard_at(s, pos) is Ok {
        let after = guard_at(s, pos)->Ok_0.1;
        lemma_symbol_at(s, after, '/');
        if symbol_at(s, after, '/') is Some {
            lemma_step_at_error(s, symbol_at(s, after, '/')->0);
        }
    }
}

/// An error in a clause is at a place of the text.
pub proof fn lemma_clause_at_error(s: Seq<char>, pos: int)
    requires
        0 <= pos <= s.len() <= usize::MAX,
    ensures
        clause_at(s, pos) is Err ==> clause_at(s, pos)->Err_0.position <= s.len(),
{
    lemma_symbol_at(s, pos, '*');
    let begin = match symbol_at(s, pos, '*') {
        Some(p) => p,
        None => pos,
    };
    lemma_named_at(s, begin, ParseErrorKind::ExpectedState);
    lemma_named_at_error(s, begin, ParseErrorKind::ExpectedState);
    if named_at(s, begin, ParseErrorKind::ExpectedState) is Ok {
        let p1 = named_at(s, begin, ParseErrorKind::ExpectedState)->Ok_0.2;
        lemma_symbol_at(s, p1, '+');
        lemma_skip_spaces(s, p1);
        if symbol_at(s, p1, '+') is Some {
            let p2 = symbol_at(s, p1, '+')->0;
            lemma_named_at(s, p2, ParseErrorKind::ExpectedEvent);
            lemma_named_at_error(s, p2, ParseErrorKind::ExpectedEvent);
            if named_at(s, p2, ParseErrorKind::ExpectedEvent) is Ok {
                let p3 = named_at(s, p2, ParseErrorKind::ExpectedEvent)->Ok_0.2;
                lemma_steps_at(s, p3);
                lemma_steps_at_error(s, p3);
                if steps_at(s, p3) is Ok {
                    let p4 = steps_at(s, p3)->Ok_0.2;
                    lemma_symbol_at(s, p4, '=');
                    lemma_skip_spaces(s, p4);
                    if symbol_at(s, p4, '=') is Some {
                        lemma_named_at_error(
                            s,
                            symbol_at(s, p4, '=')->0,
                            ParseErrorKind::ExpectedState,
                        );
                    }
                }
            }
        }
    }
}

/// An error in the clauses is at a place of the text.
pub proof fn lemma_clauses_at_error(s: Seq<char>, pos: int, acc: Seq<StateTransitionView>)
    requires
        0 <= pos <= s.len() <= usize::MAX,
    ensures
        clauses_at(s, pos, acc) is Err ==> clauses_at(s, pos, acc)->Err_0.position <= s.len(),
    decreases s.len() - pos,
{
    lemma_clause_at(s, pos);
    lemma_clause_at_error(s, pos);
    if symbol_at(s, pos, '}') is None && clause_at(s, pos) is Ok {
        let (c, after) = clause_at(s, pos)->Ok_0;
        lemma_symbol_at(s, after, ',');
        lemma_skip_spaces(s, after);
        if symbol_at(s, after, ',') is Some {
            lemma_clauses_at_error(s, symbol_at(s, after, ',')->0, acc.push(c));
        }
    }
}

/// An error in a list of names is at a place of the text.
pub proof fn lemma_names_at_error(s: Seq<char>, pos: int, acc: Seq<Seq<char>>)
    requires
        0 <= pos <= s.len() <= usize::MAX,
    ensures
        names_at(s, pos, acc) is Err ==> names_at(s, pos, acc)->Err_0.position <= s.len(),
    decreases s.len() - pos,
{
    lemma_name_at(s, pos);
    lemma_skip_spaces(s, pos);
    if symbol_at(s, pos, ']') is None && name_at(s, pos) is Some {
        let (name, after) = name_at(s, pos)->0;
        lemma_symbol_at(s, after, ',');
        lemma_skip_spaces(s, after);
        if symbol_at(s, after, ',') is Some {
            lemma_names_at_error(s, symbol_at(s, after, ',')->0, acc.push(name));
        }
    }
}

/// An error in a setting is at a place of the text.
pub proof fn lemma_setting_at_error(s: Seq<char>, pos: int, key: Seq<char>, d: DefinitionView)
    requires
        0 <= pos <= s.len() <= usize::MAX,
    ensures
        setting_at(s, pos, key, d) is Err ==> setting_at(s, pos, key, d)->Err_0.position
            <= s.len(),
{
    lemma_skip_spaces(s, pos);
    lemma_symbol_at(s, pos, '[');
    lemma_symbol_at(s, pos, '{');
    if symbol_at(s, pos, '[') is Some {
        lemma_names_at_error(s, symbol_at(s, pos, '[')->0, Seq::empty());
    }
    if symbol_at(s, pos, '{') is Some {
        lemma_clauses_at_error(s, symbol_at(s, pos, '{')->0, Seq::empty());
    }
}

/// An error in the settings is at a place of the text.
pub proof fn lemma_settings_at_error(s: Seq<char>, pos: int, d: DefinitionView)
    requires
        0 <= pos <= s.len() <= usize::MAX,
    ensures
        settings_at(s, pos, d) is Err ==> settings_at(s, pos, d)->Err_0.position <= s.len(),
    decreases s.len() - pos,
{
    lemma_skip_spaces(s, pos);
    lemma_name_at(s, pos);
    if skip_spaces(s, pos) < s.len() && name_at(s, pos) is Some {
        let (key, after) = name_at(s, pos)->0;
        lemma_symbol_at(s, after, ':');
        lemma_skip_spaces(s, after);
        if is_setting(key) && symbol_at(s, after, ':') is Some {
            let value = symbol_at(s, after, ':')->0;
            lemma_setting_at(s, value, key, d);
            lemma_setting_at_error(s, value, key, d);
            if setting_at(s, value, key, d) is Ok {
                let (next, end) = setting_at(s, value, key, d)->Ok_0;
                lemma_skip_spaces(s, end);
                lemma_symbol_at(s, end, ',');
                if skip_spaces(s, end) < s.len() && symbol_at(s, end, ',') is Some {
                    lemma_settings_at_error(s, symbol_at(s, end, ',')->0, next);
                }
            }
        }
    }
}

/// The error of a text that is no definition names a place of the text, or
/// its end.
pub proof fn lemma_error_is_in_the_text(s: Seq<char>)
    requires
        s.len() <= usize::MAX,
    ensures
        parsed(s) is Err ==> parsed(s)->Err_0.position <= s.len(),
{
    lemma_settings_at_error(s, 0, no_settings());
}

/// A text, held so that its characters can be read by their place.
pub struct Source<'a> {
    text: &'a str,
    chars: Vec<char>,
}

impl<'a> View for Source<'a> {
    type V = Seq<char>;

    closed spec fn view(&self) -> Seq<char> {
        self.text@
    }
}

impl<'a> Source<'a> {
    #[verifier::type_invariant]
    spec fn wf(&self) -> bool {
        self.chars@ == self.text@
    }

    /// Holds `text`.
    pub fn new(text: &'a str) -> (res: Source<'a>)
        ensures
            res@ == text@,
    {
        let n: usize = text.unicode_len();
        let mut chars: Vec<char> = Vec::new();
        let mut i: usize = 0;
        while i < n
            invariant
                n == text@.len(),
                i <= n,
                chars@ == text@.take(i as int),
            decreases n - i,
        {
            chars.push(text.get_char(i));
            assert(text@.take(i + 1) =~= text@.take(i as int).push(text@[i as int]));
            i += 1;
        }
        assert(text@.take(n as int) =~= text@);
        Source { text, chars }
    }

    /// The number of characters.
    pub fn len(&self) -> (res: usize)
        ensures
            res == self@.len(),
    {
        proof {
            use_type_invariant(self);
        }
        self.chars.len()
    }

    /// The character at `pos`.
    pub fn at(&self, pos: usize) -> (res: char)
        requires
            pos < self@.len(),
        ensures
            res == self@[pos as int],
    {
        proof {
            use_type_invariant(self);
        }
        self.chars[pos]
    }

    /// Whether the character `c` stands at `pos`.
    pub fn has(&self, pos: usize, c: char) -> (res: bool)
        ensures
            res == (pos < self@.len() && self@[pos as int] == c),
            self@.len() <= usize::MAX,
    {
        pos < self.len() && self.at(pos) == c
    }

    /// The text from `from` up to `to`.
    pub fn slice(&self, from: usize, to: usize) -> (res: String)
        requires
            from <= to <= self@.len(),
        ensures
            res@ == self@.subrange(from as int, to as int),
    {
        String::from_str(self.text.substring_char(from, to))
    }

    /// The first place at or after `pos` that holds no space.
    pub fn skip_spaces(&self, pos: usize) -> (res: usize)
        requires
            pos <= self@.len(),
        ensures
            res == skip_spaces(self@, pos as int),
            pos <= res <= self@.len(),
    {
        let mut p: usize = pos;
        proof {
            lemma_skip_spaces(self@, pos as int);
        }
        while p < self.len() && check_space(self.at(p))
            invariant
                pos <= p <= self@.len(),
                skip_spaces(self@, pos as int) == skip_spaces(self@, p as int),
            decreases self@.len() - p,
        {
            p += 1;
        }
        p
    }

    /// The first place at or after `pos` that holds no name character.
    pub fn name_end(&self, pos: usize) -> (res: usize)
        requires
            pos <= self@.len(),
        ensures
            res == name_end(self@, pos as int),
            pos <= res <= self@.len(),
    {
        let mut p: usize = pos;
        while p < self.len() && check_name_char(self.at(p))
            invariant
                pos <= p <= self@.len(),
                name_end(self@, pos as int) == name_end(self@, p as int),
            decreases self@.len() - p,
        {
            p += 1;
        }
        p
    }

    fn name_at(&self, pos: usize) -> (res: Option<(String, usize)>)
        requires
            pos <= self@.len(),
        ensures
            match res {
                Some((name, after)) => name_at(self@, pos as int) == Some((name@, after as int))
                    && pos < after <= self@.len(),
                None => name_at(self@, pos as int) is None,
            },
    {
        proof {
            lemma_name_at(self@, pos as int);
        }
        let p = self.skip_spaces(pos);
        if p < self.len() && check_name_start(self.at(p)) {
            let end = self.name_end(p);
            Some((self.slice(p, end), end))
        } else {
            None
        }
    }

    fn symbol_at(&self, pos: usize, c: char) -> (res: Option<usize>)
        requires
            pos <= self@.len(),
        ensures
            match res {
                Some(after) => symbol_at(self@, pos as int, c) == Some(after as int) && pos < after
                    <= self@.len(),
                None => symbol_at(self@, pos as int, c) is None,
            },
    {
        let p = self.skip_spaces(pos);
        if self.has(p, c) {
            Some(p + 1)
        } else {
            None
        }
    }

    fn data_at(&self, pos: usize) -> (res: Result<(Option<String>, usize), ParseError>)
        requires
            pos <= self@.len(),
        ensures
            match res {
                Ok((data, after)) => data_at(self@, pos as int) == Ok::<
                    (Option<Seq<char>>, int),
                    ParseError,
                >((text_view(data), after as int)) && pos <= after <= self@.len(),
                Err(e) => data_at(self@, pos as int) == Err::<(Option<Seq<char>>, int), ParseError>(
                    e,
                ),
            },
    {
        match self.symbol_at(pos, '(') {
            None => Ok((None, pos)),
            Some(inner) => match self.group_end(inner) {
                Some(end) => {
                    if self.at(end) == ')' {
                        Ok((Some(self.slice(inner, end)), end + 1))
                    } else {
                        Err(ParseError { position: end, kind: ParseErrorKind::MismatchedData })
                    }
                },
                None => Err(
                    ParseError { position: inner - 1, kind: ParseErrorKind::UnclosedData },
                ),
            },
        }
    }

    fn step_at(&self, pos: usize) -> (res: Result<(AsyncIdent, usize), ParseError>)
        requires
            pos <= self@.len(),
        ensures
            match res {
                Ok((step, after)) => step_at(self@, pos as int) == Ok::<
                    (AsyncIdentView, int),
                    ParseError,
                >((step@, after as int)) && pos < after <= self@.len(),
                Err(e) => step_at(self@, pos as int) == Err::<(AsyncIdentView, int), ParseError>(e),
            },
    {
        match self.name_at(pos) {
            None => Err(
                ParseError { position: self.skip_spaces(pos), kind: ParseErrorKind::ExpectedName },
            ),
            Some((first, next)) => {
                if same_text(first.as_str(), "async") {
                    match self.name_at(next) {
                        Some((name, after)) => Ok((AsyncIdent { ident: name, is_async: true }, after)),
                        None => Err(
                            ParseError {
                                position: self.skip_spaces(next),
                                kind: ParseErrorKind::ExpectedName,
                            },
                        ),
                    }
                } else {
                    Ok((AsyncIdent { ident: first, is_async: false }, next))
                }
            },
        }
    }

    fn guard_at(&self, pos: usize) -> (res: Result<(Option<AsyncIdent>, usize), ParseError>)
        requires
            pos <= self@.len(),
        ensures
            match res {
                Ok((guard, after)) => guard_at(self@, pos as int) == Ok::<
                    (Option<AsyncIdentView>, int),
                    ParseError,
                >((ident_view(guard), after as int)) && pos <= after <= self@.len(),
                Err(e) => guard_at(self@, pos as int) == Err::<
                    (Option<AsyncIdentView>, int),
                    ParseError,
                >(e),
            },
    {
        match self.symbol_at(pos, '[') {
            None => Ok((None, pos)),
            Some(inner) => match self.step_at(inner) {
                Err(e) => Err(e),
                Ok((guard, after)) => match self.symbol_at(after, ']') {
                    Some(end) => Ok((Some(guard), end)),
                    None => Err(
                        ParseError {
                            position: self.skip_spaces(after),
                            kind: ParseErrorKind::ExpectedGuardEnd,
                        },
                    ),
                },
            },
        }
    }

    fn action_at(&self, pos: usize) -> (res: Result<(Option<AsyncIdent>, usize), ParseError>)
        requires
            pos <= self@.len(),
        ensures
            match res {
                Ok((action, after)) => action_at(self@, pos as int) == Ok::<
                    (Option<AsyncIdentView>, int),
                    ParseError,
                >((ident_view(action), after as int)) && pos <= after <= self@.len(),
                Err(e) => action_at(self@, pos as int) == Err::<
                    (Option<AsyncIdentView>, int),
                    ParseError,
                >(e),
            },
    {
        match self.symbol_at(pos, '/') {
            None => Ok((None, pos)),
            Some(inner) => match self.step_at(inner) {
                Err(e) => Err(e),
                Ok((action, after)) => Ok((Some(action), after)),
            },
        }
    }

    fn named_at(&self, pos: usize, kind: ParseErrorKind) -> (res: Result<
        (String, Option<String>, usize),
        ParseError,
    >)
        requires
            pos <= self@.len(),
        ensures
            match res {
                Ok((name, data, after)) => named_at(self@, pos as int, kind) == Ok::<
                    (Seq<char>, Option<Seq<char>>, int),
                    ParseError,
                >((name@, text_view(data), after as int)) && pos < after <= self@.len(),
                Err(e) => named_at(self@, pos as int, kind) == Err::<
                    (Seq<char>, Option<Seq<char>>, int),
                    ParseError,
                >(e),
            },
    {
        match self.name_at(pos) {
            None => Err(ParseError { position: self.skip_spaces(pos), kind }),
            Some((name, after)) => match self.data_at(after) {
                Err(e) => Err(e),
                Ok((data, end)) => Ok((name, data, end)),
            },
        }
    }

    fn steps_at(&self, pos: usize) -> (res: Result<
        (Option<AsyncIdent>, Option<AsyncIdent>, usize),
        ParseError,
    >)
        requires
            pos <= self@.len(),
        ensures
            match res {
                Ok((guard, action, after)) => steps_at(self@, pos as int) == Ok::<
                    (Option<AsyncIdentView>, Option<AsyncIdentView>, int),
                    ParseError,
                >((ident_view(guard), ident_view(action), after as int)) && pos <= after
                    <= self@.len(),
                Err(e) => steps_at(self@, pos as int) == Err::<
                    (Option<AsyncIdentView>, Option<AsyncIdentView>, int),
                    ParseError,
                >(e),
            },
    {
        match self.guard_at(pos) {
            Err(e) => Err(e),
            Ok((guard, after)) => match self.action_at(after) {
                Err(e) => Err(e),
                Ok((action, end)) => Ok((guard, action, end)),
            },
        }
    }

    fn clause_at(&self, pos: usize) -> (res: Result<(StateTransition, usize), ParseError>)
        requires
            pos <= self@.len(),
        ensures
            match res {
                Ok((clause, after)) => clause_at(self@, pos as int) == Ok::<
                    (StateTransitionView, int),
                    ParseError,
                >((clause@, after as int)) && pos < after <= self@.len(),
                Err(e) => clause_at(self@, pos as int) == Err::<
                    (StateTransitionView, int),
                    ParseError,
                >(e),
            },
    {
        let (start, begin) = match self.symbol_at(pos, '*') {
            Some(p) => (true, p),
            None => (false, pos),
        };
        let (in_state, in_state_data, p1) = match self.named_at(
            begin,
            ParseErrorKind::ExpectedState,
        ) {
            Ok(found) => found,
            Err(e) => {
                return Err(e);
            },
        };
        let p2 = match self.symbol_at(p1, '+') {
            Some(p) => p,
            None => {
                return Err(
                    ParseError {
                        position: self.skip_spaces(p1),
                        kind: ParseErrorKind::ExpectedPlus,
                    },
                );
            },
        };
        let (event, event_data, p3) = match self.named_at(p2, ParseErrorKind::ExpectedEvent) {
            Ok(found) => found,
            Err(e) => {
                return Err(e);
            },
        };
        let (guard, action, p4) = match self.steps_at(p3) {
            Ok(found) => found,
            Err(e) => {
                return Err(e);
            },
        };
        let p5 = match self.symbol_at(p4, '=') {
            Some(p) => p,
            None => {
                return Err(
                    ParseError {
                        position: self.skip_spaces(p4),
                        kind: ParseErrorKind::ExpectedEquals,
                    },
                );
            },
        };
        let (out_state, out_state_data, p6) = match self.named_at(
            p5,
            ParseErrorKind::ExpectedState,
        ) {
            Ok(found) => found,
            Err(e) => {
                return Err(e);
            },
        };
        Ok(
            (
                StateTransition {
                    start,
                    in_state,
                    in_state_data,
                    event,
                    event_data,
                    guard,
                    action,
                    out_state,
                    out_state_data,
                },
                p6,
            ),
        )
    }

    fn clauses_at(&self, pos: usize) -> (res: Result<(Vec<StateTransition>, usize), ParseError>)
        requires
            pos <= self@.len(),
        ensures
            match res {
                Ok((clauses, after)) => clauses_at(self@, pos as int, Seq::empty()) == Ok::<
                    (Seq<StateTransitionView>, int),
                    ParseError,
                >((clause_views(clauses@), after as int)) && pos < after <= self@.len(),
                Err(e) => clauses_at(self@, pos as int, Seq::empty()) == Err::<
                    (Seq<StateTransitionView>, int),
                    ParseError,
                >(e),
            },
    {
        let mut acc: Vec<StateTransition> = Vec::new();
        let mut p: usize = pos;
        assert(clause_views(acc@) =~= Seq::<StateTransitionView>::empty());
        loop
            invariant
                pos <= p <= self@.len(),
                clauses_at(self@, pos as int, Seq::empty()) == clauses_at(
                    self@,
                    p as int,
                    clause_views(acc@),
                ),
            decreases self@.len() - p,
        {
            match self.symbol_at(p, '}') {
                Some(end) => {
                    return Ok((acc, end));
                },
                None => {},
            }
            let (clause, after) = match self.clause_at(p) {
                Ok(found) => found,
                Err(e) => {
                    return Err(e);
                },
            };
            let ghost before = clause_views(acc@);
            acc.push(clause);
            assert(clause_views(acc@) =~= before.push(clause@));
            match self.symbol_at(after, ',') {
                Some(next) => {
                    p = next;
                },
                None => {
                    match self.symbol_at(after, '}') {
                        Some(end) => {
                            return Ok((acc, end));
                        },
                        None => {
                            return Err(
                                ParseError {
                                    position: self.skip_spaces(after),
                                    kind: ParseErrorKind::ExpectedClauseEnd,
                                },
                            );
                        },
                    }
                },
            }
        }
    }

    fn names_at(&self, pos: usize) -> (res: Result<(Vec<String>, usize), ParseError>)
        requires
            pos <= self@.len(),
        ensures
            match res {
                Ok((names, after)) => names_at(self@, pos as int, Seq::empty()) == Ok::<
                    (Seq<Seq<char>>, int),
                    ParseError,
                >((texts(names@), after as int)) && pos < after <= self@.len(),
                Err(e) => names_at(self@, pos as int, Seq::empty()) == Err::<
                    (Seq<Seq<char>>, int),
                    ParseError,
                >(e),
            },
    {
        let mut acc: Vec<String> = Vec::new();
        let mut p: usize = pos;
        assert(texts(acc@) =~= Seq::<Seq<char>>::empty());
        loop
            invariant
                pos <= p <= self@.len(),
                names_at(self@, pos as int, Seq::empty()) == names_at(
                    self@,
                    p as int,
                    texts(acc@),
                ),
            decreases self@.len() - p,
        {
            match self.symbol_at(p, ']') {
                Some(end) => {
                    return Ok((acc, end));
                },
                None => {},
            }
            let (name, after) = match self.name_at(p) {
                Some(found) => found,
                None => {
                    return Err(
                        ParseError {
                            position: self.skip_spaces(p),
                            kind: ParseErrorKind::ExpectedName,
                        },
                    );
                },
            };
            let ghost before = texts(acc@);
            acc.push(name);
            assert(texts(acc@) =~= before.push(name@));
            match self.symbol_at(after, ',') {
                Some(next) => {
                    p = next;
                },
                None => {
                    match self.symbol_at(after, ']') {
                        Some(end) => {
                            return Ok((acc, end));
                        },
                        None => {
                            return Err(
                                ParseError {
                                    position: self.skip_spaces(after),
                                    kind: ParseErrorKind::ExpectedListEnd,
                                },
                            );
                        },
                    }
                },
            }
        }
    }

    fn type_end(&self, pos: usize) -> (res: usize)
        requires
            pos <= self@.len(),
        ensures
            res == type_end(self@, pos as int, 0),
            pos <= res <= self@.len(),
    {
        let mut p: usize = pos;
        let mut depth: usize = 0;
        while p < self.len()
            invariant
                pos <= p <= self@.len(),
                depth <= p - pos,
                type_end(self@, pos as int, 0) == type_end(self@, p as int, depth as nat),
            decreases self@.len() - p,
        {
            let c = self.at(p);
            if depth == 0 && (c == ',' || c == ')' || c == ']' || c == '}') {
                return p;
            } else if c == '-' && self.has(p + 1, '>') {
                p += 2;
            } else if c == '(' || c == '[' || c == '{' || c == '<' {
                depth += 1;
                p += 1;
            } else if c == ')' || c == ']' || c == '}' || c == '>' {
                if depth > 0 {
                    depth -= 1;
                }
                p += 1;
            } else {
                p += 1;
            }
        }
        p
    }

    fn setting_at(&self, pos: usize, key: &str, d: &mut Definition) -> (res: Result<
        usize,
        ParseError,
    >)
        requires
            pos <= self@.len(),
        ensures
            match res {
                Ok(after) => setting_at(self@, pos as int, key@, old(d)@) == Ok::<
                    (DefinitionView, int),
                    ParseError,
                >((final(d)@, after as int)) && pos <= after <= self@.len(),
                Err(e) => setting_at(self@, pos as int, key@, old(d)@) == Err::<
                    (DefinitionView, int),
                    ParseError,
                >(e),
            },
    {
        if same_text(key, "name") {
            match self.name_at(pos) {
                Some((name, after)) => {
                    d.name = Some(name);
                    Ok(after)
                },
                None => Err(
                    ParseError {
                        position: self.skip_spaces(pos),
                        kind: ParseErrorKind::ExpectedName,
                    },
                ),
            }
        } else if same_text(key, "derive_states") {
            match self.symbol_at(pos, '[') {
                Some(inner) => match self.names_at(inner) {
                    Ok((names, after)) => {
                        d.derive_states = names;
                        Ok(after)
                    },
                    Err(e) => Err(e),
                },
                None => Err(
                    ParseError {
                        position: self.skip_spaces(pos),
                        kind: ParseErrorKind::ExpectedList,
                    },
                ),
            }
        } else if same_text(key, "derive_events") {
            match self.symbol_at(pos, '[') {
                Some(inner) => match self.names_at(inner) {
                    Ok((names, after)) => {
                        d.derive_events = names;
                        Ok(after)
                    },
                    Err(e) => Err(e),
                },
                None => Err(
                    ParseError {
                        position: self.skip_spaces(pos),
                        kind: ParseErrorKind::ExpectedList,
                    },
                ),
            }
        } else if same_text(key, "temporary_context") {
            let begin = self.skip_spaces(pos);
            let end = self.type_end(begin);
            d.temporary_context_type = Some(self.slice(begin, end));
            Ok(end)
        } else if same_text(key, "custom_guard_error") {
            match self.name_at(pos) {
                Some((value, after)) => {
                    if same_text(value.as_str(), "true") {
                        d.custom_guard_error = true;
                        Ok(after)
                    } else if same_text(value.as_str(), "false") {
                        d.custom_guard_error = false;
                        Ok(after)
                    } else {
                        Err(
                            ParseError {
                                position: self.skip_spaces(pos),
                                kind: ParseErrorKind::ExpectedBool,
                            },
                        )
                    }
                },
                None => Err(
                    ParseError {
                        position: self.skip_spaces(pos),
                        kind: ParseErrorKind::ExpectedBool,
                    },
                ),
            }
        } else if same_text(key, "transitions") {
            match self.symbol_at(pos, '{') {
                Some(inner) => match self.clauses_at(inner) {
                    Ok((clauses, after)) => {
                        d.transitions = clauses;
                        Ok(after)
                    },
                    Err(e) => Err(e),
                },
                None => Err(
                    ParseError {
                        position: self.skip_spaces(pos),
                        kind: ParseErrorKind::ExpectedTransitions,
                    },
                ),
            }
        } else {
            Err(ParseError { position: self.skip_spaces(pos), kind: ParseErrorKind::UnknownKey })
        }
    }

    /// The place of the character that closes the group that was opened just
    /// before `pos`, if the text closes it.
    pub fn group_end(&self, pos: usize) -> (res: Option<usize>)
        requires
            pos <= self@.len(),
        ensures
            match res {
                Some(end) => group_end(self@, pos as int, 1) == Some(end as int) && pos <= end
                    < self@.len(),
                None => group_end(self@, pos as int, 1) is None,
            },
            self@.len() <= usize::MAX,
    {
        let mut p: usize = pos;
        let mut inner: usize = 0;
        while p < self.len()
            invariant
                pos <= p <= self@.len(),
                inner <= p - pos,
                group_end(self@, pos as int, 1) == group_end(self@, p as int, (inner + 1) as nat),
            decreases self@.len() - p,
        {
            let c = self.at(p);
            if c == '(' || c == '[' || c == '{' {
                inner += 1;
            } else if c == ')' || c == ']' || c == '}' {
                if inner == 0 {
                    return Some(p);
                }
                inner -= 1;
            }
            p += 1;
        }
        None
    }
}

fn check_setting(key: &str) -> (res: bool)
    ensures
        res == is_setting(key@),
{
    same_text(key, "name") || same_text(key, "derive_states") || same_text(key, "derive_events")
        || same_text(key, "temporary_context") || same_text(key, "custom_guard_error")
        || same_text(key, "transitions")
}

/// Reads a definition from its text.
pub fn parse(text: &str) -> (res: Result<Definition, ParseError>)
    ensures
        match res {
            Ok(d) => parsed(text@) == Ok::<DefinitionView, ParseError>(d@),
            Err(e) => parsed(text@) == Err::<DefinitionView, ParseError>(e),
        },
{
    let source = Source::new(text);
    let mut d = Definition {
        name: None,
        temporary_context_type: None,
        custom_guard_error: false,
        derive_states: Vec::new(),
        derive_events: Vec::new(),
        transitions: Vec::new(),
    };
    let mut p: usize = 0;
    proof {
        assert(d@.derive_states =~= Seq::<Seq<char>>::empty());
        assert(d@.transitions =~= Seq::<StateTransitionView>::empty());
        assert(d@ == no_settings());
    }
    loop
        invariant
            source@ == text@,
            p <= text@.len(),
            parsed(text@) == settings_at(text@, p as int, d@),
        decreases text@.len() - p,
    {
        let begin = source.skip_spaces(p);
        if begin >= source.len() {
            return Ok(d);
        }
        let (key, after) = match source.name_at(p) {
            Some(found) => found,
            None => {
                return Err(ParseError { position: begin, kind: ParseErrorKind::ExpectedKey });
            },
        };
        if !check_setting(key.as_str()) {
            return Err(ParseError { position: begin, kind: ParseErrorKind::UnknownKey });
        }
        let value = match source.symbol_at(after, ':') {
            Some(value) => value,
            None => {
                return Err(
                    ParseError {
                        position: source.skip_spaces(after),
                        kind: ParseErrorKind::ExpectedColon,
                    },
                );
            },
        };
        let end = match source.setting_at(value, key.as_str(), &mut d) {
            Ok(end) => end,
            Err(e) => {
                return Err(e);
            },
        };
        if source.skip_spaces(end) >= source.len() {
            return Ok(d);
        }
        match source.symbol_at(end, ',') {
            Some(rest) => {
                p = rest;
            },
            None => {
                return Err(
                    ParseError {
                        position: source.skip_spaces(end),
                        kind: ParseErrorKind::ExpectedComma,
                    },
                );
            },
        }
    }
}

fn check_space(c: char) -> (res: bool)
    ensures
        res == is_space(c),
{
    c == ' ' || c == '\t' || c == '\n' || c == '\r'
}

fn check_name_start(c: char) -> (res: bool)
    ensures
        res == is_name_start(c),
{
    check_name_char(c) && !('0' <= c && c <= '9')
}

} // verus!

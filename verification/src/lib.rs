//! State machines from a table of transitions.
//!
//! A definition names states, events, guards and actions, clause by clause:
//! `*State1 + Event1(Data) [guard] / action = State2`. The library reads such
//! a definition from its text ([`parser`]) and writes it back ([`writer`]),
//! resolves it into a machine whose states, events and transitions are
//! checked against each other ([`definition`], [`model`]), generates the code
//! of that machine ([`codegen`]), and runs a machine directly from its
//! resolved definition ([`machine`]). What holds of every machine is stated
//! and proved in [`laws`] and [`definition_laws`].

use crate::codegen::{generate_code, source_text, CodegenError};
use crate::definition::{
    definition_error, resolved, Definition, DefinitionError, DefinitionView,
};
use crate::model::ParsedStateMachine;
use crate::parser::{parse, parsed, ParseError};
use crate::tokens::{lexed, stream_tokens};
use vstd::prelude::*;

pub mod codegen;
pub mod definition;
pub mod definition_laws;
pub mod laws;
pub mod machine;
pub mod model;
pub mod parser;
pub mod writer;
pub mod text;
pub mod tokens;

verus! {

/// Why a definition was not compiled.
#[derive(Debug, Clone, Copy, PartialEq, Eq, Structural)]
pub enum CompileError {
    /// The text is no definition.
    Parse(ParseError),
    /// The definition is refused.
    Definition(DefinitionError),
    /// No code was generated for the machine.
    Codegen(CodegenError),
}

/// Compiles a definition: resolves it and generates the code of the machine
/// that it defines. A definition with an error is refused with that error.
pub fn compile(d: Definition) -> (res: Result<proc_macro2::TokenStream, CompileError>)
    ensures
        match res {
            Ok(stream) => definition_error(d@) is None && lexed(source_text(resolved(d@))) == Some(
                stream_tokens(stream),
            ),
            Err(CompileError::Definition(e)) => definition_error(d@) == Some(e),
            Err(CompileError::Codegen(e)) => definition_error(d@) is None && lexed(
                source_text(resolved(d@)),
            ) is None && e == CodegenError::InvalidTokens,
            Err(CompileError::Parse(_)) => false,
        },
{
    match ParsedStateMachine::new(d) {
        Ok(sm) => match generate_code(&sm) {
            Ok(stream) => Ok(stream),
            Err(e) => Err(CompileError::Codegen(e)),
        },
        Err(e) => Err(CompileError::Definition(e)),
    }
}

/// Compiles the text of a definition: reads the definition, resolves it
/// and generates the code of the machine that it defines. A text that is no
/// definition, and a definition with an error, is refused with its error.
pub fn compile_text(text: &str) -> (res: Result<proc_macro2::TokenStream, CompileError>)
    ensures
        match res {
            Ok(stream) => parsed(text@) is Ok && definition_error(parsed(text@)->Ok_0) is None
                && lexed(source_text(resolved(parsed(text@)->Ok_0))) == Some(stream_tokens(stream)),
            Err(CompileError::Parse(e)) => parsed(text@) == Err::<DefinitionView, ParseError>(e),
            Err(CompileError::Definition(e)) => parsed(text@) is Ok && definition_error(
                parsed(text@)->Ok_0,
            ) == Some(e),
            Err(CompileError::Codegen(e)) => parsed(text@) is Ok && definition_error(
                parsed(text@)->Ok_0,
            ) is None && lexed(source_text(resolved(parsed(text@)->Ok_0))) is None && e
                == CodegenError::InvalidTokens,
        },
{
    match parse(text) {
        Ok(d) => compile(d),
        Err(e) => Err(CompileError::Parse(e)),
    }
}

} // verus!

//! What the library takes from `proc_macro2` and `syn` on trust: the tokens of
//! a text, and the type that a text is.

use vstd::prelude::*;

verus! {

/// `proc_macro2::TokenStream`: a sequence of tokens. It is carried through
/// and never looked into.
#[verifier::external_type_specification]
#[verifier::external_body]
pub struct ExTokenStream(proc_macro2::TokenStream);

/// `proc_macro2::LexError`: why a text is not a sequence of tokens. It is
/// carried through and never looked into.
#[verifier::external_type_specification]
#[verifier::external_body]
pub struct ExLexError(proc_macro2::LexError);

/// The tokens that a token stream holds, each as it is printed, in order.
pub uninterp spec fn stream_tokens(stream: proc_macro2::TokenStream) -> Seq<Seq<char>>;

/// The tokens that `proc_macro2` reads from a text, each as it is printed, or
/// `None` where the text is not a sequence of tokens.
pub uninterp spec fn lexed(text: Seq<char>) -> Option<Seq<Seq<char>>>;

/// The type that `syn` reads from a text: its tokens as `proc_macro2` prints
/// them, and whether it is a reference type; or `None` where the text is not
/// a type.
pub uninterp spec fn parsed_type(text: Seq<char>) -> Option<(Seq<char>, bool)>;

/// Calls `proc_macro2::TokenStream::from_str`, which reads the tokens of a
/// text or fails with a `LexError`. Nothing is proved of it: the contract only
/// gives names to the tokens that it read and to those that the stream holds,
/// and says that they are the same.
#[verifier::external_body]
pub(crate) fn lex(text: &str) -> (res: Result<proc_macro2::TokenStream, proc_macro2::LexError>)
    ensures
        match res {
            Ok(stream) => lexed(text@) == Some(stream_tokens(stream)),
            Err(_) => lexed(text@) is None,
        },
{
    text.parse::<proc_macro2::TokenStream>()
}

/// Calls `syn::parse_str` for a `syn::Type`, prints the type that was read
/// with `quote::ToTokens::to_token_stream`, and tells whether it is the
/// variant `syn::Type::Reference`. Nothing is proved of it: the contract only
/// gives a name to what was read.
#[verifier::external_body]
pub(crate) fn read_type(text: &str) -> (res: Option<(String, bool)>)
    ensures
        match res {
            Some((tokens, is_reference)) => parsed_type(text@) == Some((tokens@, is_reference)),
            None => parsed_type(text@) is None,
        },
{
    match syn::parse_str::<syn::Type>(text) {
        Ok(ty) => {
            let is_reference = matches!(ty, syn::Type::Reference(_));
            Some((quote::ToTokens::to_token_stream(&ty).to_string(), is_reference))
        },
        Err(_) => None,
    }
}

} // verus!

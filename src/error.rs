//! What a failed parse reports.
use vstd::prelude::*;
use crate::token::{Tok, Token, opt_view};

verus! {

/// Why parsing stopped. `S` is as in `Token`.
#[allow(inconsistent_fields)]
#[derive(PartialEq, Eq, Debug, Clone, Copy)]
pub enum ParseError<S> {
    /// A token was required; `got` is what came instead, `None` at the end
    /// of the input. Where any name would do, `token` is the identifier
    /// `identifier`; where an expression or a type was due, it is `(`.
    Expected { token: Token<S>, got: Option<Token<S>> },
    /// The construct was complete but input was left over.
    ExpectedEnd { got: Token<S> },
    /// The input ended in the middle of a construct, or at a malformed
    /// literal.
    UnexpectedEof,
}

/// A parse error as specifications see it.
pub type Error = ParseError<Seq<char>>;

impl<'a> View for ParseError<&'a str> {
    type V = Error;

    open spec fn view(&self) -> Error {
        match *self {
            ParseError::Expected { token, got } => ParseError::Expected {
                token: token@,
                got: opt_view(got),
            },
            ParseError::ExpectedEnd { got } => ParseError::ExpectedEnd { got: got@ },
            ParseError::UnexpectedEof => ParseError::UnexpectedEof,
        }
    }
}

} // verus!

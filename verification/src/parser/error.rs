//! Parse errors. `UnclosedList` is its own variant, distinguished from the
//! other parse errors because it signals that more input may complete the
//! expression, so a read loop can keep accumulating instead of reporting a
//! syntax error.
use vstd::prelude::*;

use crate::tokenizer::{Token, TokenV};

verus! {

/// A parse error: an expected token class that was missing, a malformed
/// integer literal, a token outside the expected set (carried along with
/// that set, for diagnostics), or input that ran out inside an open list.
#[derive(Debug)]
pub enum ParserErr {
    TokenNotFound(String),
    ParseInt,
    UnexpectedToken((Token, Vec<String>)),
    UnclosedList,
}

/// Spec-level view of a [`ParserErr`].
#[verifier::ext_equal]
pub enum ParserErrV {
    TokenNotFound(Seq<char>),
    ParseInt,
    UnexpectedToken((TokenV, Seq<Seq<char>>)),
    UnclosedList,
}

impl DeepView for ParserErr {
    type V = ParserErrV;

    open spec fn deep_view(&self) -> ParserErrV {
        match self {
            ParserErr::TokenNotFound(s) => ParserErrV::TokenNotFound(s@),
            ParserErr::ParseInt => ParserErrV::ParseInt,
            ParserErr::UnexpectedToken(p) => ParserErrV::UnexpectedToken(
                (p.0.deep_view(), p.1.deep_view()),
            ),
            ParserErr::UnclosedList => ParserErrV::UnclosedList,
        }
    }
}

/// The token classes an expression may start with; carried by the
/// unexpected-token error raised where an expression was expected.
pub open spec fn expected_expr() -> Seq<Seq<char>> {
    seq!["("@, "'"@, "<"@, ">"@, "`"@, "<string>"@, "<atom>"@, "<value>"@]
}

/// Builds the expected-set of [`expected_expr`] as a vector of strings.
pub fn expected_expr_vec() -> (r: Vec<String>)
    ensures
        r.deep_view() == expected_expr(),
{
    let mut r: Vec<String> = Vec::new();
    r.push("(".to_owned());
    r.push("'".to_owned());
    r.push("<".to_owned());
    r.push(">".to_owned());
    r.push("`".to_owned());
    r.push("<string>".to_owned());
    r.push("<atom>".to_owned());
    r.push("<value>".to_owned());
    proof {
        assert(r.deep_view() =~= expected_expr());
    }
    r
}

/// Builds a one-entry expected-set.
pub fn expected_one(s: &str) -> (r: Vec<String>)
    ensures
        r.deep_view() == seq![s@],
{
    let mut r: Vec<String> = Vec::new();
    r.push(s.to_owned());
    proof {
        assert(r.deep_view() =~= seq![s@]);
    }
    r
}

} // verus!

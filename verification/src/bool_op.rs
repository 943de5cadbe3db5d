//! Operators of boolean predicate expressions.
use vstd::prelude::*;

use crate::lex::{ParseError, Rule};

verus! {

/// A binary boolean operator; evaluation short-circuits left to right.
#[derive(Clone, Copy, PartialEq, Eq, Structural, Debug)]
pub enum Binary {
    And,
    Or,
}

/// A unary boolean operator.
#[derive(Clone, Copy, PartialEq, Eq, Structural, Debug)]
pub enum Unary {
    Not,
}

/// Parses a binary boolean operator token: `&` or `|`.
pub fn parse_binary(s: &[u8], i: usize) -> (r: Result<(usize, Binary), ParseError>)
    requires
        i <= s@.len(),
    ensures
        match r {
            Ok((j, op)) => i < s@.len() && j == i + 1 && ((s@[i as int] == 38 && op == Binary::And)
                || (s@[i as int] == 124 && op == Binary::Or)),
            Err(e) => !(i < s@.len() && (s@[i as int] == 38 || s@[i as int] == 124)) && e
                == (ParseError { at: i, rule: Rule::Predicate }),
        },
{
    if i < s.len() && s[i] == 38 {
        Ok((i + 1, Binary::And))
    } else if i < s.len() && s[i] == 124 {
        Ok((i + 1, Binary::Or))
    } else {
        Err(ParseError { at: i, rule: Rule::Predicate })
    }
}

/// Parses the unary boolean operator token `!`.
pub fn parse_unary(s: &[u8], i: usize) -> (r: Result<(usize, Unary), ParseError>)
    requires
        i <= s@.len(),
    ensures
        match r {
            Ok((j, op)) => i < s@.len() && j == i + 1 && s@[i as int] == 33 && op == Unary::Not,
            Err(e) => !(i < s@.len() && s@[i as int] == 33) && e == (ParseError {
                at: i,
                rule: Rule::Predicate,
            }),
        },
{
    if i < s.len() && s[i] == 33 {
        Ok((i + 1, Unary::Not))
    } else {
        Err(ParseError { at: i, rule: Rule::Predicate })
    }
}

} // verus!

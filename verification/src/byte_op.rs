//! Operators of byte-sequence expressions.
use vstd::prelude::*;

use crate::lex::{ParseError, Rule};

verus! {

/// A unary byte operator: `Reverse` reverses byte order; `Flip` combines
/// every byte with zero, which leaves the sequence unchanged (a bitwise
/// complement would be the evident alternative reading, and is deliberately
/// not what this operator does).
#[derive(Clone, Copy, PartialEq, Eq, Structural, Debug)]
pub enum Unary {
    Flip,
    Reverse,
}

/// A binary byte operator. `Add`, `Subtract` and `Multiply` treat both
/// operands as big-endian unsigned integers of arbitrary size; `Xor`, `And`
/// and `Or` combine overlapping bytes bitwise and keep the tail of the longer
/// operand unchanged.
#[derive(Clone, Copy, PartialEq, Eq, Structural, Debug)]
pub enum Binary {
    Add,
    Subtract,
    Multiply,
    Xor,
    And,
    Or,
}

/// The binary byte operator a token character denotes: `+`, `-`, `*`, `^`,
/// `&` or `|`.
pub open spec fn spec_byte_binary_token(c: u8) -> Option<Binary> {
    if c == 43 {
        Some(Binary::Add)
    } else if c == 45 {
        Some(Binary::Subtract)
    } else if c == 42 {
        Some(Binary::Multiply)
    } else if c == 94 {
        Some(Binary::Xor)
    } else if c == 38 {
        Some(Binary::And)
    } else if c == 124 {
        Some(Binary::Or)
    } else {
        None
    }
}

/// Parses a binary byte operator token.
pub fn parse_binary(s: &[u8], i: usize) -> (r: Result<(usize, Binary), ParseError>)
    requires
        i <= s@.len(),
    ensures
        match r {
            Ok((j, op)) => i < s@.len() && j == i + 1 && spec_byte_binary_token(s@[i as int])
                == Some(op),
            Err(e) => (i == s@.len() || spec_byte_binary_token(s@[i as int]) is None) && e
                == (ParseError { at: i, rule: Rule::Bytes }),
        },
{
    if i < s.len() && s[i] == 43 {
        Ok((i + 1, Binary::Add))
    } else if i < s.len() && s[i] == 45 {
        Ok((i + 1, Binary::Subtract))
    } else if i < s.len() && s[i] == 42 {
        Ok((i + 1, Binary::Multiply))
    } else if i < s.len() && s[i] == 94 {
        Ok((i + 1, Binary::Xor))
    } else if i < s.len() && s[i] == 38 {
        Ok((i + 1, Binary::And))
    } else if i < s.len() && s[i] == 124 {
        Ok((i + 1, Binary::Or))
    } else {
        Err(ParseError { at: i, rule: Rule::Bytes })
    }
}

} // verus!

//! The expression trees: byte-sequence expressions and boolean predicates.
//! Nodes are immutable once built and own their children exclusively.
use vstd::prelude::*;

use crate::bool_op;
use crate::byte_op;
use crate::mask::Mask;
use crate::relation::Relation;
use crate::source::Source;

verus! {

/// Post-processing applied to sourced bytes: pass them through, keep the
/// bytes a mask selects, or replace them with the eight-byte big-endian
/// encoding of their count.
#[derive(Debug)]
pub enum Transform {
    Raw,
    Mask(Mask),
    Len,
}

/// A computation producing a byte sequence: a sourced-and-transformed leaf,
/// a raw literal, or a unary or binary byte operator over subtrees.
#[derive(Debug)]
pub enum Bytes {
    Sourced(Source, Transform),
    Raw(Vec<u8>),
    Unary(byte_op::Unary, Box<Bytes>),
    Binary(Box<Bytes>, byte_op::Binary, Box<Bytes>),
}

/// A computation producing a boolean: a unary or binary boolean operator
/// over subtrees, a relational constraint between two byte expressions, or a
/// constant.
#[derive(Debug)]
pub enum Predicate {
    Unary(bool_op::Unary, Box<Predicate>),
    Binary(Box<Predicate>, bool_op::Binary, Box<Predicate>),
    Constraint(Bytes, Relation, Bytes),
    Constant(bool),
}

} // verus!

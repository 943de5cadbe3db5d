//! An embeddable expression language for byte-level predicates over a
//! transaction: byte expressions source slices of a transaction, transform
//! and combine them, and predicates compare the resulting byte sequences.
pub mod ast;
pub mod lex;
pub mod parser;
pub mod bignum;
pub mod bool_op;
pub mod byte_op;
pub mod mask;
pub mod relation;
pub mod resolution;
pub mod source;
pub mod tx;

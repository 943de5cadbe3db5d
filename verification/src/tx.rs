//! The transaction value an expression is resolved against: the already
//! parsed fields of a transaction as plain byte sequences and integers. An
//! outside codec produces these fields; the evaluator only reads them.
use vstd::prelude::*;

verus! {

/// One transaction input: its full serialized bytes, its script bytes, and
/// its sequence number.
pub struct TxInput {
    pub serialized: Vec<u8>,
    pub script: Vec<u8>,
    pub sequence: u64,
}

/// One transaction output: its full serialized bytes, its script bytes, and
/// its numeric value.
pub struct TxOutput {
    pub serialized: Vec<u8>,
    pub script: Vec<u8>,
    pub value: u64,
}

/// A parsed transaction: its full serialized bytes, its fixed-length
/// identifying hash, and its ordered inputs and outputs.
pub struct Transaction {
    pub serialized: Vec<u8>,
    pub hash: Vec<u8>,
    pub inputs: Vec<TxInput>,
    pub outputs: Vec<TxOutput>,
}

} // verus!

use covenant_expr::ast::{Bytes, Predicate, Transform};
use covenant_expr::bool_op;
use covenant_expr::byte_op;
use covenant_expr::mask::Mask;
use covenant_expr::relation::Relation;
use covenant_expr::resolution::{resolve_bytes, resolve_predicate, EvalError};
use covenant_expr::source::{InputSlice, OutputSlice, Source};
use covenant_expr::tx::{Transaction, TxInput, TxOutput};

fn tiny_tx() -> Transaction {
    Transaction {
        serialized: vec![0xAA, 0xBB, 0xCC, 0xDD],
        hash: vec![0x11, 0x22, 0x33, 0x44],
        inputs: vec![TxInput {
            serialized: vec![0x01, 0x02, 0x03],
            script: vec![0x51, 0x52],
            sequence: 0xFFFF_FFFE,
        }],
        outputs: vec![TxOutput {
            serialized: vec![0x04, 0x05],
            script: vec![0x6A],
            value: 50_000,
        }],
    }
}

fn raw(v: Vec<u8>) -> Bytes {
    Bytes::Raw(v)
}

fn binary(l: Bytes, op: byte_op::Binary, r: Bytes) -> Bytes {
    Bytes::Binary(Box::new(l), op, Box::new(r))
}

#[test]
fn constants_resolve_to_themselves() {
    let t = tiny_tx();
    assert_eq!(resolve_predicate(&Predicate::Constant(true), &t), Ok(true));
    assert_eq!(resolve_predicate(&Predicate::Constant(false), &t), Ok(false));
}

#[test]
fn boolean_operator_truth_table() {
    let t = tiny_tx();
    let cases = vec![
        (bool_op::Binary::Or, true, false, true),
        (bool_op::Binary::Or, false, false, false),
        (bool_op::Binary::And, true, true, true),
        (bool_op::Binary::And, true, false, false),
    ];
    for (op, l, r, expect) in cases {
        let p = Predicate::Binary(
            Box::new(Predicate::Constant(l)),
            op,
            Box::new(Predicate::Constant(r)),
        );
        assert_eq!(resolve_predicate(&p, &t), Ok(expect));
    }
    let not_false = Predicate::Unary(bool_op::Unary::Not, Box::new(Predicate::Constant(false)));
    assert_eq!(resolve_predicate(&not_false, &t), Ok(true));
    let not_true = Predicate::Unary(bool_op::Unary::Not, Box::new(Predicate::Constant(true)));
    assert_eq!(resolve_predicate(&not_true, &t), Ok(false));
}

#[test]
fn and_or_short_circuit_left_to_right() {
    let t = tiny_tx();
    let underflow = Predicate::Constraint(
        binary(raw(vec![0x01]), byte_op::Binary::Subtract, raw(vec![0x02])),
        Relation::Equal,
        raw(vec![]),
    );
    // the left operand decides, so the failing right operand is never
    // evaluated
    let p = Predicate::Binary(
        Box::new(Predicate::Constant(false)),
        bool_op::Binary::And,
        Box::new(underflow),
    );
    assert_eq!(resolve_predicate(&p, &t), Ok(false));
    let underflow2 = Predicate::Constraint(
        binary(raw(vec![0x01]), byte_op::Binary::Subtract, raw(vec![0x02])),
        Relation::Equal,
        raw(vec![]),
    );
    let q = Predicate::Binary(
        Box::new(Predicate::Constant(true)),
        bool_op::Binary::Or,
        Box::new(underflow2),
    );
    assert_eq!(resolve_predicate(&q, &t), Ok(true));
    // when the left operand does not decide, the error surfaces
    let underflow3 = Predicate::Constraint(
        binary(raw(vec![0x01]), byte_op::Binary::Subtract, raw(vec![0x02])),
        Relation::Equal,
        raw(vec![]),
    );
    let r = Predicate::Binary(
        Box::new(Predicate::Constant(true)),
        bool_op::Binary::And,
        Box::new(underflow3),
    );
    assert_eq!(resolve_predicate(&r, &t), Err(EvalError::Underflow));
}

#[test]
fn xor_with_mismatched_lengths_keeps_the_longer_tail() {
    let t = tiny_tx();
    let b = binary(raw(vec![0xFF]), byte_op::Binary::Xor, raw(vec![0x0F, 0x01]));
    assert_eq!(resolve_bytes(&b, &t), Ok(vec![0xF0, 0x01]));
}

#[test]
fn and_or_bitwise_over_the_overlap() {
    let t = tiny_tx();
    let b = binary(raw(vec![0xF0, 0x0F]), byte_op::Binary::And, raw(vec![0xFF]));
    assert_eq!(resolve_bytes(&b, &t), Ok(vec![0xF0, 0x0F]));
    let b2 = binary(raw(vec![0x0F]), byte_op::Binary::Or, raw(vec![0xF0, 0x33]));
    assert_eq!(resolve_bytes(&b2, &t), Ok(vec![0xFF, 0x33]));
}

#[test]
fn addition_is_big_endian_and_shortest() {
    let t = tiny_tx();
    let b = binary(raw(vec![0x00, 0x01]), byte_op::Binary::Add, raw(vec![0x01]));
    assert_eq!(resolve_bytes(&b, &t), Ok(vec![0x02]));
    let carry = binary(raw(vec![0xFF]), byte_op::Binary::Add, raw(vec![0x01]));
    assert_eq!(resolve_bytes(&carry, &t), Ok(vec![0x01, 0x00]));
}

#[test]
fn subtraction_underflow_is_an_error() {
    let t = tiny_tx();
    let b = binary(raw(vec![0x01]), byte_op::Binary::Subtract, raw(vec![0x02]));
    assert_eq!(resolve_bytes(&b, &t), Err(EvalError::Underflow));
    let z = binary(raw(vec![0x05]), byte_op::Binary::Subtract, raw(vec![0x05]));
    assert_eq!(resolve_bytes(&z, &t), Ok(vec![0x00]));
}

#[test]
fn multiplication_is_big_endian() {
    let t = tiny_tx();
    let b = binary(raw(vec![0x02]), byte_op::Binary::Multiply, raw(vec![0x03]));
    assert_eq!(resolve_bytes(&b, &t), Ok(vec![0x06]));
    let wide = binary(raw(vec![0x01, 0x00]), byte_op::Binary::Multiply, raw(vec![0x01, 0x00]));
    assert_eq!(resolve_bytes(&wide, &t), Ok(vec![0x01, 0x00, 0x00]));
}

#[test]
fn reverse_reverses_and_flip_changes_nothing() {
    let t = tiny_tx();
    let r = Bytes::Unary(byte_op::Unary::Reverse, Box::new(raw(vec![1, 2, 3])));
    assert_eq!(resolve_bytes(&r, &t), Ok(vec![3, 2, 1]));
    let f = Bytes::Unary(byte_op::Unary::Flip, Box::new(raw(vec![1, 2, 3])));
    assert_eq!(resolve_bytes(&f, &t), Ok(vec![1, 2, 3]));
}

#[test]
fn sources_read_the_transaction_fields() {
    let t = tiny_tx();
    let whole = Bytes::Sourced(Source::Transaction, Transform::Raw);
    assert_eq!(resolve_bytes(&whole, &t), Ok(vec![0xAA, 0xBB, 0xCC, 0xDD]));
    let hash = Bytes::Sourced(Source::Hash, Transform::Raw);
    assert_eq!(resolve_bytes(&hash, &t), Ok(vec![0x11, 0x22, 0x33, 0x44]));
    let script = Bytes::Sourced(Source::Input(InputSlice::Script, 0), Transform::Raw);
    assert_eq!(resolve_bytes(&script, &t), Ok(vec![0x51, 0x52]));
    let seq = Bytes::Sourced(Source::Input(InputSlice::Sequence, 0), Transform::Raw);
    assert_eq!(resolve_bytes(&seq, &t), Ok(vec![0, 0, 0, 0, 0xFF, 0xFF, 0xFF, 0xFE]));
    let value = Bytes::Sourced(Source::Output(OutputSlice::Value, 0), Transform::Raw);
    assert_eq!(resolve_bytes(&value, &t), Ok(vec![0, 0, 0, 0, 0, 0, 0xC3, 0x50]));
    let out_all = Bytes::Sourced(Source::Output(OutputSlice::All, 0), Transform::Raw);
    assert_eq!(resolve_bytes(&out_all, &t), Ok(vec![0x04, 0x05]));
}

#[test]
fn out_of_range_index_resolves_to_empty() {
    let t = tiny_tx();
    let b = Bytes::Sourced(Source::Input(InputSlice::All, 99), Transform::Raw);
    assert_eq!(resolve_bytes(&b, &t), Ok(vec![]));
    // a relation against it behaves as a comparison against the empty
    // sequence
    let eq_empty = Predicate::Constraint(
        Bytes::Sourced(Source::Input(InputSlice::All, 99), Transform::Raw),
        Relation::Equal,
        raw(vec![]),
    );
    assert_eq!(resolve_predicate(&eq_empty, &t), Ok(true));
    let lt_any = Predicate::Constraint(
        Bytes::Sourced(Source::Output(OutputSlice::Script, 7), Transform::Raw),
        Relation::LessThan,
        raw(vec![0x00]),
    );
    assert_eq!(resolve_predicate(&lt_any, &t), Ok(true));
}

#[test]
fn transforms_mask_and_len() {
    let t = tiny_tx();
    let masked = Bytes::Sourced(
        Source::Transaction,
        Transform::Mask(Mask::new(vec![true, false, true])),
    );
    assert_eq!(resolve_bytes(&masked, &t), Ok(vec![0xAA, 0xCC]));
    let len = Bytes::Sourced(Source::Input(InputSlice::Script, 0), Transform::Len);
    assert_eq!(resolve_bytes(&len, &t), Ok(vec![0, 0, 0, 0, 0, 0, 0, 2]));
}

#[test]
fn constraint_compares_resolved_bytes_lexicographically() {
    let t = tiny_tx();
    let p = Predicate::Constraint(
        Bytes::Sourced(Source::Hash, Transform::Raw),
        Relation::LessThan,
        raw(vec![0x11, 0x22, 0x33, 0x44, 0x00]),
    );
    assert_eq!(resolve_predicate(&p, &t), Ok(true));
}

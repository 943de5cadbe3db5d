use covenant_expr::ast::{Bytes, Predicate, Transform};
use covenant_expr::lex::Rule;
use covenant_expr::parser::{parse_bytes, parse_predicate};
use covenant_expr::relation::Relation;
use covenant_expr::resolution::{resolve_bytes, resolve_predicate};
use covenant_expr::source::{InputSlice, OutputSlice, Source};
use covenant_expr::tx::{Transaction, TxInput, TxOutput};

fn tiny_tx() -> Transaction {
    Transaction {
        serialized: vec![0xAA, 0xBB, 0xCC, 0xDD],
        hash: vec![0x11, 0x22, 0x33, 0x44],
        inputs: vec![TxInput {
            serialized: vec![0x01, 0x02, 0x03],
            script: vec![0x51, 0x52],
            sequence: 7,
        }],
        outputs: vec![TxOutput {
            serialized: vec![0x04, 0x05],
            script: vec![0x6A],
            value: 2,
        }],
    }
}

#[test]
fn parses_boolean_constants() {
    assert!(matches!(parse_predicate(b"true"), Ok(Predicate::Constant(true))));
    assert!(matches!(parse_predicate(b"  false  "), Ok(Predicate::Constant(false))));
}

#[test]
fn parses_sources() {
    assert!(matches!(
        parse_bytes(b"tx"),
        Ok(Bytes::Sourced(Source::Transaction, Transform::Raw))
    ));
    assert!(matches!(parse_bytes(b"hash"), Ok(Bytes::Sourced(Source::Hash, Transform::Raw))));
    assert!(matches!(
        parse_bytes(b"in.script[0]"),
        Ok(Bytes::Sourced(Source::Input(InputSlice::Script, 0), Transform::Raw))
    ));
    assert!(matches!(
        parse_bytes(b"in.seq[2]"),
        Ok(Bytes::Sourced(Source::Input(InputSlice::Sequence, 2), Transform::Raw))
    ));
    assert!(matches!(
        parse_bytes(b"out . value [ 13 ]"),
        Ok(Bytes::Sourced(Source::Output(OutputSlice::Value, 13), Transform::Raw))
    ));
    assert!(matches!(
        parse_bytes(b"out.all[0]"),
        Ok(Bytes::Sourced(Source::Output(OutputSlice::All, 0), Transform::Raw))
    ));
}

#[test]
fn parses_transforms() {
    assert!(matches!(
        parse_bytes(b"tx:len"),
        Ok(Bytes::Sourced(Source::Transaction, Transform::Len))
    ));
    assert!(matches!(
        parse_bytes(b"tx:raw"),
        Ok(Bytes::Sourced(Source::Transaction, Transform::Raw))
    ));
    let m = parse_bytes(b"tx:mask101").unwrap();
    let t = tiny_tx();
    assert_eq!(resolve_bytes(&m, &t), Ok(vec![0xAA, 0xCC]));
}

#[test]
fn parses_raw_literals() {
    let t = tiny_tx();
    let b = parse_bytes(b"0xDEadBE01").unwrap();
    assert_eq!(resolve_bytes(&b, &t), Ok(vec![0xDE, 0xAD, 0xBE, 0x01]));
}

#[test]
fn rejects_odd_or_empty_hex_literals() {
    assert!(matches!(parse_bytes(b"0x1"), Err(e) if e.rule == Rule::Literal));
    assert!(matches!(parse_bytes(b"0x"), Err(e) if e.rule == Rule::Literal));
}

#[test]
fn parses_byte_operators_left_to_right() {
    let t = tiny_tx();
    // 1 + 2 + 3 folds left: (1 + 2) + 3
    let b = parse_bytes(b"0x01 + 0x02 + 0x03").unwrap();
    assert_eq!(resolve_bytes(&b, &t), Ok(vec![0x06]));
    let x = parse_bytes(b"0xFF ^ 0x0F01").unwrap();
    assert_eq!(resolve_bytes(&x, &t), Ok(vec![0xF0, 0x01]));
}

#[test]
fn parses_unary_byte_operators() {
    let t = tiny_tx();
    let r = parse_bytes(b"rev 0x010203").unwrap();
    assert_eq!(resolve_bytes(&r, &t), Ok(vec![3, 2, 1]));
    let f = parse_bytes(b"~0x0102").unwrap();
    assert_eq!(resolve_bytes(&f, &t), Ok(vec![1, 2]));
}

#[test]
fn parses_parenthesized_bytes() {
    let t = tiny_tx();
    let b = parse_bytes(b"(0x02 + 0x03) * 0x02").unwrap();
    assert_eq!(resolve_bytes(&b, &t), Ok(vec![0x0A]));
}

#[test]
fn parses_relations() {
    assert!(matches!(
        parse_predicate(b"0x01 < 0x02"),
        Ok(Predicate::Constraint(_, Relation::LessThan, _))
    ));
    assert!(matches!(
        parse_predicate(b"0x01 <= 0x02"),
        Ok(Predicate::Constraint(_, Relation::LessThanEq, _))
    ));
    assert!(matches!(
        parse_predicate(b"0x01 >= 0x02"),
        Ok(Predicate::Constraint(_, Relation::GreaterThanEq, _))
    ));
    assert!(matches!(
        parse_predicate(b"0x01 != 0x02"),
        Ok(Predicate::Constraint(_, Relation::NotEqual, _))
    ));
    assert!(matches!(
        parse_predicate(b"0x01 = 0x02"),
        Ok(Predicate::Constraint(_, Relation::Equal, _))
    ));
    assert!(matches!(
        parse_predicate(b"0x01 > 0x02"),
        Ok(Predicate::Constraint(_, Relation::GreaterThan, _))
    ));
}

#[test]
fn parses_boolean_structure() {
    let t = tiny_tx();
    let p = parse_predicate(b"!false & (true | false)").unwrap();
    assert_eq!(resolve_predicate(&p, &t), Ok(true));
    let q = parse_predicate(b"true & false | true").unwrap();
    // left fold: (true & false) | true
    assert_eq!(resolve_predicate(&q, &t), Ok(true));
}

#[test]
fn parses_a_covenant_style_predicate_end_to_end() {
    let t = tiny_tx();
    let p = parse_predicate(b"(in.script[0] = 0x5152) & (out.value[0]:len = 0x0000000000000008)")
        .unwrap();
    assert_eq!(resolve_predicate(&p, &t), Ok(true));
    let q = parse_predicate(b"tx:mask1010 != hash:mask1010").unwrap();
    assert_eq!(resolve_predicate(&q, &t), Ok(true));
}

#[test]
fn reports_the_failing_rule_and_position() {
    assert!(matches!(parse_bytes(b"in all[0]"), Err(e) if e.rule == Rule::Source));
    assert!(matches!(parse_bytes(b"in.foo[0]"), Err(e) if e.rule == Rule::InSlice));
    assert!(matches!(parse_bytes(b"out.seq[0]"), Err(e) if e.rule == Rule::OutSlice));
    assert!(matches!(parse_bytes(b"in.all[]"), Err(e) if e.rule == Rule::Index));
    assert!(matches!(parse_bytes(b"tx:foo"), Err(e) if e.rule == Rule::Keyword));
    assert!(matches!(parse_bytes(b"tx:mask2"), Err(e) if e.rule == Rule::Mask));
    assert!(matches!(parse_bytes(b"(tx"), Err(e) if e.rule == Rule::Bytes));
    let err = parse_predicate(b"true )").unwrap_err();
    assert_eq!(err.rule, Rule::End);
    assert_eq!(err.at, 5);
}

#[test]
fn byte_operators_bind_before_boolean_ones() {
    // `&` is read as a byte operator inside a constraint's operand, so the
    // right-hand side of the first `=` greedily swallows `0x02 & 0x03` and
    // the second `=` is left over; parenthesized constraints disambiguate
    let err = parse_predicate(b"0x01 = 0x02 & 0x03 = 0x04").unwrap_err();
    assert_eq!(err.rule, Rule::End);
    let t = tiny_tx();
    let p = parse_predicate(b"(0x01 = 0x02) & (0x03 = 0x04)").unwrap();
    assert_eq!(resolve_predicate(&p, &t), Ok(false));
}

#[test]
fn rejects_an_index_that_cannot_fit() {
    assert!(matches!(
        parse_bytes(b"in.all[99999999999999999999999999]"),
        Err(e) if e.rule == Rule::Index
    ));
}

#[test]
fn mask_literal_characters_parse_independently() {
    let t = tiny_tx();
    let p = parse_bytes(b"tx:mask1101").unwrap();
    assert_eq!(resolve_bytes(&p, &t), Ok(vec![0xAA, 0xBB, 0xDD]));
}

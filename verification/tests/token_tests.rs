use covenant_expr::lex::{parse_index, Rule};
use covenant_expr::mask::{parse_bool, parse_mask};
use covenant_expr::relation::{parse_relation, parse_relation_strict, Relation};
use covenant_expr::source::{parse_in_slice, parse_out_slice, parse_source, InputSlice,
    OutputSlice, Source};

#[test]
fn parse_bool_reads_one_bit() {
    assert_eq!(parse_bool(b"10", 0), Ok((1, true)));
    assert_eq!(parse_bool(b"10", 1), Ok((2, false)));
    let e = parse_bool(b"2", 0).unwrap_err();
    assert_eq!((e.at, e.rule), (0, Rule::Mask));
}

#[test]
fn parse_mask_reads_the_maximal_bit_run() {
    let (j, m) = parse_mask(b"1010 rest", 0).unwrap();
    assert_eq!(j, 4);
    assert_eq!(m.apply(vec![1, 2, 3, 4, 5]), vec![1, 3]);
    assert!(parse_mask(b"x", 0).is_err());
}

#[test]
fn parse_relation_matches_two_character_tokens_first() {
    assert_eq!(parse_relation(b"<= ", 0), Ok((2, Relation::LessThanEq)));
    assert_eq!(parse_relation(b">= ", 0), Ok((2, Relation::GreaterThanEq)));
    assert_eq!(parse_relation(b"!= ", 0), Ok((2, Relation::NotEqual)));
    assert_eq!(parse_relation(b"< ", 0), Ok((1, Relation::LessThan)));
    assert_eq!(parse_relation(b"> ", 0), Ok((1, Relation::GreaterThan)));
    assert_eq!(parse_relation(b"= ", 0), Ok((1, Relation::Equal)));
    assert!(parse_relation(b"!", 0).is_err());
    // the single-character fallback alone reads `<` and leaves the `=`
    assert_eq!(parse_relation_strict(b"<=", 0), Ok((1, Relation::LessThan)));
}

#[test]
fn parse_index_reads_decimal_and_rejects_overflow() {
    assert_eq!(parse_index(b"042]", 0), Ok((3, 42)));
    assert!(parse_index(b"]", 0).is_err());
    let e = parse_index(b"99999999999999999999999999", 0).unwrap_err();
    assert_eq!(e.rule, Rule::Index);
}

#[test]
fn parse_slices_and_sources() {
    assert_eq!(parse_in_slice(b"all", 0), Ok((3, InputSlice::All)));
    assert_eq!(parse_in_slice(b"script", 0), Ok((6, InputSlice::Script)));
    assert_eq!(parse_in_slice(b"seq", 0), Ok((3, InputSlice::Sequence)));
    assert_eq!(parse_out_slice(b"value", 0), Ok((5, OutputSlice::Value)));
    assert!(parse_out_slice(b"seq", 0).is_err());
    assert_eq!(parse_source(b"tx", 0), Ok((2, Source::Transaction)));
    assert_eq!(parse_source(b"hash", 0), Ok((4, Source::Hash)));
    assert_eq!(
        parse_source(b"in.seq[3]", 0),
        Ok((9, Source::Input(InputSlice::Sequence, 3)))
    );
    assert_eq!(
        parse_source(b"out.script[0]", 0),
        Ok((13, Source::Output(OutputSlice::Script, 0)))
    );
}

use covenant_expr::relation::{check_relation, compare_bytes, Cmp, Relation};

#[test]
fn equal_holds_iff_sequences_match() {
    assert!(check_relation(&Relation::Equal, &vec![1, 2, 3], &vec![1, 2, 3]));
    assert!(!check_relation(&Relation::Equal, &vec![1, 2, 3], &vec![1, 2, 4]));
    assert!(!check_relation(&Relation::Equal, &vec![1, 2], &vec![1, 2, 0]));
    assert!(check_relation(&Relation::Equal, &vec![], &vec![]));
}

#[test]
fn not_equal_is_the_exact_complement_of_equal() {
    let cases: Vec<(Vec<u8>, Vec<u8>)> = vec![
        (vec![], vec![]),
        (vec![0], vec![0, 1]),
        (vec![1, 2, 3], vec![1, 2, 3]),
        (vec![5, 0], vec![4, 200]),
    ];
    for (a, b) in cases {
        let eq = check_relation(&Relation::Equal, &a, &b);
        let ne = check_relation(&Relation::NotEqual, &a, &b);
        assert_eq!(ne, !eq);
    }
}

#[test]
fn prefix_is_lesser() {
    assert_eq!(compare_bytes(&vec![0], &vec![0, 1]), Cmp::Less);
    assert!(check_relation(&Relation::LessThan, &vec![0], &vec![0, 1]));
}

#[test]
fn first_differing_byte_decides() {
    assert_eq!(compare_bytes(&vec![1, 0], &vec![0, 1]), Cmp::Greater);
    assert!(check_relation(&Relation::GreaterThan, &vec![1, 0], &vec![0, 1]));
}

#[test]
fn lexicographic_not_numeric() {
    // 0x05_00 = 1280 > 0x04_C8 = 1224 numerically as well, but the point is
    // that the first byte alone decides
    assert_eq!(compare_bytes(&vec![5, 0], &vec![4, 200]), Cmp::Greater);
    assert!(check_relation(&Relation::GreaterThanEq, &vec![5, 0], &vec![4, 200]));
    assert!(!check_relation(&Relation::LessThanEq, &vec![5, 0], &vec![4, 200]));
}

#[test]
fn no_zero_padding_of_the_shorter_operand() {
    // [0] against [0,0]: the strict prefix is lesser, not equal
    assert_eq!(compare_bytes(&vec![0], &vec![0, 0]), Cmp::Less);
}

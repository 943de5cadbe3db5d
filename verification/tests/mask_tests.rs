use covenant_expr::mask::Mask;

#[test]
fn apply_keeps_selected_positions() {
    let m = Mask::new(vec![true, false, true]);
    assert_eq!(m.apply(vec![9, 8, 7]), vec![9, 7]);
}

#[test]
fn apply_drops_bytes_beyond_mask_length() {
    let m = Mask::new(vec![true]);
    assert_eq!(m.apply(vec![1, 2, 3]), vec![1]);
}

#[test]
fn apply_on_longer_mask_keeps_order() {
    let m = Mask::new(vec![false, true, true, true, true]);
    assert_eq!(m.apply(vec![4, 5, 6]), vec![5, 6]);
}

#[test]
fn apply_is_not_idempotent_when_bytes_are_dropped() {
    // mask 101 on [9,8,7] keeps positions 0 and 2; applying the same mask
    // to the shrunken result selects differently
    let m = Mask::new(vec![true, false, true]);
    let once = m.apply(vec![9, 8, 7]);
    assert_eq!(once, vec![9, 7]);
    let twice = m.apply(once);
    assert_eq!(twice, vec![9]);
}

#[test]
fn apply_is_identity_when_no_byte_is_dropped() {
    let m = Mask::new(vec![true, true, true]);
    let once = m.apply(vec![9, 8, 7]);
    assert_eq!(once, vec![9, 8, 7]);
    assert_eq!(m.apply(once), vec![9, 8, 7]);
}

#[test]
fn invert_flips_every_bit_and_leaves_receiver_usable() {
    let m = Mask::new(vec![true, false, true]);
    let inv = m.invert();
    assert_eq!(inv.apply(vec![9, 8, 7]), vec![8]);
    // the receiver still selects as before
    assert_eq!(m.apply(vec![9, 8, 7]), vec![9, 7]);
}

use confidence::tally::BytesComparison;

fn pair(t: &BytesComparison) -> (usize, usize) {
    (t.agreement(), t.disagreement())
}

#[test]
fn combine_sums_both_counts() {
    let a = BytesComparison::new(3, 4);
    let b = BytesComparison::new(10, 20);
    assert_eq!(pair(&a.add(b)), (13, 24));
}

#[test]
fn combine_is_commutative() {
    let ab = BytesComparison::new(3, 4).add(BytesComparison::new(7, 1));
    let ba = BytesComparison::new(7, 1).add(BytesComparison::new(3, 4));
    assert_eq!(pair(&ab), pair(&ba));
}

#[test]
fn combine_is_associative() {
    let left = BytesComparison::new(1, 2)
        .add(BytesComparison::new(3, 4))
        .add(BytesComparison::new(5, 6));
    let right = BytesComparison::new(1, 2)
        .add(BytesComparison::new(3, 4).add(BytesComparison::new(5, 6)));
    assert_eq!(pair(&left), pair(&right));
    assert_eq!(pair(&left), (9, 12));
}

#[test]
fn empty_tally_is_identity() {
    let a = BytesComparison::new(8, 9);
    assert_eq!(pair(&a.add(BytesComparison::empty())), (8, 9));
    assert_eq!(pair(&BytesComparison::empty().add(BytesComparison::new(8, 9))), (8, 9));
}

#[test]
fn add_assign_folds_in_place() {
    let mut t = BytesComparison::agreed(5);
    t.add_assign(BytesComparison::disagreed(7));
    t.add_assign(BytesComparison::agreed(1));
    assert_eq!(pair(&t), (6, 7));
}

#[test]
fn fits_with_detects_overflow() {
    let big = BytesComparison::agreed(usize::MAX);
    assert!(!big.fits_with(&BytesComparison::agreed(1)));
    assert!(big.fits_with(&BytesComparison::disagreed(1)));
}

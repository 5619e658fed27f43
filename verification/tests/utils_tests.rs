use logic_tools::utils::NumExt;

#[test]
fn test_is_odd() {
    assert_eq!((1).is_odd(), true);
    assert_eq!((3).is_odd(), true);
    assert_eq!((5).is_odd(), true);
    assert_eq!((7).is_odd(), true);
    assert_eq!((9).is_odd(), true);
    assert_eq!((11).is_odd(), true);
    assert_eq!((0).is_odd(), false);
    assert_eq!((2).is_odd(), false);
    assert_eq!((4).is_odd(), false);
    assert_eq!((6).is_odd(), false);
    assert_eq!((8).is_odd(), false);
    assert_eq!((10).is_odd(), false);
}

#[test]
fn is_odd_on_negatives_and_other_widths() {
    assert!((-3i8).is_odd());
    assert!(!(-4i8).is_odd());
    assert!((-1i64).is_odd());
    assert!(!(i64::MIN).is_odd());
    assert!((3usize).is_odd());
    assert!((-7isize).is_odd());
    assert!((9i128).is_odd());
}

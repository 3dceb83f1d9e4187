use kata::chop::chop1;
use kata::kata2;
use kata::kata2::chop as by_comparison;

#[test]
fn kata2_test_chop() {
    assert!(-1 == kata2::chop(3, &[]));
    assert!(-1 == kata2::chop(3, &[1]));
    assert!(0 == kata2::chop(1, &[1]));

    assert!(0 == kata2::chop(1, &[1, 3, 5]));
    assert!(1 == kata2::chop(3, &[1, 3, 5]));
    assert!(2 == kata2::chop(5, &[1, 3, 5]));
    assert!(-1 == kata2::chop(0, &[1, 3, 5]));
    assert!(-1 == kata2::chop(2, &[1, 3, 5]));
    assert!(-1 == kata2::chop(4, &[1, 3, 5]));
    assert!(-1 == kata2::chop(6, &[1, 3, 5]));

    assert!(0 == kata2::chop(1, &[1, 3, 5, 7]));
    assert!(1 == kata2::chop(3, &[1, 3, 5, 7]));
    assert!(2 == kata2::chop(5, &[1, 3, 5, 7]));
    assert!(3 == kata2::chop(7, &[1, 3, 5, 7]));
    assert!(-1 == kata2::chop(0, &[1, 3, 5, 7]));
    assert!(-1 == kata2::chop(2, &[1, 3, 5, 7]));
    assert!(-1 == kata2::chop(4, &[1, 3, 5, 7]));
    assert!(-1 == kata2::chop(6, &[1, 3, 5, 7]));
    assert!(-1 == kata2::chop(8, &[1, 3, 5, 7]));
}

#[test]
fn chop1_test_chop() {
    assert!(-1 == chop1::chop(3, &[]));
    assert!(-1 == chop1::chop(3, &[1]));
    assert!(0 == chop1::chop(1, &[1]));

    assert!(0 == chop1::chop(1, &[1, 3, 5]));
    assert!(1 == chop1::chop(3, &[1, 3, 5]));
    assert!(2 == chop1::chop(5, &[1, 3, 5]));
    assert!(-1 == chop1::chop(0, &[1, 3, 5]));
    assert!(-1 == chop1::chop(2, &[1, 3, 5]));
    assert!(-1 == chop1::chop(4, &[1, 3, 5]));
    assert!(-1 == chop1::chop(6, &[1, 3, 5]));

    assert!(0 == chop1::chop(1, &[1, 3, 5, 7]));
    assert!(1 == chop1::chop(3, &[1, 3, 5, 7]));
    assert!(2 == chop1::chop(5, &[1, 3, 5, 7]));
    assert!(3 == chop1::chop(7, &[1, 3, 5, 7]));
    assert!(-1 == chop1::chop(0, &[1, 3, 5, 7]));
    assert!(-1 == chop1::chop(2, &[1, 3, 5, 7]));
    assert!(-1 == chop1::chop(4, &[1, 3, 5, 7]));
    assert!(-1 == chop1::chop(6, &[1, 3, 5, 7]));
    assert!(-1 == chop1::chop(8, &[1, 3, 5, 7]));
}

#[test]
fn chop_test_chop() {
    assert!(-1 == by_comparison::chop(3, &[]));
    assert!(-1 == by_comparison::chop(3, &[1]));
    assert!(0 == by_comparison::chop(1, &[1]));

    assert!(0 == by_comparison::chop(1, &[1, 3, 5]));
    assert!(1 == by_comparison::chop(3, &[1, 3, 5]));
    assert!(2 == by_comparison::chop(5, &[1, 3, 5]));
    assert!(-1 == by_comparison::chop(0, &[1, 3, 5]));
    assert!(-1 == by_comparison::chop(2, &[1, 3, 5]));
    assert!(-1 == by_comparison::chop(4, &[1, 3, 5]));
    assert!(-1 == by_comparison::chop(6, &[1, 3, 5]));

    assert!(0 == by_comparison::chop(1, &[1, 3, 5, 7]));
    assert!(1 == by_comparison::chop(3, &[1, 3, 5, 7]));
    assert!(2 == by_comparison::chop(5, &[1, 3, 5, 7]));
    assert!(3 == by_comparison::chop(7, &[1, 3, 5, 7]));
    assert!(-1 == by_comparison::chop(0, &[1, 3, 5, 7]));
    assert!(-1 == by_comparison::chop(2, &[1, 3, 5, 7]));
    assert!(-1 == by_comparison::chop(4, &[1, 3, 5, 7]));
    assert!(-1 == by_comparison::chop(6, &[1, 3, 5, 7]));
    assert!(-1 == by_comparison::chop(8, &[1, 3, 5, 7]));
}

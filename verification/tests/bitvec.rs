use kata::bitvec::blocks_for_bits;
use kata::bitvec::capacity_in_bits;
use kata::bitvec::words_to_reserve;
use kata::bitvec::BitVec;

/// The bits of `bv`, read one by one.
fn bits(bv: &BitVec) -> Vec<bool> {
    (0..bv.len()).map(|i| bv.get(i).unwrap()).collect()
}

#[test]
fn set_then_get_reads_back() {
    let mut bv = BitVec::from_elem(130, false);
    for &i in &[0usize, 1, 63, 64, 65, 127, 128, 129] {
        bv.set(i, true);
        assert_eq!(bv.get(i), Some(true));
        bv.set(i, false);
        assert_eq!(bv.get(i), Some(false));
    }
}

#[test]
fn set_changes_one_bit_only() {
    let mut bv = BitVec::from_elem(200, false);
    bv.set(64, true);
    for i in 0..200 {
        assert_eq!(bv.get(i), Some(i == 64));
    }
    let mut bv = BitVec::from_elem(200, true);
    bv.set(127, false);
    for i in 0..200 {
        assert_eq!(bv.get(i), Some(i != 127));
    }
    assert_eq!(bv.len(), 200);
}

#[test]
fn bit_order_is_least_significant_first() {
    let mut bv = BitVec::new();
    for i in 0..70 {
        bv.push(i % 3 == 0);
    }
    assert_eq!(
        bv.to_string(),
        "1001001001001001001001001001001001001001001001001001001001001001001001"
    );
}

#[test]
fn get_past_the_end_is_none() {
    let bv = BitVec::from_elem(10, true);
    assert_eq!(bv.get(9), Some(true));
    assert_eq!(bv.get(10), None);
    assert_eq!(bv.get(63), None);
    assert_eq!(bv.get(64), None);
    assert_eq!(bv.get(usize::MAX), None);
    assert_eq!(BitVec::new().get(0), None);
}

#[test]
fn new_is_empty() {
    let bv = BitVec::new();
    assert_eq!(bv.len(), 0);
    assert!(bv.is_empty());
    assert_eq!(bv.to_string(), "");
    let bv = BitVec::default();
    assert!(bv.is_empty());
    let bv = BitVec::with_capacity(1000);
    assert!(bv.is_empty());
    assert!(bv.capacity() >= 1000);
    assert!(!BitVec::from_elem(1, false).is_empty());
}

#[test]
fn from_elem_fills_every_bit() {
    for &n in &[0usize, 1, 63, 64, 65, 128, 1000] {
        let zeros = BitVec::from_elem(n, false);
        let ones = BitVec::from_elem(n, true);
        assert_eq!(zeros.len(), n);
        assert_eq!(ones.len(), n);
        assert_eq!(bits(&zeros), vec![false; n]);
        assert_eq!(bits(&ones), vec![true; n]);
        assert_eq!(ones.get(n), None);
    }
}

#[test]
fn tail_stays_clean_under_bulk_operations() {
    // Flipping twice gives the bits back only if the unused bits of the last
    // word never leak into the vector.
    for &n in &[1usize, 3, 63, 65, 100] {
        let mut bv = BitVec::from_elem(n, true);
        bv.push(false);
        assert_eq!(bv.get(n), Some(false));
        let mut bv = BitVec::from_elem(n, false);
        bv.set_all();
        bv.negate();
        bv.negate();
        assert_eq!(bits(&bv), vec![true; n]);
        assert_eq!(bv.len(), n);
        assert!(bv.capacity() >= n);
    }
}

#[test]
fn push_grows_by_one_bit() {
    let pattern: Vec<bool> = (0..300).map(|i| i % 7 == 0 || i % 5 == 3).collect();
    let mut bv = BitVec::new();
    for (n, &bit) in pattern.iter().enumerate() {
        assert_eq!(bv.len(), n);
        bv.push(bit);
        assert_eq!(bv.get(n), Some(bit));
        assert_eq!(bv.get(n + 1), None);
        assert!(bv.capacity() >= blocks_for_bits(n + 1) * 64);
    }
    assert_eq!(bits(&bv), pattern);
}

#[test]
fn blocks_for_bits_rounds_up() {
    assert_eq!(blocks_for_bits(0), 0);
    assert_eq!(blocks_for_bits(1), 1);
    assert_eq!(blocks_for_bits(17), 1);
    assert_eq!(blocks_for_bits(63), 1);
    assert_eq!(blocks_for_bits(64), 1);
    assert_eq!(blocks_for_bits(65), 2);
    assert_eq!(blocks_for_bits(128), 2);
    assert_eq!(blocks_for_bits(129), 3);
    assert_eq!(blocks_for_bits(usize::MAX), usize::MAX / 64 + 1);
}

#[test]
fn capacity_in_bits_saturates() {
    assert_eq!(capacity_in_bits(0), 0);
    assert_eq!(capacity_in_bits(3), 192);
    assert_eq!(capacity_in_bits(usize::MAX / 64), usize::MAX / 64 * 64);
    assert_eq!(capacity_in_bits(usize::MAX / 64 + 1), usize::MAX);
    assert_eq!(capacity_in_bits(usize::MAX), usize::MAX);
}

#[test]
fn words_to_reserve_counts_the_words_that_are_missing() {
    assert_eq!(words_to_reserve(0, 0, 0), None);
    assert_eq!(words_to_reserve(0, 10, 0), Some(1));
    assert_eq!(words_to_reserve(5, 10, 64), None);
    assert_eq!(words_to_reserve(5, 59, 64), None);
    assert_eq!(words_to_reserve(5, 60, 64), Some(1));
    assert_eq!(words_to_reserve(64, 1, 64), Some(1));
    assert_eq!(words_to_reserve(5, 1000, 64), Some(15));
    assert_eq!(words_to_reserve(128, 64, 128), Some(1));
    assert_eq!(words_to_reserve(0, usize::MAX, usize::MAX), None);
    assert_eq!(words_to_reserve(0, usize::MAX, 64), Some(usize::MAX / 64 + 1));
}

#[test]
fn clear_zeroes_and_keeps_the_length() {
    let mut bv = BitVec::from_elem(100, true);
    bv.clear();
    assert_eq!(bv.len(), 100);
    assert_eq!(bits(&bv), vec![false; 100]);
}

#[test]
fn set_all_and_negate() {
    let mut bv = BitVec::from_elem(70, false);
    bv.set(3, true);
    bv.set(69, true);
    bv.negate();
    for i in 0..70 {
        assert_eq!(bv.get(i), Some(i != 3 && i != 69));
    }
    bv.set_all();
    assert_eq!(bits(&bv), vec![true; 70]);
    bv.negate();
    assert_eq!(bits(&bv), vec![false; 70]);
    let mut empty = BitVec::new();
    empty.set_all();
    empty.negate();
    empty.clear();
    assert!(empty.is_empty());
}

#[test]
fn reserve_keeps_the_bits() {
    let mut bv = BitVec::new();
    bv.reserve(10);
    assert!(bv.capacity() >= 10);
    assert!(bv.is_empty());
    let mut bv = BitVec::from_elem(5, true);
    bv.reserve(1000);
    assert!(bv.capacity() >= 1005);
    assert_eq!(bits(&bv), vec![true; 5]);
    bv.reserve(0);
    assert_eq!(bits(&bv), vec![true; 5]);
}

#[test]
fn index_reads_a_bit() {
    let mut bv = BitVec::from_elem(66, false);
    bv.set(65, true);
    assert!(bv[65]);
    assert!(!bv[64]);
    assert!(!bv[0]);
}

#[test]
fn clone_copies_the_bits() {
    let mut bv = BitVec::from_elem(66, false);
    bv.set(65, true);
    let copy = bv.clone();
    bv.set(0, true);
    assert_eq!(copy.len(), 66);
    for i in 0..66 {
        assert_eq!(copy.get(i), Some(i == 65));
    }
}

#[test]
fn iter_walks_from_both_ends() {
    let mut bv = BitVec::new();
    for bit in [true, false, false, true, true] {
        bv.push(bit);
    }
    let mut it = bv.iter();
    assert_eq!(it.size_hint(), (5, Some(5)));
    assert_eq!(it.next(), Some(true));
    assert_eq!(it.next_back(), Some(true));
    assert_eq!(it.next_back(), Some(true));
    assert_eq!(it.size_hint(), (2, Some(2)));
    let mut rest = it.clone();
    assert_eq!(it.next(), Some(false));
    assert_eq!(it.next(), Some(false));
    assert_eq!(it.next(), None);
    assert_eq!(it.next_back(), None);
    assert_eq!(it.size_hint(), (0, Some(0)));
    assert_eq!(rest.next_back(), Some(false));
    assert_eq!(rest.size_hint(), (1, Some(1)));
    assert_eq!(BitVec::new().iter().next(), None);
}

#[test]
fn extend_and_from_iter_append_in_order() {
    let pattern: Vec<bool> = (0..150).map(|i| i % 4 == 1).collect();
    let collected = BitVec::from_iter(pattern.iter().copied());
    assert_eq!(bits(&collected), pattern);
    let mut bv = BitVec::from_elem(3, true);
    bv.extend(pattern.iter().copied());
    let mut expected = vec![true; 3];
    expected.extend(pattern.iter().copied());
    assert_eq!(bits(&bv), expected);
    bv.extend(std::iter::empty());
    assert_eq!(bits(&bv), expected);
}

#[test]
fn to_string_writes_digits() {
    let mut bv = BitVec::from_elem(3, false);
    bv.set(1, true);
    assert_eq!(bv.to_string(), "010");
    assert_eq!(BitVec::from_elem(65, true).to_string(), "1".repeat(65));
}

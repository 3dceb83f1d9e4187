use kata::kata5::BloomFilter;
use std::collections::hash_map::DefaultHasher;
use std::hash::Hasher;

/// The sizes of a filter for `capacity` keys at `error_rate`: the number of
/// bits and the number of probes per key.
fn sizes(capacity: usize, error_rate: f64) -> (usize, usize) {
    let ln2 = std::f64::consts::LN_2;
    let cap = capacity as f64;
    let nbits = (cap * error_rate.ln().abs() / (ln2 * ln2)).ceil();
    let nhashes = (nbits * ln2 / cap).ceil();
    (nbits as usize, nhashes as usize)
}

/// A hasher whose digest is the last `u64` written to it.
#[derive(Default)]
struct Identity(u64);

impl Hasher for Identity {
    fn finish(&self) -> u64 {
        self.0
    }

    fn write(&mut self, bytes: &[u8]) {
        for &b in bytes {
            self.0 = (self.0 << 8) | b as u64;
        }
    }

    fn write_u64(&mut self, value: u64) {
        self.0 = value;
    }
}

fn set_positions(filter: &BloomFilter<Identity>) -> Vec<usize> {
    let bitmap = filter.bitmap();
    (0..bitmap.len()).filter(|&i| bitmap.get(i) == Some(true)).collect()
}

#[test]
fn sizing_formula() {
    assert_eq!(sizes(100, 0.05), (624, 5));
    assert_eq!(sizes(50000, 0.05), (311762, 5));
    assert_eq!(sizes(1000, 0.01), (9586, 7));
}

#[test]
fn no_false_negatives() {
    let (nbits, nhashes) = sizes(100, 0.05);
    let mut bf = BloomFilter::<DefaultHasher>::with_sizes(nbits, nhashes).unwrap();
    bf.set(&"apple");
    bf.set(&"banana");
    assert!(bf.get(&"apple"));
    assert!(bf.get(&"banana"));
    for i in 0..100u32 {
        bf.set(&i);
    }
    for i in 0..100u32 {
        assert!(bf.get(&i));
    }
    assert!(bf.get(&"apple"));
    assert!(bf.get(&"banana"));
}

#[test]
fn digests_are_found_after_they_were_set() {
    let mut bf = BloomFilter::<DefaultHasher>::with_sizes(1000, 4).unwrap();
    let digests = [0u64, 1, 0xFFFF_FFFF, 0x1_0000_0000, u64::MAX, 0xDEAD_BEEF_0BAD_F00D];
    for &d in &digests {
        assert!(!bf.get_digest(d));
    }
    for (n, &d) in digests.iter().enumerate() {
        bf.set_digest(d);
        for &seen in &digests[..=n] {
            assert!(bf.get_digest(seen));
        }
    }
}

#[test]
fn probes_follow_the_formula() {
    // digest = high * 2^32 + low; probe i falls on (low + high * i) mod m.
    let mut bf = BloomFilter::<Identity>::with_sizes(1000, 3).unwrap();
    bf.set(&((7u64 << 32) | 5));
    assert_eq!(set_positions(&bf), vec![5, 12, 19]);
    let mut bf = BloomFilter::<Identity>::with_sizes(10, 4).unwrap();
    bf.set_digest((3u64 << 32) | 9);
    assert_eq!(set_positions(&bf), vec![2, 5, 8, 9]);
    let mut bf = BloomFilter::<Identity>::with_sizes(1_000_003, 2).unwrap();
    bf.set_digest(u64::MAX);
    let low = 0xFFFF_FFFFu64;
    let mut expected = vec![(low % 1_000_003) as usize, ((low + low) % 1_000_003) as usize];
    expected.sort();
    assert_eq!(set_positions(&bf), expected);
    let mut bf = BloomFilter::<Identity>::with_sizes(1, 5).unwrap();
    bf.set_digest(12345);
    assert_eq!(set_positions(&bf), vec![0]);
}

#[test]
fn get_is_false_as_soon_as_one_probe_misses() {
    let mut bf = BloomFilter::<Identity>::with_sizes(100, 3).unwrap();
    bf.set_digest((1u64 << 32) | 10); // 10, 11, 12
    assert!(bf.get_digest((1u64 << 32) | 10));
    assert!(bf.get_digest(10)); // 10, 10, 10
    assert!(bf.get_digest((2u64 << 32) | 10) == false); // 10, 12, 14
    assert!(!bf.get_digest((1u64 << 32) | 11)); // 11, 12, 13
    assert!(!bf.get(&9u64));
    assert!(bf.get(&12u64));
}

#[test]
fn clear_resets_membership() {
    let mut bf = BloomFilter::<DefaultHasher>::with_sizes(624, 5).unwrap();
    let keys = ["apple", "banana", "cherry"];
    for key in keys {
        bf.set(&key);
    }
    bf.clear();
    for key in keys {
        assert!(!bf.get(&key));
    }
    assert_eq!(bf.bitmap().len(), 624);
    for i in 0..624 {
        assert_eq!(bf.bitmap().get(i), Some(false));
    }
    bf.set(&"apple");
    assert!(bf.get(&"apple"));
}

#[test]
fn same_sets_give_the_same_bits() {
    let mut a = BloomFilter::<DefaultHasher>::with_sizes(5000, 6).unwrap();
    let mut b = BloomFilter::<DefaultHasher>::with_sizes(5000, 6).unwrap();
    for i in 0..500u64 {
        a.set(&(i * i));
        b.set(&(i * i));
    }
    assert_eq!(a.bitmap().to_string(), b.bitmap().to_string());
    assert!(a.bitmap().to_string().contains('1'));
}

#[test]
fn sizes_of_zero_are_refused() {
    assert!(BloomFilter::<DefaultHasher>::with_sizes(0, 5).is_none());
    assert!(BloomFilter::<DefaultHasher>::with_sizes(5, 0).is_none());
    assert!(BloomFilter::<DefaultHasher>::with_sizes(0, 0).is_none());
    let bf = BloomFilter::<DefaultHasher>::with_sizes(1, 1).unwrap();
    assert_eq!(bf.bitmap().len(), 1);
    assert!(!bf.get(&0u8));
}

#[test]
fn test_bloom_filter() {
    let capacity = 50000;
    let error_rate = 0.05;
    let (nbits, nhashes) = sizes(capacity, error_rate);
    let mut bf = BloomFilter::<DefaultHasher>::with_sizes(nbits, nhashes).unwrap();
    let words: Vec<String> = (0..capacity * 2).map(|i| format!("word-{}", i)).collect();

    for (i, word) in words.iter().enumerate() {
        if i % 2 == 0 {
            bf.set(word);
        }
    }

    let mut true_pos = 0_f32;
    let mut true_neg = 0_f32;
    let mut false_pos = 0_f32;
    let mut false_neg = 0_f32;
    for (i, word) in words.iter().enumerate() {
        match (i % 2 == 0, bf.get(word)) {
            (true, true) => true_pos += 1_f32,
            (true, false) => false_neg += 1_f32,
            (false, true) => false_pos += 1_f32,
            (false, false) => true_neg += 1_f32,
        }
    }
    let rate = false_pos / (false_pos + true_neg);

    println!("True positives:      {:>7}", true_pos);
    println!("True negatives:      {:>7}", true_neg);
    println!("False positives:     {:>7}", false_pos);
    println!("False negatives:     {:>7}", false_neg);
    println!("False positive rate: {:>7}", rate);

    assert!(false_neg == 0_f32);
    assert!(true_pos == capacity as f32);
    assert!(rate < 2.0 * error_rate as f32);
}

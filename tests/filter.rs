use bloom_filter::errors::BloomFilterError;
use bloom_filter::instructions::init;
use bloom_filter::state::{BloomFilter, NewFilter, MAX_FILTER_SIZE};
use std::collections::hash_map::DefaultHasher;
use std::hash::{Hash, Hasher};

fn request(name: &str, size: u32, num_hashes: u8) -> NewFilter {
    NewFilter { name: name.to_string(), size, num_hashes }
}

fn fresh(name: &str, size: u32, num_hashes: u8) -> BloomFilter {
    let mut filter = BloomFilter::default();
    init(&mut filter, request(name, size, num_hashes)).unwrap();
    filter
}

fn set_bits(filter: &BloomFilter) -> usize {
    filter.bit_array.iter().filter(|b| **b).count()
}

#[test]
fn zero_size_is_invalid() {
    assert_eq!(request("f", 0, 3).validate(), Err(BloomFilterError::InvalidParameters));
    let mut filter = BloomFilter::default();
    assert_eq!(init(&mut filter, request("f", 0, 3)), Err(BloomFilterError::InvalidParameters));
    assert_eq!(filter.m, 0);
    assert!(filter.bit_array.is_empty());
}

#[test]
fn zero_hashes_is_invalid() {
    assert_eq!(request("f", 10, 0).validate(), Err(BloomFilterError::InvalidParameters));
    assert_eq!(request("f", 0, 0).validate(), Err(BloomFilterError::InvalidParameters));
    assert_eq!(request("f", 10001, 0).validate(), Err(BloomFilterError::InvalidParameters));
}

#[test]
fn oversized_filter_is_refused() {
    assert_eq!(request("f", 10001, 1).validate(), Err(BloomFilterError::FilterTooLarge));
    assert_eq!(request("f", u32::MAX, 7).validate(), Err(BloomFilterError::FilterTooLarge));
    let mut filter = fresh("old", 5, 1);
    assert_eq!(init(&mut filter, request("f", 10001, 1)), Err(BloomFilterError::FilterTooLarge));
    assert_eq!(filter.name, "old");
    assert_eq!(filter.m, 5);
}

#[test]
fn largest_filter_is_accepted() {
    assert_eq!(request("f", 10000, 1).validate(), Ok(()));
    let filter = fresh("big", MAX_FILTER_SIZE as u32, 255);
    assert_eq!(filter.bit_array.len(), 10000);
    assert_eq!(filter.k, 255);
    assert!(filter.is_well_formed());
}

#[test]
fn init_scenario() {
    let mut filter = fresh("s", 10, 2);
    assert_eq!(filter.name, "s");
    assert_eq!(filter.bit_array, vec![false; 10]);
    assert_eq!(filter.m, 10);
    assert_eq!(filter.k, 2);
    assert_eq!(filter.n, 0);

    assert_eq!(filter.add(b"a"), Ok(()));
    assert_eq!(set_bits(&filter), 2);
    assert_eq!(filter.n, 1);
    assert_eq!(filter.check(b"a"), Ok(()));

    let b_indices = filter.get_indices(b"b");
    let b_covered = b_indices.iter().all(|i| filter.bit_array[*i as usize]);
    if b_covered {
        assert_eq!(filter.check(b"b"), Ok(()));
    } else {
        assert_eq!(filter.check(b"b"), Err(BloomFilterError::ElementNotFound));
    }
}

#[test]
fn method_init_sets_up_record() {
    let mut filter = BloomFilter::default();
    assert_eq!(filter.init(request("x", 7, 3)), Ok(()));
    assert_eq!(filter.name, "x");
    assert_eq!(filter.bit_array, vec![false; 7]);
    assert_eq!((filter.m, filter.k, filter.n), (7, 3, 0));
}

#[test]
fn default_record_is_empty_and_not_well_formed() {
    let filter = BloomFilter::default();
    assert_eq!(filter.name, "");
    assert!(filter.bit_array.is_empty());
    assert_eq!((filter.m, filter.k, filter.n), (0, 0, 0));
    assert!(!filter.is_well_formed());
}

#[test]
fn well_formedness_is_checked() {
    let mut filter = fresh("w", 8, 2);
    assert!(filter.is_well_formed());
    filter.n = 1;
    assert!(!filter.is_well_formed());
    filter.bit_array[3] = true;
    assert!(filter.is_well_formed());
    filter.bit_array.push(false);
    assert!(!filter.is_well_formed());
    let mut filter = fresh("w", 8, 2);
    filter.k = 0;
    assert!(!filter.is_well_formed());
}

#[test]
fn indices_follow_default_hasher() {
    let filter = fresh("h", 97, 5);
    let data: &[u8] = b"hello world";
    let indices = filter.get_indices(data);
    assert_eq!(indices.len(), 5);
    for (i, index) in indices.iter().enumerate() {
        let mut hasher = DefaultHasher::new();
        data.hash(&mut hasher);
        (i as u8).hash(&mut hasher);
        assert_eq!(*index as u64, hasher.finish() % 97);
    }
    assert_eq!(filter.get_indices(data), indices);
}

#[test]
fn check_indices_reports_clear_bits() {
    let mut filter = fresh("c", 6, 2);
    filter.bit_array[1] = true;
    filter.bit_array[4] = true;
    assert_eq!(filter.check_indices(&[1, 4]), Ok(()));
    assert_eq!(filter.check_indices(&[4, 4, 1]), Ok(()));
    assert_eq!(filter.check_indices(&[]), Ok(()));
    assert_eq!(filter.check_indices(&[1, 0]), Err(BloomFilterError::ElementNotFound));
    assert_eq!(filter.check_indices(&[5]), Err(BloomFilterError::ElementNotFound));
}

#[test]
fn add_indices_sets_positions_and_counts() {
    let mut filter = fresh("i", 6, 2);
    filter.add_indices(&[2, 5]);
    assert_eq!(filter.bit_array, vec![false, false, true, false, false, true]);
    assert_eq!(filter.n, 1);
    filter.add_indices(&[5, 2]);
    assert_eq!(filter.n, 1);
    filter.add_indices(&[2, 0]);
    assert_eq!(filter.bit_array, vec![true, false, true, false, false, true]);
    assert_eq!(filter.n, 2);
    filter.add_indices(&[3, 3]);
    assert_eq!(filter.bit_array, vec![true, false, true, true, false, true]);
    assert_eq!(filter.n, 3);
}

#[test]
fn added_elements_are_never_missed() {
    let mut filter = fresh("nfn", 64, 3);
    let elems: Vec<Vec<u8>> = (0u32..40).map(|i| i.to_le_bytes().to_vec()).collect();
    for (i, e) in elems.iter().enumerate() {
        filter.add(e).unwrap();
        for earlier in &elems[..=i] {
            assert_eq!(filter.check(earlier), Ok(()));
        }
    }
    assert!(filter.is_well_formed());
}

#[test]
fn adding_twice_equals_adding_once() {
    let mut once = fresh("o", 50, 4);
    once.add(b"x").unwrap();
    once.add(b"y").unwrap();
    let mut twice = fresh("o", 50, 4);
    twice.add(b"x").unwrap();
    twice.add(b"y").unwrap();
    twice.add(b"y").unwrap();
    assert_eq!(once.n, twice.n);
    assert_eq!(once.bit_array, twice.bit_array);
}

#[test]
fn count_and_bits_only_grow() {
    let mut filter = fresh("m", 32, 3);
    let mut before = filter.bit_array.clone();
    let mut n = filter.n;
    for i in 0u8..50 {
        filter.add(&[i, i.wrapping_mul(7)]).unwrap();
        assert!(filter.n >= n);
        assert!(filter.n <= n + 1);
        for (old, new) in before.iter().zip(filter.bit_array.iter()) {
            assert!(!*old || *new);
        }
        before = filter.bit_array.clone();
        n = filter.n;
    }
    assert!(filter.n as usize <= set_bits(&filter));
}

#[test]
fn same_insertions_give_same_bits() {
    let mut a = fresh("first", 128, 3);
    let mut b = fresh("second", 128, 3);
    for e in [&b"apple"[..], b"pear", b"", b"plum", b"apple"] {
        a.add(e).unwrap();
        b.add(e).unwrap();
    }
    assert_eq!(a.bit_array, b.bit_array);
    assert_eq!(a.n, b.n);
}

#[test]
fn false_positive_inputs_after_three_inserts() {
    let mut filter = fresh("fp", 100, 4);
    filter.add(b"one").unwrap();
    filter.add(b"two").unwrap();
    filter.add(b"three").unwrap();
    assert_eq!((filter.m, filter.k, filter.n), (100, 4, 3));
    let (k, n, m) = (filter.k as f64, filter.n as f64, filter.m as f64);
    let rate = (1.0 - (-k * n / m).exp()).powf(k);
    let expected = (1.0f64 - (-4.0f64 * 3.0 / 100.0).exp()).powi(4);
    assert!((rate - expected).abs() < 1e-12);
}

#[test]
fn empty_element_is_handled() {
    let mut filter = fresh("e", 10, 3);
    assert_eq!(filter.check(b""), Err(BloomFilterError::ElementNotFound));
    filter.add(b"").unwrap();
    assert_eq!(filter.n, 1);
    assert_eq!(filter.check(b""), Ok(()));
}

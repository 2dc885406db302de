use extsort_iter::extension_trait::{ExtSortByExtension, ExtSortOrdExtension};
use extsort_iter::orderer::{ConstExtractor, IdentityExtractor, OrdOrderer};
use extsort_iter::sorter::result_iter::ResultIterator;
use extsort_iter::sorter::ExtsortConfig;

const TEST_SEQUENCE: [i32; 100] = [
    2, 82, 29, 86, 100, 67, 44, 19, 25, 10, 84, 47, 65, 42, 11, 24, 53, 92, 69, 49, 70, 36, 8, 48,
    16, 91, 62, 58, 55, 18, 27, 79, 76, 40, 22, 95, 99, 28, 17, 7, 59, 30, 97, 80, 34, 33, 54, 45,
    31, 52, 56, 1, 57, 38, 61, 6, 23, 94, 85, 51, 35, 68, 41, 15, 90, 14, 74, 75, 32, 73, 83, 64,
    77, 89, 4, 72, 71, 21, 63, 5, 39, 12, 20, 3, 43, 88, 26, 78, 93, 60, 50, 13, 37, 87, 46, 96,
    66, 98, 81, 9,
];

fn collect_all<O: extsort_iter::orderer::Orderer<i32>>(
    mut it: ResultIterator<i32, O>,
) -> Vec<i32> {
    let mut out = Vec::new();
    while let Some(v) = it.next() {
        out.push(v);
    }
    out
}

#[test]
fn integration() {
    let data = TEST_SEQUENCE
        .to_vec()
        .external_sort(ExtsortConfig::create_with_buffer_size_for::<i32>(32))
        .unwrap();

    let collected = collect_all(data);
    let is_sorted = collected.into_iter().zip(1..).all(|(l, r)| l == r);

    assert!(is_sorted);
}

#[test]
fn sort_zst() {
    let data = [(), (), ()];
    let mut sorted_iter = data
        .to_vec()
        .external_sort_by_key(ExtsortConfig::default_for::<()>(), ConstExtractor::new(1i32))
        .unwrap();
    let mut sorted = Vec::new();
    while let Some(v) = sorted_iter.next() {
        sorted.push(v);
    }
    assert_eq!(3, sorted.len())
}

#[test]
fn integration_sortby() {
    let data = TEST_SEQUENCE
        .to_vec()
        .external_sort_by(
            ExtsortConfig::create_with_buffer_size_for::<i32>(4096),
            OrdOrderer::new(),
        )
        .unwrap();
    let mut collected = Vec::new();
    let mut data = data;
    while let Some(v) = data.next() {
        collected.push(v);
    }

    let is_sorted = collected.into_iter().zip(1..).all(|(l, r)| l == r);

    assert!(is_sorted);
}

#[test]
fn integration_sortby_key() {
    let data = TEST_SEQUENCE
        .to_vec()
        .external_sort_by_key(ExtsortConfig::default_for::<i32>(), IdentityExtractor::new())
        .unwrap();
    let mut collected = Vec::new();
    let mut data = data;
    while let Some(v) = data.next() {
        collected.push(v);
    }

    let is_sorted = collected.into_iter().zip(1..).all(|(l, r)| l == r);

    assert!(is_sorted);
}

fn roundtrip_sequence(sequence: Vec<i32>, buffer_size: usize) {
    let roundtripped_iter = sequence
        .clone()
        .external_sort(
            ExtsortConfig::create_with_buffer_size_for::<i32>(buffer_size)
                .temp_file_folder("/dev/shm"),
        )
        .unwrap();
    let roundtripped = collect_all(roundtripped_iter);

    assert_eq!(sequence, roundtripped);
}

#[test]
fn test_single_run() {
    let sequence = (1..100).collect();
    roundtrip_sequence(sequence, 80000);
}

#[test]
fn test_many_runs() {
    let sequence = (0..1000).collect();
    roundtrip_sequence(sequence, 16);
}

#[test]
fn test_tiny_buffer() {
    let sequence = (0..1000).collect();
    roundtrip_sequence(sequence, 1);
}

#[test]
fn test_sort_in_mem() {
    let sequence = (0..10).collect();
    roundtrip_sequence(sequence, 4096);
}

#[test]
fn test_remaining_len() {
    let data = (0..500).collect::<Vec<i32>>();
    let mut sorted = data
        .external_sort(ExtsortConfig::create_with_buffer_size_for::<i32>(8))
        .unwrap();
    let mut result = vec![];
    assert_eq!(500, sorted.len());
    while let Some(next) = sorted.next() {
        result.push(next);
        assert_eq!(500 - result.len(), sorted.len());
    }
}

#[test]
fn doc_example_sequence() {
    let sequence = vec![3, 21, 42, 9, 5];
    let sorted_iter = sequence
        .external_sort(ExtsortConfig::default_for::<i32>())
        .unwrap();
    let sorted = collect_all(sorted_iter);
    assert_eq!(&sorted, &[3, 5, 9, 21, 42]);
}

#[test]
fn remaining_counts_down_from_one_hundred() {
    let data: Vec<i32> = (1..=100).rev().collect();
    let mut sorted = data
        .external_sort(ExtsortConfig::create_with_buffer_size_for::<i32>(128))
        .unwrap();
    let mut expected_remaining: usize = 100;
    assert_eq!(sorted.len(), 100);
    let (lo, hi) = sorted.size_hint();
    assert_eq!(lo, 100);
    assert_eq!(hi, Some(100));
    let mut expected_value = 1;
    while let Some(v) = sorted.next() {
        assert_eq!(v, expected_value);
        expected_value += 1;
        expected_remaining -= 1;
        assert_eq!(sorted.len(), expected_remaining);
    }
    assert_eq!(expected_remaining, 0);
}

#[test]
fn permuted_hundred_with_small_buffer() {
    let data = TEST_SEQUENCE.to_vec();
    let sorted_iter = data
        .external_sort(ExtsortConfig::create_with_buffer_size_for::<i32>(128))
        .unwrap();
    let sorted = collect_all(sorted_iter);
    let expected: Vec<i32> = (1..=100).collect();
    assert_eq!(sorted, expected);
}

#[test]
fn empty_input_empty_output() {
    let data: Vec<i32> = Vec::new();
    let mut sorted = data
        .external_sort(ExtsortConfig::default_for::<i32>())
        .unwrap();
    assert_eq!(sorted.len(), 0);
    assert!(sorted.next().is_none());
    assert!(sorted.next().is_none());
}

#[test]
fn single_element_passes_through() {
    let data: Vec<i32> = vec![7];
    let mut sorted = data
        .external_sort(ExtsortConfig::default_for::<i32>())
        .unwrap();
    assert_eq!(sorted.len(), 1);
    assert_eq!(sorted.next(), Some(7));
    assert!(sorted.next().is_none());
}

#[test]
fn boundary_buffer_sizes() {
    // input length equal to the buffer item count, one more, twice it
    for n in [32usize, 33, 64, 8192, 8193] {
        let data: Vec<i32> = (0..n as i32).rev().collect();
        let sorted_iter = data
            .external_sort(ExtsortConfig::create_with_buffer_size_for::<i32>(128))
            .unwrap();
        let sorted = collect_all(sorted_iter);
        let expected: Vec<i32> = (0..n as i32).collect();
        assert_eq!(sorted, expected);
    }
}

#[test]
fn sorted_and_reverse_sorted_inputs() {
    let ascending: Vec<i32> = (0..300).collect();
    let descending: Vec<i32> = (0..300).rev().collect();
    for data in [ascending.clone(), descending] {
        let sorted_iter = data
            .external_sort(ExtsortConfig::create_with_buffer_size_for::<i32>(64))
            .unwrap();
        assert_eq!(collect_all(sorted_iter), ascending);
    }
}

#[test]
fn config_buffer_item_counts() {
    let config = ExtsortConfig::with_buffer_size(128);
    assert_eq!(config.get_num_items_for::<i32>(), 32);
    assert_eq!(config.get_num_items_for::<u64>(), 16);
    assert_eq!(config.get_num_items_for::<()>(), 1);
    let tiny = ExtsortConfig::with_buffer_size(1);
    assert_eq!(tiny.get_num_items_for::<i32>(), 1);
}

#[test]
fn config_fluent_updates() {
    let config = ExtsortConfig::new()
        .sort_buffer_size(4096)
        .temp_file_folder("/dev/shm");
    assert_eq!(config.sort_buffer_size_bytes, 4096);
    assert_eq!(config.max_files, 256);
}

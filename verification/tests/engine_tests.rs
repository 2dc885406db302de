use extsort_iter::extension_trait::{ParallelExtSortExtension, ParallelExtSortOrdExtension};
use extsort_iter::orderer::OrdOrderer;
use extsort_iter::run::file_run::ExternalRun;
use extsort_iter::run::Run;
use extsort_iter::sorter::ExtsortConfig;
use extsort_iter::tape::compressor::CompressionCodec;
use extsort_iter::tape::{vec_to_tape, TapeCollection};

#[test]
fn threaded_variant_with_compression() {
    let data: Vec<i32> = (0..10_000).rev().collect();
    let config = ExtsortConfig::create_with_buffer_size_for::<i32>(4096).compress_lz4_flex();
    let mut sorted = data.par_external_sort(config).unwrap();
    let (remaining, _) = sorted.size_hint();
    assert_eq!(remaining, 10_000);
    let mut expected = 0;
    while let Some(v) = sorted.next() {
        assert_eq!(v, expected);
        expected += 1;
    }
    assert_eq!(expected, 10_000);
}

#[test]
fn parallel_sort_by_key() {
    let data: Vec<i32> = (0..500).rev().collect();
    let mut sorted = data
        .par_external_sort_by(
            ExtsortConfig::create_with_buffer_size_for::<i32>(64),
            OrdOrderer::new(),
        )
        .unwrap();
    let mut expected = 0;
    while let Some(v) = sorted.next() {
        assert_eq!(v, expected);
        expected += 1;
    }
    assert_eq!(expected, 500);
}

#[test]
fn codec_roundtrip_lz4() {
    let payload: Vec<u8> = (0..255u8).cycle().take(10_000).collect();
    let mut sink: Vec<u8> = Vec::new();
    CompressionCodec::Lz4Flex.write_all(&mut sink, payload.as_slice());
    assert_ne!(sink, payload);
    let decoded = CompressionCodec::Lz4Flex.decode_all(sink).unwrap();
    assert_eq!(decoded, payload);
}

#[test]
fn codec_roundtrip_plain() {
    let payload: Vec<u8> = vec![1, 2, 3, 4, 5];
    let mut sink: Vec<u8> = Vec::new();
    CompressionCodec::NoCompression.write_all(&mut sink, payload.as_slice());
    assert_eq!(sink, payload);
    let decoded = CompressionCodec::NoCompression.decode_all(sink).unwrap();
    assert_eq!(decoded, payload);
}

#[test]
fn shared_packing_keeps_all_runs() {
    // more runs than the store cap: later runs are packed as segments
    let mut collection: TapeCollection<u32> =
        TapeCollection::new(String::from("/tmp"), 2, CompressionCodec::NoCompression);
    let runs: Vec<Vec<u32>> = (0..7u32).map(|r| vec![r * 10, r * 10 + 1]).collect();
    for run in runs.iter() {
        let mut buffer = run.clone();
        collection.add_run(&mut buffer);
        assert!(buffer.is_empty());
    }
    let tapes = collection.into_tapes(16);
    assert_eq!(tapes.len(), 7);
    let mut seen: Vec<Vec<u32>> = Vec::new();
    for mut tape in tapes {
        let mut contents = Vec::new();
        while let Some(v) = tape.next() {
            contents.push(v);
        }
        seen.push(contents);
    }
    let mut expected = runs.clone();
    expected.sort();
    seen.sort();
    assert_eq!(seen, expected);
}

#[test]
fn file_run_reads_tape_back() {
    let data: Vec<u64> = (0..100).collect();
    let tape = vec_to_tape(data.clone());
    let mut run: ExternalRun<u64> = ExternalRun::from_tape(tape, 10);
    assert_eq!(run.remaining_items(), 100);
    assert_eq!(run.peek(), Some(&0));
    let mut collected = Vec::new();
    while let Some(v) = run.next() {
        collected.push(v);
    }
    assert_eq!(collected, data);
}

fn test_file_run<T>(data: Vec<T>, buffer_size: usize)
where
    T: Clone + Eq + std::fmt::Debug,
{
    let tape = vec_to_tape(data.clone());
    let mut run = ExternalRun::from_tape(tape, buffer_size);

    assert_eq!(data.len(), run.remaining_items());
    let mut collected = Vec::new();
    while let Some(v) = run.next() {
        collected.push(v);
    }
    assert_eq!(data, collected);
}

#[test]
fn test_drop() {
    let vec: Vec<i32> = (1..5).collect();
    let data: Vec<_> = core::iter::repeat(&vec).take(20).cloned().collect();
    let tape = vec_to_tape(data);
    let mut run: ExternalRun<Vec<i32>> = ExternalRun::from_tape(tape, 4096);
    for _ in 0..10 {
        run.next();
    }
    drop(run);
}

#[test]
fn works_with_vecs() {
    let d = (1..100).collect::<Vec<_>>();
    let data = vec![d; 10];

    test_file_run(data, 2);
}

#[test]
fn works_with_zst() {
    let data = vec![(); 10];
    test_file_run(data, 2);
}

#[test]
fn works_with_larger_buffer() {
    let size = 20;
    let data = vec![(); 10];
    test_file_run(data, size);

    let data = vec![1337; 10];
    test_file_run(data, size);
}

#[test]
fn works_with_empty_data() {
    let size = 10;
    let data = vec![(); 0];
    test_file_run(data, size);

    let data: Vec<i32> = vec![1; 0];
    test_file_run(data, size);
}

#[test]
fn test_flush() {
    let backing: Vec<u32> = Vec::new();
    let mut wrapper = extsort_iter::run::split_backing::SplitView::new(backing);
    let mut view = wrapper.add_segment();
    let mut empty: Vec<u32> = Vec::new();
    wrapper.fill_segment(&mut view, &mut empty);
}

pub mod buffer_cleaner;
pub mod result_iter;

use vstd::prelude::*;

use crate::merge::{run_sorted, tapes_inv, tapes_sorted, tapes_total};
use crate::orderer::Orderer;
use crate::run::file_run::create_buffer_run;
use crate::run::Run;
use crate::sorter::buffer_cleaner::{BufferCleaner, FinalizeContents};
use crate::sorter::result_iter::ResultIterator;
use crate::tape::compressor::CompressionCodec;
use vstd::multiset::Multiset;

verus! {

/// The failures a sort can report: the writing side of the sort went
/// away before the work was done.
#[derive(Clone, Copy, Debug, PartialEq, Eq, Structural)]
pub enum SortError {
    BrokenPipe,
}

/// The configuration for the external sorting.
pub struct ExtsortConfig {
    /// the maximum size of the sort buffer, in bytes
    pub sort_buffer_size_bytes: usize,
    /// the folder where spill stores are created
    pub temp_file_folder: String,
    /// the codec applied to tape payloads
    pub compress_with: CompressionCodec,
    /// the cap on simultaneously existing stores
    pub max_files: usize,
}

/// The number of items of size `item_size` that fit in `bytes`,
/// clamped to at least one; zero-sized items get a buffer of one.
pub open spec fn spec_num_items(bytes: int, item_size: int) -> int {
    if item_size == 0 {
        1
    } else if bytes / item_size < 1 {
        1
    } else {
        bytes / item_size
    }
}

impl Default for ExtsortConfig {
    /// A sort buffer size of 10M, a sort directory of /tmp, no
    /// compression, and at most 256 exclusive stores.
    fn default() -> (r: Self)
        ensures
            r.sort_buffer_size_bytes == 10_000_000,
            r.max_files == 256,
            r.compress_with is NoCompression,
    {
        Self {
            sort_buffer_size_bytes: 10_000_000,
            temp_file_folder: new_tmp_folder(),
            compress_with: CompressionCodec::NoCompression,
            max_files: 256,
        }
    }
}

/// Relies on String::from to build the default folder name "/tmp".
#[verifier::external_body]
fn new_tmp_folder() -> (r: String) {
    String::from("/tmp")
}

impl ExtsortConfig {
    /// The number of items of `T` the configured byte budget holds.
    pub fn get_num_items_for<T>(&self) -> (r: usize)
        ensures
            r == spec_num_items(self.sort_buffer_size_bytes as int, core::mem::size_of::<T>() as int),
            r >= 1,
    {
        let t_size = core::mem::size_of::<T>();
        if t_size == 0 {
            1
        } else {
            let n = self.sort_buffer_size_bytes / t_size;
            if n < 1 {
                1
            } else {
                n
            }
        }
    }

    /// Creates a configuration with a sort buffer size of 10M
    /// and a sort directory of /tmp
    ///
    /// It is recommended to increase the sort buffer size
    /// for improved performance.
    pub fn new() -> (r: Self)
        ensures
            r.sort_buffer_size_bytes == 10_000_000,
            r.max_files == 256,
            r.compress_with is NoCompression,
    {
        Default::default()
    }

    /// Creates a configuration with a specified sort buffer size in bytes
    /// and a sort directory of /tmp
    pub fn with_buffer_size(sort_buf_bytes: usize) -> (r: Self)
        ensures
            r.sort_buffer_size_bytes == sort_buf_bytes,
            r.max_files == 256,
            r.compress_with is NoCompression,
    {
        ExtsortConfig { sort_buffer_size_bytes: sort_buf_bytes, ..Default::default() }
    }

    /// Creates a configuration with a specified sort buffer size in bytes
    /// and a sort directory of /tmp
    pub fn create_with_buffer_size_for<T>(sort_buf_bytes: usize) -> (r: Self)
        ensures
            r.sort_buffer_size_bytes == sort_buf_bytes,
            r.max_files == 256,
            r.compress_with is NoCompression,
    {
        ExtsortConfig { sort_buffer_size_bytes: sort_buf_bytes, ..Default::default() }
    }

    /// Creates a configuration with a sort buffer size of 10M
    /// and a sort directory of /tmp
    pub fn default_for<T>() -> (r: Self)
        ensures
            r.sort_buffer_size_bytes == 10_000_000,
            r.max_files == 256,
            r.compress_with is NoCompression,
    {
        Default::default()
    }

    /// Updates the temp_file_folder attribute.
    /// Useful for fluent-style api usage.
    pub fn temp_file_folder(self, folder: &str) -> (r: Self)
        ensures
            r.sort_buffer_size_bytes == self.sort_buffer_size_bytes,
            r.max_files == self.max_files,
            r.compress_with == self.compress_with,
    {
        Self { temp_file_folder: folder_to_string(folder), ..self }
    }

    /// Selects the lz4 frame codec for tape payloads.
    pub fn compress_lz4_flex(self) -> (r: Self)
        ensures
            r.sort_buffer_size_bytes == self.sort_buffer_size_bytes,
            r.max_files == self.max_files,
            r.compress_with is Lz4Flex,
    {
        Self { compress_with: CompressionCodec::Lz4Flex, ..self }
    }

    /// sets the sort buffer size in bytes
    pub fn sort_buffer_size(self, new_size: usize) -> (r: Self)
        ensures
            r.sort_buffer_size_bytes == new_size,
            r.max_files == self.max_files,
            r.compress_with == self.compress_with,
    {
        Self { sort_buffer_size_bytes: new_size, ..self }
    }

    /// The codec the sort will apply.
    pub fn compression_choice(&self) -> (r: CompressionCodec)
        ensures
            r == self.compress_with,
    {
        self.compress_with
    }
}

/// Relies on str::to_string to copy the folder name.
#[verifier::external_body]
fn folder_to_string(folder: &str) -> (r: String) {
    folder.to_string()
}

/// Relies on slice::sort_unstable_by: the buffer is reordered in place
/// according to the comparator, so the result is a permutation of the
/// input, non-decreasing under the orderer the comparator decides.
#[verifier::external_body]
pub(crate) fn buffer_sort<T, O: Orderer<T>>(orderer: &O, buffer: &mut Vec<T>)
    ensures
        run_sorted(final(buffer)@, *orderer),
        final(buffer)@.to_multiset() == old(buffer)@.to_multiset(),
        final(buffer)@.len() == old(buffer)@.len(),
{
    buffer.sort_unstable_by(|a, b| orderer.compare(a, b));
}

/// Relies on rayon's ParallelSliceMut::par_sort_unstable_by: the buffer
/// is reordered in place by a parallel sort according to the
/// comparator, so the result is a permutation of the input,
/// non-decreasing under the orderer the comparator decides.
#[verifier::external_body]
pub(crate) fn par_buffer_sort<T: Send, O: Orderer<T> + Sync>(orderer: &O, buffer: &mut Vec<T>)
    ensures
        run_sorted(final(buffer)@, *orderer),
        final(buffer)@.to_multiset() == old(buffer)@.to_multiset(),
        final(buffer)@.len() == old(buffer)@.len(),
{
    rayon::slice::ParallelSliceMut::par_sort_unstable_by(
        buffer.as_mut_slice(),
        |a, b| orderer.compare(a, b),
    );
}

/// The sort driver: ingests the source, partitions it into sorted runs
/// via the cleaner, and finalizes into the merging result iterator.
pub struct ExtSorter {}

impl ExtSorter {
    pub fn new() -> (r: Self) {
        Self {  }
    }

    /// Consumes the source, spilling one sorted run per full buffer;
    /// when the whole input fits in one buffer, no run is ever spilled
    /// and the buffer itself is served as the single pseudo-run.
    pub fn run<T, O: Orderer<T>, C: BufferCleaner<T, O>>(
        self,
        source: Vec<T>,
        buffer_cleaner: C,
    ) -> (r: Result<ResultIterator<T, O>, SortError>)
        requires
            buffer_cleaner.inv(),
            buffer_cleaner.num_runs() == 0,
            buffer_cleaner.items() == Multiset::<T>::empty(),
            buffer_cleaner.total() == 0,
            source@.len() <= u32::MAX,
            source@.len() <= usize::MAX / 2 - 1,
        ensures
            r is Ok,
            ({
                let it = r.unwrap();
                &&& it.wf()
                &&& it.initial_ms() == source@.to_multiset()
                &&& it.spec_remaining() == source@.len()
                &&& it.yielded_seq() == Seq::<T>::empty()
                &&& it.spec_orderer() == buffer_cleaner.orderer()
                &&& source@.len() < buffer_cleaner.buffer_cap() ==> it.num_runs() <= 1
            }),
    {
        let ghost n = source@.len() as int;
        let ghost input_ms = source@.to_multiset();
        let ghost o = buffer_cleaner.orderer();
        let mut cleaner = buffer_cleaner;
        proof {
            broadcast use vstd::seq_lib::group_to_multiset_ensures;

            source@.lemma_reverse_to_multiset();
        }
        let mut src = crate::run::reverse_vec(source);
        let mut sort_buffer = cleaner.get_buffer();
        let capacity = cleaner.buffer_capacity();
        let mut any_buffer_was_flushed = false;
        proof {
            broadcast use vstd::seq_lib::group_to_multiset_ensures;

            assert(src@.to_multiset() == input_ms);
            src@.lemma_reverse_to_multiset();
            assert(sort_buffer@.to_multiset().len() == 0);
            assert(sort_buffer@.to_multiset() =~= Multiset::<T>::empty());
            assert(Multiset::<T>::empty().add(Multiset::<T>::empty()).add(input_ms)
                =~= input_ms);
        }
        loop
            invariant
                cleaner.inv(),
                cleaner.orderer() == o,
                o == buffer_cleaner.orderer(),
                capacity == buffer_cleaner.buffer_cap(),
                input_ms == source@.to_multiset(),
                capacity == cleaner.buffer_cap(),
                capacity >= 1,
                sort_buffer@.len() == 0,
                cleaner.items().add(src@.reverse().to_multiset()) == input_ms,
                cleaner.total() + src@.len() == n,
                cleaner.num_runs() <= cleaner.total(),
                any_buffer_was_flushed ==> n >= capacity,
                !any_buffer_was_flushed ==> cleaner.num_runs() == 0
                    && cleaner.total() == 0 && cleaner.items() == Multiset::<
                    T,
                >::empty(),
                n <= u32::MAX,
                n <= usize::MAX / 2 - 1,
                n == input_ms.len(),
            decreases src@.len(),
        {
            let ghost fill_pre_src = src@;
            proof {
                broadcast use vstd::seq_lib::group_to_multiset_ensures;

                assert(sort_buffer@.to_multiset().len() == 0);
                assert(sort_buffer@.to_multiset().add(src@.reverse().to_multiset())
                    =~= src@.reverse().to_multiset());
            }
            while sort_buffer.len() < capacity && src.len() > 0
                invariant
                    sort_buffer@.to_multiset().add(src@.reverse().to_multiset())
                        == fill_pre_src.reverse().to_multiset(),
                    sort_buffer@.len() + src@.len() == fill_pre_src.len(),
                    sort_buffer@.len() <= capacity,
                decreases src@.len(),
            {
                let ghost pre_buf = sort_buffer@;
                let ghost pre_src = src@;
                let v = src.pop().unwrap();
                sort_buffer.push(v);
                proof {
                    broadcast use vstd::seq_lib::group_to_multiset_ensures;

                    assert(pre_src.drop_last().reverse() =~= pre_src.reverse().drop_first());
                    assert(pre_src.reverse() =~= pre_src.reverse().drop_first().insert(
                        0,
                        pre_src.last(),
                    ));
                    vstd::seq_lib::to_multiset_insert(
                        pre_src.reverse().drop_first(),
                        0,
                        pre_src.last(),
                    );
                    assert(sort_buffer@.to_multiset() =~= pre_buf.to_multiset().insert(
                        pre_src.last(),
                    ));
                    assert(pre_buf.to_multiset().insert(pre_src.last()).add(
                        src@.reverse().to_multiset(),
                    ) =~= pre_buf.to_multiset().add(
                        src@.reverse().to_multiset().insert(pre_src.last()),
                    ));
                }
            }
            if sort_buffer.len() < capacity {
                // we could not completely fill the buffer, so we know that this
                // is the last run that will be generated.
                proof {
                    broadcast use vstd::seq_lib::group_to_multiset_ensures;

                    assert(src@.len() == 0);
                    assert(src@.reverse() =~= Seq::<T>::empty());
                    assert(src@.reverse().to_multiset().len() == 0);
                    assert(src@.reverse().to_multiset() =~= Multiset::<T>::empty());
                }
                if !any_buffer_was_flushed {
                    // we did not actually move anything to disk.
                    // in this case we can just reuse the sort buffer
                    // as a sort of pseudo tape.
                    proof {
                        assert(Multiset::<T>::empty().add(sort_buffer@.to_multiset()).add(
                            Multiset::<T>::empty(),
                        ) =~= sort_buffer@.to_multiset());
                        assert(sort_buffer@.to_multiset() == input_ms);
                        assert(sort_buffer@.to_multiset().len() == sort_buffer@.len());
                    }
                    cleaner.sort_buffer(&mut sort_buffer);
                    let contents = match cleaner.finalize() {
                        Ok(c) => c,
                        Err(e) => {
                            return Err(e);
                        },
                    };
                    let ghost buf_ms = sort_buffer@.to_multiset();
                    let buffer_run = create_buffer_run(sort_buffer);
                    let mut runs = contents.tapes;
                    proof {
                        assert(runs@.len() == 0);
                        crate::merge::lemma_tapes_push(runs@, buffer_run);
                    }
                    runs.push(buffer_run);
                    proof {
                        assert(crate::merge::tapes_ms(runs@) == Multiset::<T>::empty().add(
                            buf_ms,
                        ));
                        assert(Multiset::<T>::empty().add(buf_ms) =~= buf_ms);
                        assert(forall|i: int|
                            0 <= i < runs@.len() ==> (#[trigger] runs@[i]).inv());
                        assert(forall|i: int|
                            0 <= i < runs@.len() ==> run_sorted(#[trigger] runs@[i].items(), o));
                        assert(tapes_total(runs@) == 0 + buf_ms.len());
                    }
                    return Ok(ResultIterator::new(runs, contents.orderer));
                }
                if sort_buffer.len() > 0 {
                    // since we moved runs to disk, we will need to use memory for the read buffers.
                    // to avoid going over budget, we move the final run to disk as well
                    match cleaner.clean_buffer(&mut sort_buffer) {
                        Ok(u) => u,
                        Err(e) => {
                            return Err(e);
                        },
                    };
                }
                proof {
                    broadcast use vstd::seq_lib::group_to_multiset_ensures;

                    assert(sort_buffer@.to_multiset().len() == 0);
                    assert(sort_buffer@.to_multiset() =~= Multiset::<T>::empty());
                    assert(cleaner.items().add(Multiset::<T>::empty()) =~= cleaner.items());
                    assert(cleaner.items() == input_ms);
                }
                // at this point, we must have moved runs to disk, including the final sort buffer.
                // wait for the cleaner to finish writing and collect the tapes.
                let contents = match cleaner.finalize() {
                    Ok(c) => c,
                    Err(e) => {
                        return Err(e);
                    },
                };
                proof {
                    crate::merge::lemma_tapes_total_is_ms_len(contents.tapes@);
                }
                return Ok(ResultIterator::new(contents.tapes, contents.orderer));
            } else {
                proof {
                    broadcast use vstd::seq_lib::group_to_multiset_ensures;

                    assert(sort_buffer@.len() == capacity);
                    assert(sort_buffer@.to_multiset().len() == sort_buffer@.len());
                }
                let ghost pre_items = cleaner.items();
                let ghost buf_ms = sort_buffer@.to_multiset();
                match cleaner.clean_buffer(&mut sort_buffer) {
                    Ok(u) => u,
                    Err(e) => {
                        return Err(e);
                    },
                };
                any_buffer_was_flushed = true;
                proof {
                    broadcast use vstd::seq_lib::group_to_multiset_ensures;

                    assert(sort_buffer@.to_multiset().len() == 0);
                    assert(sort_buffer@.to_multiset() =~= Multiset::<T>::empty());
                    assert(pre_items.add(buf_ms).add(src@.reverse().to_multiset())
                        =~= pre_items.add(buf_ms.add(src@.reverse().to_multiset())));
                }
            }
        }
    }
}

} // verus!

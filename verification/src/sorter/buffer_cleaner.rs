use vstd::prelude::*;

use crate::merge::{run_sorted, tapes_inv, tapes_sorted};
use crate::orderer::Orderer;
use crate::run::file_run::ExternalRun;
use crate::run::Run;
use crate::sorter::{ExtsortConfig, SortError};
use crate::tape::{seqs_items, seqs_total, TapeCollection};
use vstd::multiset::Multiset;

verus! {

/// A struct to get the finalization results.
pub struct FinalizeContents<T, O> {
    /// the runs that were moved to the spill store during execution
    pub tapes: Vec<ExternalRun<T>>,
    /// the orderer supplied to the cleaner
    pub orderer: O,
}

/// A strategy on how to move runs to the spill store.
pub trait BufferCleaner<T, O: Orderer<T>>: Sized {
    /// All items spilled so far.
    spec fn items(&self) -> Multiset<T>;

    /// The number of items spilled so far.
    spec fn total(&self) -> int;

    /// The number of runs spilled so far.
    spec fn num_runs(&self) -> int;

    /// The orderer all runs are sorted under.
    spec fn orderer(&self) -> O;

    /// The capacity of the sort buffers this cleaner hands out.
    spec fn buffer_cap(&self) -> int;

    spec fn inv(&self) -> bool;

    /// The configured buffer capacity, counted in items.
    fn buffer_capacity(&self) -> (r: usize)
        requires
            self.inv(),
        ensures
            r == self.buffer_cap(),
            r >= 1,
    ;

    /// constructs an initial buffer for sorting use, matching the configured size
    /// To avoid excessive resource consumption, only one buffer should be constructed
    /// using this method.
    fn get_buffer(&mut self) -> (b: Vec<T>)
        requires
            old(self).inv(),
        ensures
            *final(self) == *old(self),
            b@.len() == 0,
    ;

    /// Sorts the buffer in place under the orderer.
    fn sort_buffer(&self, buffer: &mut Vec<T>)
        requires
            self.inv(),
        ensures
            run_sorted(final(buffer)@, self.orderer()),
            final(buffer)@.to_multiset() == old(buffer)@.to_multiset(),
            final(buffer)@.len() == old(buffer)@.len(),
    ;

    /// sorts the provided run and moves it to the spill store.
    /// after this function returns successfully, the buffer will be empty
    /// and ready for reuse.
    fn clean_buffer(&mut self, buffer: &mut Vec<T>) -> (r: Result<(), SortError>)
        requires
            old(self).inv(),
            old(self).total() + old(buffer)@.len() <= usize::MAX,
            old(self).num_runs() < usize::MAX - 1,
            old(buffer)@.len() >= 1,
        ensures
            r is Ok,
            final(self).inv(),
            final(buffer)@.len() == 0,
            final(self).orderer() == old(self).orderer(),
            final(self).buffer_cap() == old(self).buffer_cap(),
            final(self).items() == old(self).items().add(old(buffer)@.to_multiset()),
            final(self).total() == old(self).total() + old(buffer)@.len(),
            final(self).num_runs() == old(self).num_runs() + 1,
    ;

    /// stops the sorting process and returns the runs moved to the
    /// spill store, each sorted, opened for reading with the read
    /// budget split across them.
    fn finalize(self) -> (r: Result<FinalizeContents<T, O>, SortError>)
        requires
            self.inv(),
        ensures
            r is Ok,
            ({
                let c = r.unwrap();
                &&& c.orderer == self.orderer()
                &&& tapes_inv(c.tapes@)
                &&& tapes_sorted(c.tapes@, self.orderer())
                &&& crate::merge::tapes_ms(c.tapes@) == self.items()
                &&& crate::merge::tapes_total(c.tapes@) == self.total()
                &&& c.tapes@.len() == self.num_runs()
            }),
    ;
}

/// A simple sequential cleaner implementation.
/// All trait methods on it just call the underlying functions directly.
pub struct SingleThreadedBufferCleaner<T, O> {
    tape_collection: TapeCollection<T>,
    orderer: O,
    buffer_cap: usize,
}

impl<T, O: Orderer<T>> SingleThreadedBufferCleaner<T, O> {
    pub fn new(config: ExtsortConfig, orderer: O) -> (r: Self)
        ensures
            r.inv(),
            r.num_runs() == 0,
            r.total() == 0,
            r.items() == Multiset::<T>::empty(),
            r.orderer() == orderer,
            r.buffer_cap() == crate::sorter::spec_num_items(
                config.sort_buffer_size_bytes as int,
                core::mem::size_of::<T>() as int,
            ),
    {
        let buffer_cap = config.get_num_items_for::<T>();
        let max_files = if config.max_files < 1 {
            1
        } else {
            config.max_files
        };
        let compression_choice = config.compression_choice();
        let tape_collection = TapeCollection::<T>::new(
            config.temp_file_folder,
            max_files,
            compression_choice,
        );
        Self { tape_collection, orderer, buffer_cap }
    }
}

impl<T, O: Orderer<T>> BufferCleaner<T, O> for SingleThreadedBufferCleaner<T, O> {
    closed spec fn items(&self) -> Multiset<T> {
        seqs_items(self.tape_collection.runs())
    }

    closed spec fn total(&self) -> int {
        seqs_total(self.tape_collection.runs())
    }

    closed spec fn num_runs(&self) -> int {
        self.tape_collection.runs().len() as int
    }

    closed spec fn orderer(&self) -> O {
        self.orderer
    }

    closed spec fn buffer_cap(&self) -> int {
        self.buffer_cap as int
    }

    closed spec fn inv(&self) -> bool {
        &&& self.tape_collection.wf()
        &&& self.buffer_cap >= 1
        &&& forall|i: int|
            0 <= i < self.tape_collection.runs().len() ==> run_sorted(
                #[trigger] self.tape_collection.runs()[i],
                self.orderer,
            )
    }

    fn buffer_capacity(&self) -> (r: usize) {
        self.buffer_cap
    }

    fn get_buffer(&mut self) -> (b: Vec<T>) {
        Vec::new()
    }

    fn sort_buffer(&self, buffer: &mut Vec<T>) {
        crate::sorter::buffer_sort(&self.orderer, buffer);
    }

    /// cleans the provided sort buffer
    fn clean_buffer(&mut self, buffer: &mut Vec<T>) -> (r: Result<(), SortError>) {
        crate::sorter::buffer_sort(&self.orderer, buffer);
        let ghost sorted_run = buffer@;
        let ghost pre_runs = self.tape_collection.runs();
        self.tape_collection.add_run(buffer);
        proof {
            lemma_sorted_runs_insert(
                pre_runs,
                self.tape_collection.runs(),
                sorted_run,
                self.orderer,
            );
        }
        Ok(())
    }

    fn finalize(self) -> (r: Result<FinalizeContents<T, O>, SortError>) {
        let ghost runs = self.tape_collection.runs();
        let tapes = self.tape_collection.into_tapes(self.buffer_cap);
        proof {
            crate::tape::lemma_tapes_match_runs(tapes@, runs);
        }
        Ok(FinalizeContents { tapes, orderer: self.orderer })
    }
}

/// When a run sequence grows by one sorted run, as a multiset, every
/// run of the new sequence is still sorted.
pub proof fn lemma_sorted_runs_insert<T, O: Orderer<T>>(
    pre: Seq<Seq<T>>,
    post: Seq<Seq<T>>,
    s: Seq<T>,
    o: O,
)
    requires
        post.to_multiset() == pre.to_multiset().insert(s),
        run_sorted(s, o),
        forall|i: int| 0 <= i < pre.len() ==> run_sorted(#[trigger] pre[i], o),
    ensures
        forall|i: int| 0 <= i < post.len() ==> run_sorted(#[trigger] post[i], o),
{
    broadcast use vstd::seq_lib::group_to_multiset_ensures;

    assert forall|i: int| 0 <= i < post.len() implies run_sorted(#[trigger] post[i], o) by {
        assert(post.contains(post[i]));
        assert(post.to_multiset().count(post[i]) > 0);
        if post[i] == s {
        } else {
            assert(pre.to_multiset().count(post[i]) > 0);
            assert(pre.contains(post[i]));
            let j = choose|j: int| 0 <= j < pre.len() && pre[j] == post[i];
            assert(run_sorted(pre[j], o));
        }
    }
}

/// A multithreaded buffer cleaner.
/// The idea here is to split the available sort buffer into 2 equal
/// parts so that one buffer can be flushed while the other one fills.

/// the cleaner object
pub struct MultithreadedBufferCleaner<O> {
    pub config: ExtsortConfig,
    pub orderer: O,
}

impl<O> MultithreadedBufferCleaner<O> {
    pub fn new(config: ExtsortConfig, orderer: O) -> (r: Self)
        ensures
            r.orderer == orderer,
            r.config == config,
    {
        Self { config, orderer }
    }

    /// Opens the cleaner handle that performs the sorting and spilling
    /// work of one sort call, with a parallel in-buffer sort.
    pub fn handle<T: Send>(self) -> (r: MultithreadedBufferCleanerHandle<T, O>) where
        O: Orderer<T> + Sync
        ensures
            r.inv(),
            r.num_runs() == 0,
            r.total() == 0,
            r.items() == Multiset::<T>::empty(),
            r.orderer() == self.orderer,
    {
        let buffer_cap_full = self.config.get_num_items_for::<T>();
        // the companion buffer of the writing side takes the other half
        // of the budget, so each handed-out buffer holds half.
        let buffer_cap = if buffer_cap_full / 2 < 1 {
            1
        } else {
            buffer_cap_full / 2
        };
        let max_files = if self.config.max_files < 1 {
            1
        } else {
            self.config.max_files
        };
        let compression_choice = self.config.compression_choice();
        let tape_collection = TapeCollection::<T>::new(
            self.config.temp_file_folder,
            max_files,
            compression_choice,
        );
        MultithreadedBufferCleanerHandle { tape_collection, orderer: self.orderer, buffer_cap }
    }
}

/// A handle object performing the cleaning work of one sort call,
/// handing out half-capacity buffers and sorting with a parallel sort.
pub struct MultithreadedBufferCleanerHandle<T, O> {
    tape_collection: TapeCollection<T>,
    orderer: O,
    buffer_cap: usize,
}

impl<T: Send, O: Orderer<T> + Sync> BufferCleaner<T, O> for MultithreadedBufferCleanerHandle<
    T,
    O,
> {
    closed spec fn items(&self) -> Multiset<T> {
        seqs_items(self.tape_collection.runs())
    }

    closed spec fn total(&self) -> int {
        seqs_total(self.tape_collection.runs())
    }

    closed spec fn num_runs(&self) -> int {
        self.tape_collection.runs().len() as int
    }

    closed spec fn orderer(&self) -> O {
        self.orderer
    }

    closed spec fn buffer_cap(&self) -> int {
        self.buffer_cap as int
    }

    closed spec fn inv(&self) -> bool {
        &&& self.tape_collection.wf()
        &&& self.buffer_cap >= 1
        &&& forall|i: int|
            0 <= i < self.tape_collection.runs().len() ==> run_sorted(
                #[trigger] self.tape_collection.runs()[i],
                self.orderer,
            )
    }

    fn buffer_capacity(&self) -> (r: usize) {
        self.buffer_cap
    }

    fn get_buffer(&mut self) -> (b: Vec<T>) {
        Vec::new()
    }

    fn sort_buffer(&self, buffer: &mut Vec<T>) {
        crate::sorter::par_buffer_sort(&self.orderer, buffer);
    }

    /// clean the provided buffer: sort it with the parallel sort and
    /// move it to the spill store.
    fn clean_buffer(&mut self, buffer: &mut Vec<T>) -> (r: Result<(), SortError>) {
        crate::sorter::par_buffer_sort(&self.orderer, buffer);
        let ghost sorted_run = buffer@;
        let ghost pre_runs = self.tape_collection.runs();
        self.tape_collection.add_run(buffer);
        proof {
            lemma_sorted_runs_insert(
                pre_runs,
                self.tape_collection.runs(),
                sorted_run,
                self.orderer,
            );
        }
        Ok(())
    }

    fn finalize(self) -> (r: Result<FinalizeContents<T, O>, SortError>) {
        let ghost runs = self.tape_collection.runs();
        let tapes = self.tape_collection.into_tapes(self.buffer_cap);
        proof {
            crate::tape::lemma_tapes_match_runs(tapes@, runs);
        }
        Ok(FinalizeContents { tapes, orderer: self.orderer })
    }
}

} // verus!

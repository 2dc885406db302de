use vstd::prelude::*;

use crate::orderer::{FuncOrderer, KeyExtract, KeyOrderer, OrdOrderer, Orderer, TotalOrder};
use crate::sorter::buffer_cleaner::{MultithreadedBufferCleaner, SingleThreadedBufferCleaner};
use crate::sorter::result_iter::ResultIterator;
use crate::sorter::{ExtSorter, ExtsortConfig, SortError};
use vstd::multiset::Multiset;

verus! {

/// The input fits in one sort buffer of the given configuration:
/// no run is ever spilled for such an input, and the result is served
/// from the single in-memory pseudo-run.
pub open spec fn fits_in_buffer<T>(input: Seq<T>, options: ExtsortConfig) -> bool {
    input.len() < crate::sorter::spec_num_items(
        options.sort_buffer_size_bytes as int,
        core::mem::size_of::<T>() as int,
    )
}

/// What a finished sort promises: the handed-out sequence will be
/// non-decreasing under the orderer, it starts empty, and the items
/// waiting to be handed out are exactly the input.
pub open spec fn sorts<T, O: Orderer<T>>(
    it: ResultIterator<T, O>,
    input: Seq<T>,
    orderer: O,
) -> bool {
    &&& it.wf()
    &&& it.initial_ms() == input.to_multiset()
    &&& it.spec_remaining() == input.len()
    &&& it.yielded_seq() == Seq::<T>::empty()
    &&& it.spec_orderer() == orderer
}

/// Sorting under the native order of the element type.
pub trait ExtSortOrdExtension<T: TotalOrder>: Sized {
    spec fn as_seq(&self) -> Seq<T>;

    /// Sorts the provided sequence according to the provided config
    /// using the native ordering on the type to sort.
    /// # Errors
    /// This function may error if a sort run fails to be written.
    fn external_sort(self, options: ExtsortConfig) -> (r: Result<
        ResultIterator<T, OrdOrderer>,
        SortError,
    >)
        requires
            self.as_seq().len() <= u32::MAX,
            self.as_seq().len() <= usize::MAX / 2 - 1,
        ensures
            r is Ok,
            sorts(r.unwrap(), self.as_seq(), OrdOrderer {  }),
            fits_in_buffer(self.as_seq(), options) ==> r.unwrap().num_runs() <= 1,
    ;
}

impl<T: TotalOrder> ExtSortOrdExtension<T> for Vec<T> {
    open spec fn as_seq(&self) -> Seq<T> {
        self@
    }

    fn external_sort(self, options: ExtsortConfig) -> (r: Result<
        ResultIterator<T, OrdOrderer>,
        SortError,
    >) {
        let cleaner = SingleThreadedBufferCleaner::new(options, OrdOrderer {  });
        ExtSorter::new().run(self, cleaner)
    }
}

/// Sorting under a caller-supplied comparison or key extraction.
pub trait ExtSortByExtension<T>: Sized {
    spec fn as_seq(&self) -> Seq<T>;

    /// Sorts the provided sequence according to the provided config
    /// using a custom comparator.
    /// # Errors
    /// This function may error if a sort run fails to be written.
    fn external_sort_by<F: Orderer<T>>(self, options: ExtsortConfig, comparator: F) -> (r: Result<
        ResultIterator<T, FuncOrderer<F>>,
        SortError,
    >)
        requires
            self.as_seq().len() <= u32::MAX,
            self.as_seq().len() <= usize::MAX / 2 - 1,
        ensures
            r is Ok,
            sorts(r.unwrap(), self.as_seq(), FuncOrderer { comparator }),
            fits_in_buffer(self.as_seq(), options) ==> r.unwrap().num_runs() <= 1,
    ;

    /// Sorts the provided sequence according to the provided config
    /// using a key extraction capability.
    /// # Errors
    /// This function may error if a sort run fails to be written.
    fn external_sort_by_key<F: KeyExtract<T>>(self, options: ExtsortConfig, key_extractor: F) -> (r:
        Result<ResultIterator<T, KeyOrderer<F>>, SortError>)
        requires
            self.as_seq().len() <= u32::MAX,
            self.as_seq().len() <= usize::MAX / 2 - 1,
        ensures
            r is Ok,
            sorts(r.unwrap(), self.as_seq(), KeyOrderer { key_extractor }),
            fits_in_buffer(self.as_seq(), options) ==> r.unwrap().num_runs() <= 1,
    ;
}

impl<T> ExtSortByExtension<T> for Vec<T> {
    open spec fn as_seq(&self) -> Seq<T> {
        self@
    }

    fn external_sort_by<F: Orderer<T>>(self, options: ExtsortConfig, comparator: F) -> (r: Result<
        ResultIterator<T, FuncOrderer<F>>,
        SortError,
    >) {
        let cleaner = SingleThreadedBufferCleaner::new(options, FuncOrderer::new(comparator));
        ExtSorter::new().run(self, cleaner)
    }

    fn external_sort_by_key<F: KeyExtract<T>>(self, options: ExtsortConfig, key_extractor: F) -> (r:
        Result<ResultIterator<T, KeyOrderer<F>>, SortError>) {
        let cleaner = SingleThreadedBufferCleaner::new(options, KeyOrderer::new(key_extractor));
        ExtSorter::new().run(self, cleaner)
    }
}

/// The specific iterator type returned by
/// the parallel sorting implementations.
pub struct ParallelResultIterator<T, O> {
    inner: ResultIterator<T, O>,
}

impl<T, O: Orderer<T>> ParallelResultIterator<T, O> {
    pub closed spec fn spec_inner(&self) -> ResultIterator<T, O> {
        self.inner
    }

    /// Hands out the next item of the sorted sequence, with the same
    /// guarantees the sequential result iterator gives: the sequence
    /// handed out stays sorted, nothing is lost or duplicated, and the
    /// remaining count drops by exactly one.
    pub fn next(&mut self) -> (r: Option<T>)
        requires
            old(self).spec_inner().wf(),
        ensures
            final(self).spec_inner().wf(),
            final(self).spec_inner().spec_orderer() == old(self).spec_inner().spec_orderer(),
            final(self).spec_inner().initial_ms() == old(self).spec_inner().initial_ms(),
            match r {
                Some(v) => {
                    &&& final(self).spec_inner().spec_remaining()
                        == old(self).spec_inner().spec_remaining() - 1
                    &&& final(self).spec_inner().yielded_seq()
                        == old(self).spec_inner().yielded_seq().push(v)
                    &&& crate::merge::run_sorted(
                        final(self).spec_inner().yielded_seq(),
                        final(self).spec_inner().spec_orderer(),
                    )
                },
                None => {
                    &&& old(self).spec_inner().spec_remaining() == 0
                    &&& final(self).spec_inner().yielded_seq().to_multiset()
                        == final(self).spec_inner().initial_ms()
                },
            },
    {
        self.inner.next()
    }

    pub fn size_hint(&self) -> (r: (usize, Option<usize>))
        requires
            self.spec_inner().wf(),
        ensures
            r.0 == self.spec_inner().spec_remaining(),
            r.1 == Some(r.0),
    {
        self.inner.size_hint()
    }
}

/// Parallel sorting under the native order of the element type: the
/// in-buffer sort is replaced by a work-stealing parallel sort.
pub trait ParallelExtSortOrdExtension<T: TotalOrder + Send>: Sized {
    spec fn as_seq(&self) -> Seq<T>;

    /// Sorts the provided sequence according to the provided config
    /// using the native ordering on the type to sort and a parallel
    /// in-buffer sort.
    /// # Errors
    /// This function may error if a sort run fails to be written.
    fn par_external_sort(self, options: ExtsortConfig) -> (r: Result<
        ParallelResultIterator<T, OrdOrderer>,
        SortError,
    >)
        requires
            self.as_seq().len() <= u32::MAX,
            self.as_seq().len() <= usize::MAX / 2 - 1,
        ensures
            r is Ok,
            sorts(r.unwrap().spec_inner(), self.as_seq(), OrdOrderer {  }),
    ;
}

impl<T: TotalOrder + Send> ParallelExtSortOrdExtension<T> for Vec<T> {
    open spec fn as_seq(&self) -> Seq<T> {
        self@
    }

    fn par_external_sort(self, options: ExtsortConfig) -> (r: Result<
        ParallelResultIterator<T, OrdOrderer>,
        SortError,
    >) {
        let cleaner = MultithreadedBufferCleaner::new(options, OrdOrderer {  }).handle();
        match ExtSorter::new().run(self, cleaner) {
            Ok(inner) => Ok(ParallelResultIterator { inner }),
            Err(e) => Err(e),
        }
    }
}

/// Parallel sorting under a caller-supplied comparison or key.
pub trait ParallelExtSortExtension<T: Send>: Sized {
    spec fn as_seq(&self) -> Seq<T>;

    /// Sorts the provided sequence according to the provided config
    /// using a custom comparator and a parallel in-buffer sort.
    /// # Errors
    /// This function may error if a sort run fails to be written.
    fn par_external_sort_by<F: Orderer<T> + Sync>(self, options: ExtsortConfig, comparator: F) -> (r:
        Result<ParallelResultIterator<T, FuncOrderer<F>>, SortError>)
        requires
            self.as_seq().len() <= u32::MAX,
            self.as_seq().len() <= usize::MAX / 2 - 1,
        ensures
            r is Ok,
            sorts(r.unwrap().spec_inner(), self.as_seq(), FuncOrderer { comparator }),
    ;

    /// Sorts the provided sequence according to the provided config
    /// using a key extraction capability and a parallel in-buffer sort.
    /// # Errors
    /// This function may error if a sort run fails to be written.
    fn par_external_sort_by_key<F: KeyExtract<T> + Sync>(
        self,
        options: ExtsortConfig,
        key_extractor: F,
    ) -> (r: Result<ParallelResultIterator<T, KeyOrderer<F>>, SortError>)
        requires
            self.as_seq().len() <= u32::MAX,
            self.as_seq().len() <= usize::MAX / 2 - 1,
        ensures
            r is Ok,
            sorts(r.unwrap().spec_inner(), self.as_seq(), KeyOrderer { key_extractor }),
    ;
}

impl<T: Send> ParallelExtSortExtension<T> for Vec<T> {
    open spec fn as_seq(&self) -> Seq<T> {
        self@
    }

    fn par_external_sort_by<F: Orderer<T> + Sync>(self, options: ExtsortConfig, comparator: F) -> (r:
        Result<ParallelResultIterator<T, FuncOrderer<F>>, SortError>) {
        let cleaner = MultithreadedBufferCleaner::new(options, FuncOrderer::new(comparator)).handle();
        match ExtSorter::new().run(self, cleaner) {
            Ok(inner) => Ok(ParallelResultIterator { inner }),
            Err(e) => Err(e),
        }
    }

    fn par_external_sort_by_key<F: KeyExtract<T> + Sync>(
        self,
        options: ExtsortConfig,
        key_extractor: F,
    ) -> (r: Result<ParallelResultIterator<T, KeyOrderer<F>>, SortError>) {
        let cleaner = MultithreadedBufferCleaner::new(options, KeyOrderer::new(key_extractor)).handle();
        match ExtSorter::new().run(self, cleaner) {
            Ok(inner) => Ok(ParallelResultIterator { inner }),
            Err(e) => Err(e),
        }
    }
}

} // verus!

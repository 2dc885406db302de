use vstd::prelude::*;

use crate::run::Run;

verus! {

/// The spill store backing a run.
/// It holds the elements of the run that have not yet been moved
/// into the read-ahead buffer, back to front: the next element of
/// the run is the last element of `data`.
pub struct RunSource<T> {
    pub data: Vec<T>,
}

impl<T> RunSource<T> {
    /// The elements still stored, in the order the run yields them.
    pub open spec fn pending(&self) -> Seq<T> {
        self.data@.reverse()
    }

    /// Wraps a buffer whose elements are already stored back to front.
    pub fn from_reversed(data: Vec<T>) -> (r: Self)
        ensures
            r.pending() == data@.reverse(),
    {
        Self { data }
    }

    /// An empty store.
    pub fn empty() -> (r: Self)
        ensures
            r.pending() == Seq::<T>::empty(),
    {
        Self { data: Vec::new() }
    }
}

/// A run backed by a spill store plus a bounded read-ahead buffer.
/// The buffer holds its items back to front as well, so the next
/// item of the run is the last element of `buffer`.
pub struct ExternalRun<T> {
    /// the store that is backing our run.
    source: RunSource<T>,
    /// the read-ahead buffer holding the items fetched from the store.
    buffer: Vec<T>,
    /// the capacity of the read-ahead buffer, counted in items.
    buffer_size: usize,
    /// the remaining entries for this run, in the buffer and in the store.
    remaining_entries: usize,
}

impl<T> ExternalRun<T> {
    /// The internal invariant of a buffered run:
    /// the counter matches the contents, the buffer respects its capacity,
    /// and the buffer is never empty while entries remain (so peek
    /// never needs to touch the store).
    pub closed spec fn wf(&self) -> bool {
        &&& self.remaining_entries == self.buffer@.len() + self.source.pending().len()
        &&& self.buffer@.len() <= self.buffer_size
        &&& 1 <= self.buffer_size
        &&& (self.remaining_entries > 0 ==> self.buffer@.len() > 0)
    }

    /// Moves up to `buffer_size` items from the store into the buffer.
    /// May only be called when the buffer has been fully consumed.
    fn refill_buffer(&mut self)
        requires
            old(self).buffer@.len() == 0,
            old(self).remaining_entries == old(self).source.pending().len(),
            1 <= old(self).buffer_size,
        ensures
            final(self).wf(),
            final(self).items() == old(self).items(),
            final(self).buffer_size == old(self).buffer_size,
            final(self).remaining_entries == old(self).remaining_entries,
    {
        let available = self.source.data.len();
        let chunk = if available < self.buffer_size {
            available
        } else {
            self.buffer_size
        };
        let ghost pre = self.source.data@;
        let tail = self.source.data.split_off(available - chunk);
        proof {
            let keep = pre.subrange(0, pre.len() - chunk);
            let moved = pre.subrange(pre.len() - chunk, pre.len() as int);
            assert(tail@ =~= moved);
            assert(self.source.data@ =~= keep);
            assert(moved.reverse() + keep.reverse() =~= pre.reverse());
        }
        self.buffer = tail;
    }

    /// The number of entries this run still holds.
    pub closed spec fn spec_remaining(&self) -> nat {
        self.remaining_entries as nat
    }

    /// Opens a tape as a buffered run with the given read-ahead
    /// capacity, priming the buffer with one refill.
    pub fn from_tape(tape: crate::tape::Tape<T>, buffer_size: usize) -> (r: Self)
        requires
            tape.wf(),
            buffer_size >= 1,
        ensures
            r.wf(),
            r.items() == tape.contents(),
    {
        let num_entries = tape.num_entries();
        let source = tape.into_backing();
        let mut res = Self { buffer: Vec::new(), buffer_size, remaining_entries: num_entries, source };
        proof {
            assert(res.items() =~= res.source.pending());
        }
        res.refill_buffer();
        res
    }
}

/// Creates a new run that uses the provided buffer as its contents,
/// without any backing store behind it.
pub fn create_buffer_run<T>(source: Vec<T>) -> (r: ExternalRun<T>)
    ensures
        r.wf(),
        r.items() == source@,
{
    let ghost orig = source@;
    let len = source.len();
    let buffer = crate::run::reverse_vec(source);
    let buffer_size = if len < 1 {
        1
    } else {
        len
    };
    proof {
        assert(buffer@.reverse() =~= orig);
    }
    ExternalRun {
        source: RunSource::empty(),
        buffer,
        buffer_size,
        remaining_entries: len,
    }
}

impl<T> Run<T> for ExternalRun<T> {
    closed spec fn items(&self) -> Seq<T> {
        self.buffer@.reverse() + self.source.pending()
    }

    open spec fn inv(&self) -> bool {
        self.wf()
    }

    /// Peek at the next entry in the run.
    fn peek(&self) -> (r: Option<&T>) {
        if self.remaining_entries == 0 {
            None
        } else {
            assert(self.buffer@.reverse()[0] == self.buffer@.last());
            Some(&self.buffer[self.buffer.len() - 1])
        }
    }

    /// Get the next item from the run and advance its position.
    fn next(&mut self) -> (r: Option<T>) {
        if self.remaining_entries == 0 {
            proof {
                assert(self.items().len() == 0);
            }
            return None;
        }
        let ghost pre = *self;
        let result = self.buffer.pop().unwrap();
        self.remaining_entries = self.remaining_entries - 1;
        proof {
            assert(pre.buffer@.drop_last().reverse() =~= pre.buffer@.reverse().drop_first());
            assert((pre.buffer@.drop_last().reverse() + pre.source.pending())
                =~= (pre.buffer@.reverse() + pre.source.pending()).drop_first());
            assert(result == pre.items()[0]);
        }
        if self.buffer.len() == 0 && self.remaining_entries > 0 {
            self.refill_buffer();
        }
        Some(result)
    }

    fn remaining_items(&self) -> (r: usize) {
        self.remaining_entries
    }
}

} // verus!

use vstd::prelude::*;

use crate::merge::{run_sorted, tapes_inv, tapes_ms, tapes_sorted, tapes_total, LoserTree};
use crate::orderer::Orderer;
use crate::run::file_run::ExternalRun;
use vstd::multiset::Multiset;

verus! {

/// A thin wrapper over the loser-tree merger exposing the sorted
/// result as a lazy sequence with an accurate remaining length.
/// The sequence handed out so far is tracked as the ghost `yielded`;
/// it is always non-decreasing under the orderer, and together with
/// what the merger still holds it is exactly the initial contents.
pub struct ResultIterator<T, O> {
    merger: LoserTree<T, ExternalRun<T>, O>,
    yielded: Ghost<Seq<T>>,
    initial: Ghost<Multiset<T>>,
}

impl<T, O: Orderer<T>> ResultIterator<T, O> {
    /// The orderer the result is sorted under.
    pub closed spec fn spec_orderer(&self) -> O {
        self.merger.spec_orderer()
    }

    /// The number of items not yet handed out.
    pub closed spec fn spec_remaining(&self) -> int {
        self.merger.spec_remaining()
    }

    /// The items handed out so far, in order.
    pub closed spec fn yielded_seq(&self) -> Seq<T> {
        self.yielded@
    }

    /// The multiset of items the sort started from.
    pub closed spec fn initial_ms(&self) -> Multiset<T> {
        self.initial@
    }

    /// The items not yet handed out.
    pub closed spec fn items_ms(&self) -> Multiset<T> {
        self.merger.items_ms()
    }

    /// The number of runs feeding the merge.
    pub closed spec fn num_runs(&self) -> int {
        self.merger.num_tapes()
    }

    /// The sequence handed out is sorted, every remaining item is at
    /// least as large as the last one handed out, and nothing is ever
    /// lost or duplicated.
    pub closed spec fn wf(&self) -> bool {
        &&& self.merger.wf()
        &&& run_sorted(self.yielded@, self.merger.spec_orderer())
        &&& (self.yielded@.len() > 0 ==> self.merger.is_lower_bound(self.yielded@.last()))
        &&& self.yielded@.to_multiset().add(self.merger.items_ms()) == self.initial@
    }

    /// Builds the merging iterator over the given runs.
    pub fn new(source: Vec<ExternalRun<T>>, orderer: O) -> (r: Self)
        requires
            source@.len() <= u32::MAX,
            source@.len() <= usize::MAX / 2 - 1,
            tapes_inv(source@),
            tapes_sorted(source@, orderer),
            tapes_total(source@) <= usize::MAX,
        ensures
            r.wf(),
            r.spec_orderer() == orderer,
            r.spec_remaining() == tapes_total(source@),
            r.initial_ms() == tapes_ms(source@),
            r.yielded_seq() == Seq::<T>::empty(),
            r.num_runs() <= source@.len(),
    {
        let ghost initial = tapes_ms(source@);
        let merger = LoserTree::new(source, orderer);
        proof {
            broadcast use vstd::seq_lib::group_to_multiset_ensures;

            assert(Seq::<T>::empty().to_multiset().len() == 0);
            assert(Seq::<T>::empty().to_multiset() =~= Multiset::<T>::empty());
            assert(Multiset::<T>::empty().add(merger.items_ms()) =~= merger.items_ms());
        }
        Self { merger, yielded: Ghost(Seq::empty()), initial: Ghost(initial) }
    }

    /// Hands out the next item of the sorted sequence, or None once
    /// everything has been handed out.
    pub fn next(&mut self) -> (r: Option<T>)
        requires
            old(self).wf(),
        ensures
            final(self).wf(),
            final(self).spec_orderer() == old(self).spec_orderer(),
            final(self).initial_ms() == old(self).initial_ms(),
            match r {
                Some(v) => {
                    &&& old(self).spec_remaining() > 0
                    &&& final(self).spec_remaining() == old(self).spec_remaining() - 1
                    &&& final(self).yielded_seq() == old(self).yielded_seq().push(v)
                    &&& run_sorted(final(self).yielded_seq(), final(self).spec_orderer())
                    &&& final(self).items_ms() == old(self).items_ms().remove(v)
                    &&& old(self).items_ms().count(v) > 0
                },
                None => {
                    &&& old(self).spec_remaining() == 0
                    &&& final(self).spec_remaining() == 0
                    &&& final(self).yielded_seq() == old(self).yielded_seq()
                    &&& final(self).yielded_seq().to_multiset() == final(self).initial_ms()
                },
            },
    {
        let ghost pre = *self;
        let r = self.merger.next();
        proof {
            broadcast use vstd::seq_lib::group_to_multiset_ensures;

            match &r {
                Some(v) => {
                    let v = *v;
                    let y = pre.yielded@;
                    if y.len() > 0 {
                        pre.merger.lemma_lower_bound_member(y.last(), v);
                    }
                    assert forall|j: int, k: int|
                        0 <= j < k < y.push(v).len() implies pre.merger.spec_orderer().le(
                        y.push(v)[j],
                        y.push(v)[k],
                    ) by {
                        if k < y.len() {
                        } else {
                            assert(y.push(v)[k] == v);
                            if j < y.len() - 1 {
                                assert(pre.merger.spec_orderer().le(y[j], y.last()));
                                pre.merger.spec_orderer().le_transitive(y[j], y.last(), v);
                            }
                        }
                    }
                    self.yielded = Ghost(y.push(v));
                    assert(y.push(v).to_multiset() =~= y.to_multiset().insert(v));
                    assert(y.push(v).to_multiset().add(self.merger.items_ms())
                        =~= pre.initial@) by {
                        assert(pre.merger.items_ms().count(v) > 0);
                        assert(y.to_multiset().add(pre.merger.items_ms()) == pre.initial@);
                    }
                    assert(y.push(v).last() == v);
                },
                None => {
                    if pre.yielded@.len() > 0 {
                        self.merger.lemma_lower_bound_ms(&pre.merger, pre.yielded@.last());
                    }
                    pre.merger.lemma_remaining_ms();
                    assert(pre.merger.items_ms().len() == 0);
                    assert(pre.merger.items_ms() =~= Multiset::<T>::empty());
                    assert(pre.yielded@.to_multiset().add(Multiset::<T>::empty())
                        =~= pre.yielded@.to_multiset());
                },
            }
        }
        r
    }

    /// Law: once the iterator is drained, the sequence it handed out
    /// is non-decreasing under the orderer and holds exactly the items
    /// the sort started from, nothing lost and nothing duplicated.
    pub proof fn lemma_drained(&self)
        requires
            self.wf(),
            self.spec_remaining() == 0,
        ensures
            run_sorted(self.yielded_seq(), self.spec_orderer()),
            self.yielded_seq().to_multiset() == self.initial_ms(),
    {
        self.merger.lemma_remaining_ms();
        assert(self.merger.items_ms().len() == 0);
        assert(self.merger.items_ms() =~= Multiset::<T>::empty());
        assert(self.yielded@.to_multiset().add(Multiset::<T>::empty())
            =~= self.yielded@.to_multiset());
    }

    /// returns the number of items the iterator will still yield.
    pub fn len(&self) -> (r: usize)
        requires
            self.wf(),
        ensures
            r == self.spec_remaining(),
    {
        self.merger.remaining_items()
    }

    /// returns the exact bounds on the remaining length.
    pub fn size_hint(&self) -> (r: (usize, Option<usize>))
        requires
            self.wf(),
        ensures
            r.0 == self.spec_remaining(),
            r.1 == Some(r.0),
    {
        let remaining = self.merger.remaining_items();
        (remaining, Some(remaining))
    }
}

} // verus!

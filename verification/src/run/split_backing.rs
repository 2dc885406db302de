use vstd::prelude::*;

use crate::run::file_run::RunSource;

verus! {

/// A single backing store partitioned into append-only, independently
/// readable segments. Each segment holds its items back to front, the
/// same layout a run source uses, so freezing the store splits it into
/// per-segment sources without touching any element.
pub struct SplitView<T> {
    /// all segments, back to back, in the order they were opened.
    data: Vec<T>,
    /// the start offset of each segment, in increasing order.
    starts: Vec<usize>,
}

/// An append-only handle pinned to the newest segment of a SplitView,
/// carrying its start offset and running length.
pub struct SplitViewWrite {
    pub segment_start: usize,
    pub length: usize,
}

impl<T> SplitView<T> {
    /// The store is well formed: segment starts grow monotonically and
    /// stay within the data, and the first segment starts at the front.
    pub closed spec fn wf(&self) -> bool {
        &&& self.starts@.len() >= 1
        &&& self.starts@[0] == 0
        &&& forall|i: int, j: int|
            0 <= i < j < self.starts@.len() ==> #[trigger] self.starts@[i]
                <= #[trigger] self.starts@[j]
        &&& forall|i: int| 0 <= i < self.starts@.len() ==> #[trigger] self.starts@[i]
            <= self.data@.len()
    }

    /// The number of segments the store holds.
    pub closed spec fn num_segments(&self) -> int {
        self.starts@.len() as int
    }

    /// The end offset of segment `i`.
    pub closed spec fn segment_end(&self, i: int) -> int {
        if i == self.starts@.len() - 1 {
            self.data@.len() as int
        } else {
            self.starts@[i + 1] as int
        }
    }

    /// The total number of stored elements.
    pub closed spec fn total_len(&self) -> int {
        self.data@.len() as int
    }

    /// The start offset of the newest segment.
    pub closed spec fn last_start(&self) -> int {
        self.starts@.last() as int
    }

    /// The items of segment `i`, in the order a run yields them.
    pub closed spec fn segment(&self, i: int) -> Seq<T> {
        self.data@.subrange(self.starts@[i] as int, self.segment_end(i)).reverse()
    }

    /// Wraps an existing store: its whole content becomes the first
    /// segment, already laid out back to front.
    pub fn new(backing: Vec<T>) -> (r: Self)
        ensures
            r.wf(),
            r.num_segments() == 1,
            r.segment(0) == backing@.reverse(),
    {
        let mut starts: Vec<usize> = Vec::new();
        starts.push(0);
        let r = Self { data: backing, starts };
        proof {
            assert(r.data@.subrange(0, r.data@.len() as int) =~= r.data@);
        }
        r
    }

    /// Opens a new empty segment at the end of the store and returns
    /// the append-only handle for it.
    pub fn add_segment(&mut self) -> (w: SplitViewWrite)
        requires
            old(self).wf(),
            old(self).num_segments() < usize::MAX,
        ensures
            final(self).wf(),
            final(self).num_segments() == old(self).num_segments() + 1,
            forall|i: int|
                0 <= i < old(self).num_segments() ==> final(self).segment(i) == old(self).segment(
                    i,
                ),
            final(self).segment(old(self).num_segments()) == Seq::<T>::empty(),
            w.segment_start == old(self).total_len(),
            w.length == 0,
            final(self).last_start() == old(self).total_len(),
            final(self).total_len() == old(self).total_len(),
    {
        let segment_start = self.data.len();
        let ghost pre = *self;
        self.starts.push(segment_start);
        proof {
            assert forall|i: int| 0 <= i < pre.num_segments() implies self.segment(i)
                == pre.segment(i) by {
            }
            assert(self.segment(pre.num_segments()) =~= Seq::<T>::empty().reverse());
        }
        SplitViewWrite { segment_start, length: 0 }
    }

    /// Moves the contents of `source` into the open segment behind `w`,
    /// draining the source. The segment must be the newest one.
    /// When the call completes, `source` is empty.
    pub fn fill_segment(&mut self, w: &mut SplitViewWrite, source: &mut Vec<T>)
        requires
            old(self).wf(),
            old(w).segment_start == old(self).last_start(),
            old(w).segment_start + old(w).length == old(self).total_len(),
            old(self).total_len() + old(source)@.len() <= usize::MAX,
        ensures
            final(self).wf(),
            final(self).num_segments() == old(self).num_segments(),
            forall|i: int|
                0 <= i < old(self).num_segments() - 1 ==> final(self).segment(i) == old(
                    self,
                ).segment(i),
            final(self).segment(old(self).num_segments() - 1) == old(source)@ + old(self).segment(
                old(self).num_segments() - 1,
            ),
            final(source)@.len() == 0,
            final(w).segment_start == old(w).segment_start,
            final(w).segment_start + final(w).length == final(self).total_len(),
            final(self).total_len() == old(self).total_len() + old(source)@.len(),
            final(self).last_start() == old(self).last_start(),
    {
        let ghost pre = *self;
        let ghost presrc = source@;
        let ghost last = pre.num_segments() - 1;
        let mut moved: usize = 0;
        while source.len() > 0
            invariant
                self.starts == pre.starts,
                pre.wf(),
                self.data@ == pre.data@ + presrc.skip(source@.len() as int).reverse(),
                presrc.skip(0) == presrc,
                presrc.len() <= usize::MAX,
                moved == presrc.len() - source@.len(),
                source@ == presrc.take(source@.len() as int),
            decreases source@.len(),
        {
            let ghost remaining = source@.len() as int;
            proof {
                assert(presrc.skip(remaining - 1) =~= seq![presrc[remaining - 1]] + presrc.skip(
                    remaining,
                ));
                assert(presrc.skip(remaining - 1).reverse() =~= presrc.skip(remaining).reverse()
                    + seq![presrc[remaining - 1]]);
                assert((pre.data@ + presrc.skip(remaining).reverse()).push(presrc[remaining - 1])
                    =~= pre.data@ + presrc.skip(remaining - 1).reverse());
                assert(presrc.take(remaining).last() == presrc[remaining - 1]);
                assert(presrc.take(remaining).drop_last() =~= presrc.take(remaining - 1));
            }
            let v = source.pop().unwrap();
            self.data.push(v);
            moved = moved + 1;
        }
        w.length = w.length + moved;
        proof {
            assert(presrc.skip(0).reverse() =~= presrc.reverse());
            assert(self.data@ == pre.data@ + presrc.reverse());
            assert forall|i: int| 0 <= i < last implies self.segment(i) == pre.segment(i) by {
                assert(self.data@.subrange(
                    self.starts@[i] as int,
                    self.segment_end(i),
                ) =~= pre.data@.subrange(pre.starts@[i] as int, pre.segment_end(i)));
            }
            assert(self.data@.subrange(self.starts@[last] as int, self.data@.len() as int)
                =~= pre.data@.subrange(pre.starts@[last] as int, pre.data@.len() as int)
                + presrc.reverse());
            crate::run::split_backing::lemma_reverse_concat(
                pre.data@.subrange(pre.starts@[last] as int, pre.data@.len() as int),
                presrc.reverse(),
            );
            assert(presrc.reverse().reverse() =~= presrc);
        }
    }

    /// The data boundary after the first `k` segments.
    pub closed spec fn bound(&self, k: int) -> int {
        if k == self.num_segments() {
            self.data@.len() as int
        } else {
            self.starts@[k] as int
        }
    }

    /// Freezes the store and hands each segment out as an independent
    /// run source, in segment order.
    pub fn into_sources(self) -> (r: Vec<RunSource<T>>)
        requires
            self.wf(),
        ensures
            r@.len() == self.num_segments(),
            forall|i: int| 0 <= i < r@.len() ==> (#[trigger] r@[i]).pending() == self.segment(i),
    {
        let ghost pre = self;
        let mut data = self.data;
        let mut starts = self.starts;
        let mut rev_sources: Vec<RunSource<T>> = Vec::new();
        while starts.len() > 0
            invariant
                pre.wf(),
                starts@.len() <= pre.num_segments(),
                starts@ == pre.starts@.take(starts@.len() as int),
                data@ == pre.data@.take(pre.bound(starts@.len() as int)),
                rev_sources@.len() + starts@.len() == pre.num_segments(),
                forall|j: int|
                    0 <= j < rev_sources@.len() ==> (#[trigger] rev_sources@[j]).pending()
                        == pre.segment(pre.num_segments() - 1 - j),
            decreases starts@.len(),
        {
            let ghost k = starts@.len() as int;
            proof {
                assert(starts@[k - 1] == pre.starts@[k - 1]);
                assert(pre.starts@[k - 1] <= pre.bound(k)) by {
                    if k < pre.num_segments() {
                        assert(pre.starts@[k - 1] <= pre.starts@[k]);
                    }
                }
                assert(pre.bound(k) <= pre.data@.len());
            }
            let start = starts[starts.len() - 1];
            let tail = data.split_off(start);
            starts.pop();
            proof {
                assert(pre.starts@.take(k).drop_last() =~= pre.starts@.take(k - 1));
                assert(tail@ =~= pre.data@.subrange(pre.starts@[k - 1] as int, pre.bound(k)));
                assert(pre.bound(k) == pre.segment_end(k - 1));
                assert(data@ =~= pre.data@.take(pre.bound(k - 1)));
                assert(tail@.reverse() == pre.segment(k - 1));
            }
            rev_sources.push(RunSource::from_reversed(tail));
        }
        let ghost revs = rev_sources@;
        let sources = crate::run::reverse_vec(rev_sources);
        proof {
            assert forall|i: int| 0 <= i < sources@.len() implies (#[trigger] sources@[i]).pending()
                == pre.segment(i) by {
                assert(sources@[i] == revs[revs.len() - 1 - i]);
            }
        }
        sources
    }
}

/// Reversal distributes contravariantly over concatenation.
pub proof fn lemma_reverse_concat<T>(a: Seq<T>, b: Seq<T>)
    ensures
        (a + b).reverse() == b.reverse() + a.reverse(),
{
    assert((a + b).reverse() =~= b.reverse() + a.reverse());
}

} // verus!

verus! {

/// The length of one segment is the width of its offsets.
pub proof fn lemma_segment_len<T>(v: SplitView<T>, k: int)
    requires
        v.wf(),
        0 <= k < v.num_segments(),
    ensures
        v.segment(k).len() == v.bound(k + 1) - v.bound(k),
        v.bound(k) <= v.bound(k + 1),
        v.bound(k + 1) <= v.total_len(),
{
    if k + 1 < v.num_segments() {
        assert(v.starts@[k] <= v.starts@[k + 1]);
    }
}

/// Basic shape facts that hold of every store.
pub proof fn lemma_view_shape<T>(v: SplitView<T>)
    ensures
        v.num_segments() >= 0,
        v.total_len() >= 0,
{
}

/// The first boundary sits at the front of the store.
pub proof fn lemma_bound_zero<T>(v: SplitView<T>)
    requires
        v.wf(),
    ensures
        v.bound(0) == 0,
        v.total_len() == v.bound(v.num_segments()),
        v.total_len() >= 0,
{
}

} // verus!

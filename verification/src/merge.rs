pub mod array_node;
pub mod treebuilder;
pub mod tree_layout;
pub mod tree_model;

use vstd::prelude::*;

use crate::merge::array_node::Winner;
use crate::merge::tree_model::{head_le, lemma_tree_min, opt_le, path_ok, tree_ok};
use crate::merge::treebuilder::{compare_winners, LoserTreeBuilder};
use crate::orderer::Orderer;
use core::marker::PhantomData;
use crate::run::Run;
use vstd::multiset::Multiset;

verus! {

/// Returns the largest power of two that is less than or equal to `number`.
pub open spec fn spec_previous_power_of_two(number: nat) -> nat
    decreases number,
{
    if number < 2 {
        1
    } else {
        2 * spec_previous_power_of_two(number / 2)
    }
}

/// Returns the largest power of 2 less or equal to the provided number.
pub fn previous_power_of_two(number: usize) -> (r: usize)
    requires
        number >= 1,
    ensures
        r == spec_previous_power_of_two(number as nat),
{
    let mut p: usize = 1;
    let mut rest: usize = number;
    while rest >= 2
        invariant
            1 <= p,
            1 <= rest,
            p * rest <= number,
            number < p * (rest + 1),
            p * spec_previous_power_of_two(rest as nat) == spec_previous_power_of_two(
                number as nat,
            ),
        decreases rest,
    {
        proof {
            let q = rest as int / 2;
            let s = spec_previous_power_of_two((rest / 2) as nat) as int;
            assert(2 * p * q <= number && number < 2 * p * (q + 1) && 2 * p <= number && p * (2
                * s) == (2 * p) * s) by (nonlinear_arith)
                requires
                    p >= 1,
                    rest >= 2,
                    1 <= q,
                    2 * q <= rest,
                    rest <= 2 * q + 1,
                    p * rest <= number,
                    number < p * (rest + 1),
            ;
        }
        p = p * 2;
        rest = rest / 2;
    }
    assert(rest == 1);
    assert(spec_previous_power_of_two(1) == 1);
    p
}

/// The multiset of all items remaining on a sequence of runs.
pub open spec fn tapes_ms<T, R: Run<T>>(tapes: Seq<R>) -> Multiset<T>
    decreases tapes.len(),
{
    if tapes.len() == 0 {
        Multiset::empty()
    } else {
        tapes[0].items().to_multiset().add(tapes_ms(tapes.drop_first()))
    }
}

/// The total number of items remaining on a sequence of runs.
pub open spec fn tapes_total<T, R: Run<T>>(tapes: Seq<R>) -> int
    decreases tapes.len(),
{
    if tapes.len() == 0 {
        0
    } else {
        tapes[0].items().len() + tapes_total(tapes.drop_first())
    }
}

/// The number of runs that still hold items.
pub open spec fn num_live<T, R: Run<T>>(tapes: Seq<R>) -> int
    decreases tapes.len(),
{
    if tapes.len() == 0 {
        0
    } else {
        (if tapes[0].items().len() > 0 {
            1int
        } else {
            0int
        }) + num_live(tapes.drop_first())
    }
}

/// A run's items are non-decreasing under the orderer.
pub open spec fn run_sorted<T, O: Orderer<T>>(s: Seq<T>, o: O) -> bool {
    forall|j: int, k: int| 0 <= j < k < s.len() ==> o.le(s[j], s[k])
}

/// All runs are sorted under the orderer.
pub open spec fn tapes_sorted<T, R: Run<T>, O: Orderer<T>>(tapes: Seq<R>, o: O) -> bool {
    forall|i: int| 0 <= i < tapes.len() ==> run_sorted(#[trigger] tapes[i].items(), o)
}

/// All runs satisfy their internal invariant.
pub open spec fn tapes_inv<T, R: Run<T>>(tapes: Seq<R>) -> bool {
    forall|i: int| 0 <= i < tapes.len() ==> (#[trigger] tapes[i]).inv()
}

pub proof fn lemma_tapes_push<T, R: Run<T>>(tapes: Seq<R>, t: R)
    ensures
        tapes_ms(tapes.push(t)) == tapes_ms(tapes).add(t.items().to_multiset()),
        tapes_total(tapes.push(t)) == tapes_total(tapes) + t.items().len(),
        num_live(tapes.push(t)) == num_live(tapes) + (if t.items().len() > 0 {
            1int
        } else {
            0int
        }),
    decreases tapes.len(),
{
    if tapes.len() == 0 {
        assert(tapes.push(t)[0] == t);
        assert(tapes.push(t).len() == 1);
        assert(tapes.push(t).drop_first() =~= Seq::<R>::empty());
        assert(tapes_total(Seq::<R>::empty()) == 0);
        assert(tapes_total(tapes.push(t).drop_first()) == 0);
        assert(tapes_total(tapes.push(t)) == tapes.push(t)[0].items().len() + tapes_total(
            tapes.push(t).drop_first(),
        ));
        assert(tapes_total(tapes.push(t)) == t.items().len());
        assert(tapes_total(tapes) == 0);
        assert(tapes_ms(tapes.push(t).drop_first()) == Multiset::<T>::empty());
        assert(tapes_ms(tapes.push(t)) == t.items().to_multiset().add(Multiset::empty()));
        assert(t.items().to_multiset().add(Multiset::empty()) =~= t.items().to_multiset());
        assert(tapes_ms(tapes) == Multiset::<T>::empty());
        assert(Multiset::<T>::empty().add(t.items().to_multiset()) =~= t.items().to_multiset());
        assert(num_live(tapes.push(t).drop_first()) == 0);
        assert(num_live(tapes.push(t)) == (if t.items().len() > 0 {
            1int
        } else {
            0int
        }));
        assert(num_live(tapes) == 0);
    } else {
        assert(tapes.push(t)[0] == tapes[0]);
        assert(tapes.push(t).drop_first() =~= tapes.drop_first().push(t));
        lemma_tapes_push(tapes.drop_first(), t);
        let t0 = tapes[0].items().to_multiset();
        let d = tapes_ms(tapes.drop_first());
        let tm = t.items().to_multiset();
        assert(tapes_ms(tapes.push(t)) == t0.add(tapes_ms(tapes.push(t).drop_first())));
        assert(tapes_ms(tapes.push(t).drop_first()) == d.add(tm));
        assert(tapes_ms(tapes) == t0.add(d));
        assert(t0.add(d.add(tm)) =~= t0.add(d).add(tm));
        assert(tapes_total(tapes.push(t)) == tapes[0].items().len() + tapes_total(
            tapes.push(t).drop_first(),
        ));
        assert(num_live(tapes.push(t)) == (if tapes[0].items().len() > 0 {
            1int
        } else {
            0int
        }) + num_live(tapes.push(t).drop_first()));
    }
}

pub proof fn lemma_tapes_update<T, R: Run<T>>(tapes: Seq<R>, i: int, r: R)
    requires
        0 <= i < tapes.len(),
    ensures
        tapes_ms(tapes.update(i, r)).add(tapes[i].items().to_multiset()) == tapes_ms(tapes).add(
            r.items().to_multiset(),
        ),
        tapes_total(tapes.update(i, r)) == tapes_total(tapes) - tapes[i].items().len()
            + r.items().len(),
        num_live(tapes.update(i, r)) == num_live(tapes) - (if tapes[i].items().len() > 0 {
            1int
        } else {
            0int
        }) + (if r.items().len() > 0 {
            1int
        } else {
            0int
        }),
    decreases tapes.len(),
{
    if i == 0 {
        assert(tapes.update(0, r).drop_first() =~= tapes.drop_first());
        assert(tapes.update(0, r)[0] == r);
        assert(r.items().to_multiset().add(tapes_ms(tapes.drop_first())).add(
            tapes[0].items().to_multiset(),
        ) =~= tapes[0].items().to_multiset().add(tapes_ms(tapes.drop_first())).add(
            r.items().to_multiset(),
        ));
    } else {
        assert(tapes.update(i, r).drop_first() =~= tapes.drop_first().update(i - 1, r));
        lemma_tapes_update(tapes.drop_first(), i - 1, r);
        assert(tapes.drop_first()[i - 1] == tapes[i]);
        let a = tapes[0].items().to_multiset();
        let b = tapes_ms(tapes.drop_first().update(i - 1, r));
        let c = tapes[i].items().to_multiset();
        let d = tapes_ms(tapes.drop_first());
        let e = r.items().to_multiset();
        assert(b.add(c) == d.add(e));
        assert(a.add(b).add(c) =~= a.add(b.add(c)));
        assert(a.add(d.add(e)) =~= a.add(d).add(e));
    }
}

/// Each item of each run is counted in the multiset of all items.
pub proof fn lemma_tapes_ms_member<T, R: Run<T>>(tapes: Seq<R>, i: int, k: int)
    requires
        0 <= i < tapes.len(),
        0 <= k < tapes[i].items().len(),
    ensures
        tapes_ms(tapes).count(tapes[i].items()[k]) > 0,
    decreases tapes.len(),
{
    broadcast use vstd::seq_lib::group_to_multiset_ensures;

    if i == 0 {
        assert(tapes[0].items().contains(tapes[0].items()[k]));
    } else {
        lemma_tapes_ms_member(tapes.drop_first(), i - 1, k);
        assert(tapes.drop_first()[i - 1] == tapes[i]);
    }
}

/// Splitting a run sequence splits its totals.
pub proof fn lemma_tapes_total_split<T, R: Run<T>>(tapes: Seq<R>, i: int)
    requires
        0 <= i <= tapes.len(),
    ensures
        tapes_total(tapes) == tapes_total(tapes.take(i)) + tapes_total(tapes.skip(i)),
        tapes_total(tapes.take(i)) >= 0,
        tapes_total(tapes.skip(i)) >= 0,
        num_live(tapes) >= 0,
    decreases tapes.len(), i,
{
    lemma_tapes_total_nonneg(tapes);
    lemma_tapes_total_nonneg(tapes.take(i));
    lemma_tapes_total_nonneg(tapes.skip(i));
    lemma_num_live_nonneg(tapes);
    if i == 0 {
        assert(tapes.take(0) =~= Seq::<R>::empty());
        assert(tapes.skip(0) =~= tapes);
    } else {
        lemma_tapes_total_split(tapes.drop_first(), i - 1);
        assert(tapes.take(i).drop_first() =~= tapes.drop_first().take(i - 1));
        assert(tapes.skip(i) =~= tapes.drop_first().skip(i - 1));
        assert(tapes.take(i)[0] == tapes[0]);
    }
}

pub proof fn lemma_tapes_total_nonneg<T, R: Run<T>>(tapes: Seq<R>)
    ensures
        tapes_total(tapes) >= 0,
    decreases tapes.len(),
{
    if tapes.len() > 0 {
        lemma_tapes_total_nonneg(tapes.drop_first());
    }
}

pub proof fn lemma_num_live_nonneg<T, R: Run<T>>(tapes: Seq<R>)
    ensures
        num_live(tapes) >= 0,
    decreases tapes.len(),
{
    if tapes.len() > 0 {
        lemma_num_live_nonneg(tapes.drop_first());
    }
}

/// The item count and the multiset size of a run sequence agree.
pub proof fn lemma_tapes_total_is_ms_len<T, R: Run<T>>(tapes: Seq<R>)
    ensures
        tapes_total(tapes) == tapes_ms(tapes).len(),
    decreases tapes.len(),
{
    broadcast use vstd::seq_lib::group_to_multiset_ensures;

    if tapes.len() > 0 {
        lemma_tapes_total_is_ms_len(tapes.drop_first());
    }
}

/// If every run is exhausted, nothing remains.
pub proof fn lemma_tapes_all_empty<T, R: Run<T>>(tapes: Seq<R>)
    requires
        forall|i: int| 0 <= i < tapes.len() ==> (#[trigger] tapes[i].items()).len() == 0,
    ensures
        tapes_total(tapes) == 0,
    decreases tapes.len(),
{
    if tapes.len() > 0 {
        assert(tapes[0].items().len() == 0);
        lemma_tapes_all_empty(tapes.drop_first());
    }
}

/// An element counted by the multiset of all items sits in some run.
pub proof fn lemma_tapes_ms_elem<T, R: Run<T>>(tapes: Seq<R>, x: T) -> (w: (int, int))
    requires
        tapes_ms(tapes).count(x) > 0,
    ensures
        0 <= w.0 < tapes.len(),
        0 <= w.1 < tapes[w.0].items().len(),
        tapes[w.0].items()[w.1] == x,
    decreases tapes.len(),
{
    broadcast use vstd::seq_lib::group_to_multiset_ensures;

    if tapes.len() == 0 {
        (0, 0)
    } else if tapes[0].items().to_multiset().count(x) > 0 {
        assert(tapes[0].items().contains(x));
        let k = choose|k: int| 0 <= k < tapes[0].items().len() && tapes[0].items()[k] == x;
        (0, k)
    } else {
        let (i, k) = lemma_tapes_ms_elem(tapes.drop_first(), x);
        assert(tapes.drop_first()[i] == tapes[i + 1]);
        (i + 1, k)
    }
}

/// invariants:
/// the winner must always point to the tape whose
/// head is the smallest element.
pub struct LoserTree<T, R, O> {
    loser_indices: Vec<u32>,
    tapes: Vec<R>,
    orderer: O,
    phantom: PhantomData<T>,
    winner: Winner,
    remaining_tapes: usize,
}

impl<T, R, O> LoserTree<T, R, O> where R: Run<T>, O: Orderer<T> {
    /// The multiset of items the merger has not yet yielded.
    pub closed spec fn items_ms(&self) -> Multiset<T> {
        tapes_ms(self.tapes@)
    }

    /// The number of items the merger has not yet yielded.
    pub closed spec fn spec_remaining(&self) -> int {
        tapes_total(self.tapes@)
    }

    /// The orderer the merger sorts under.
    pub closed spec fn spec_orderer(&self) -> O {
        self.orderer
    }

    /// The number of runs the merger draws from.
    pub closed spec fn num_tapes(&self) -> int {
        self.tapes@.len() as int
    }

    /// Machine limits, per-tape invariants, per-tape sortedness,
    /// and the bookkeeping of live tapes.
    pub closed spec fn core_wf(&self) -> bool {
        &&& self.tapes@.len() <= u32::MAX
        &&& self.tapes@.len() <= usize::MAX / 2 - 1
        &&& self.loser_indices@.len() <= usize::MAX / 2 - 1
        &&& tapes_inv(self.tapes@)
        &&& tapes_sorted(self.tapes@, self.orderer)
        &&& tapes_total(self.tapes@) <= usize::MAX
    }

    /// Once more than one tape is left, the loser array together with
    /// `w` forms a valid tournament whose winner has the least head.
    pub closed spec fn tree_wf_for(&self, w: Winner) -> bool {
        self.tapes@.len() >= 2 ==> {
            &&& (w.idx as int) < self.tapes@.len()
            &&& self.loser_indices@.len() >= self.tapes@.len() - 1
            &&& tree_ok(
                self.loser_indices@,
                self.tapes@,
                self.orderer,
                0,
                0,
                self.tapes@.len() as int,
                w.idx as int,
            )
        }
    }

    /// The full invariant of the merger.
    pub closed spec fn wf(&self) -> bool {
        &&& self.core_wf()
        &&& self.tree_wf_for(self.winner)
        &&& (self.tapes@.len() >= 2 ==> self.remaining_tapes == num_live(self.tapes@))
    }

    /// `v` is at most every item the merger still holds.
    pub closed spec fn is_lower_bound(&self, v: T) -> bool {
        forall|i: int, k: int|
            0 <= i < self.tapes@.len() && 0 <= k < self.tapes@[i].items().len()
                ==> self.spec_orderer().le(v, #[trigger] self.tapes@[i].items()[k])
    }

    /// The remaining count is the size of the remaining multiset.
    pub proof fn lemma_remaining_ms(&self)
        ensures
            self.spec_remaining() == self.items_ms().len(),
    {
        lemma_tapes_total_is_ms_len(self.tapes@);
    }

    /// A lower bound carries over between mergers holding the same items.
    pub proof fn lemma_lower_bound_ms(&self, other: &Self, v: T)
        requires
            self.items_ms() == other.items_ms(),
            self.spec_orderer() == other.spec_orderer(),
            other.is_lower_bound(v),
        ensures
            self.is_lower_bound(v),
    {
        lemma_lower_bound_transfer(other.tapes@, self.tapes@, self.orderer, v);
    }

    /// A lower bound of the merger is at most any element it counts.
    pub proof fn lemma_lower_bound_member(&self, v: T, x: T)
        requires
            self.is_lower_bound(v),
            self.items_ms().count(x) > 0,
        ensures
            self.spec_orderer().le(v, x),
    {
        let (i, k) = lemma_tapes_ms_elem(self.tapes@, x);
    }

    /// Constructs a new loser tree from the given tapes
    /// and a provided ordering instruction.
    pub fn new(tapes: Vec<R>, orderer: O) -> (r: Self)
        requires
            tapes@.len() <= u32::MAX,
            tapes@.len() <= usize::MAX / 2 - 1,
            tapes_inv(tapes@),
            tapes_sorted(tapes@, orderer),
            tapes_total(tapes@) <= usize::MAX,
        ensures
            r.wf(),
            r.items_ms() == tapes_ms(tapes@),
            r.spec_remaining() == tapes_total(tapes@),
            r.spec_orderer() == orderer,
            r.num_tapes() <= tapes@.len(),
    {
        let remaining_tapes = tapes.len();
        let mut result = Self {
            loser_indices: Vec::new(),
            remaining_tapes,
            tapes,
            orderer,
            winner: Winner { idx: u32::MAX },
            phantom: PhantomData,
        };

        let w = result.rebuild_tree();
        result.winner = w;

        result
    }

    /// returns the remaining items of all merged runs.
    pub fn remaining_items(&self) -> (r: usize)
        requires
            self.wf(),
        ensures
            r == self.spec_remaining(),
    {
        let mut total: usize = 0;
        let mut i: usize = 0;
        proof {
            assert(self.tapes@.take(0) =~= Seq::<R>::empty());
        }
        while i < self.tapes.len()
            invariant
                0 <= i <= self.tapes@.len(),
                total == tapes_total(self.tapes@.take(i as int)),
                self.wf(),
            decreases self.tapes@.len() - i,
        {
            proof {
                lemma_tapes_total_split(self.tapes@, i as int);
                lemma_tapes_total_split(self.tapes@, i + 1);
                lemma_tapes_push(self.tapes@.take(i as int), self.tapes@[i as int]);
                assert(self.tapes@.take(i + 1) =~= self.tapes@.take(i as int).push(
                    self.tapes@[i as int],
                ));
                assert(tapes_inv(self.tapes@));
            }
            let t = &self.tapes[i];
            total = total + t.remaining_items();
            i = i + 1;
        }
        proof {
            assert(self.tapes@.take(self.tapes@.len() as int) =~= self.tapes@);
        }
        total
    }

    /// rebuilds the loser tree, returning the new winner leaf
    /// after reconstruction. Exhausted tapes are dropped in the
    /// process, which also releases their backing stores.
    fn rebuild_tree(&mut self) -> (w: Winner)
        requires
            old(self).core_wf(),
        ensures
            final(self).core_wf(),
            final(self).tree_wf_for(w),
            final(self).tapes@.len() <= old(self).tapes@.len(),
            final(self).items_ms() == old(self).items_ms(),
            final(self).spec_remaining() == old(self).spec_remaining(),
            final(self).orderer == old(self).orderer,
            final(self).winner == old(self).winner,
            final(self).remaining_tapes == num_live(final(self).tapes@),
            final(self).remaining_tapes == final(self).tapes@.len(),
    {
        let ghost orig = self.tapes@;
        let ghost o = self.orderer;
        let mut rev: Vec<R> = Vec::new();
        while self.tapes.len() > 0
            invariant
                tapes_ms(self.tapes@).add(tapes_ms(rev@)) == tapes_ms(orig),
                tapes_total(self.tapes@) + tapes_total(rev@) == tapes_total(orig),
                tapes_inv(self.tapes@),
                tapes_inv(rev@),
                tapes_sorted(self.tapes@, o),
                tapes_sorted(rev@, o),
                self.tapes@.len() + rev@.len() == orig.len(),
                o == self.orderer,
                self.loser_indices == old(self).loser_indices,
                self.winner == old(self).winner,
                self.remaining_tapes == old(self).remaining_tapes,
            decreases self.tapes@.len(),
        {
            let ghost pre = self.tapes@;
            proof {
                assert(pre =~= pre.drop_last().push(pre.last()));
                lemma_tapes_push(pre.drop_last(), pre.last());
                lemma_tapes_push(rev@, pre.last());
                lemma_tapes_total_nonneg(pre.drop_last());
                lemma_tapes_total_nonneg(rev@);
            }
            let t = self.tapes.pop().unwrap();
            proof {
                let a = tapes_ms(self.tapes@);
                let b = t.items().to_multiset();
                let c = tapes_ms(rev@);
                assert(a.add(b).add(c) =~= a.add(c.add(b)));
            }
            rev.push(t);
        }
        let mut kept: Vec<R> = Vec::new();
        proof {
            assert(tapes_ms(self.tapes@) == Multiset::<T>::empty());
            assert(Multiset::<T>::empty().add(tapes_ms(rev@)) =~= tapes_ms(rev@));
        }
        while rev.len() > 0
            invariant
                tapes_ms(rev@).add(tapes_ms(kept@)) == tapes_ms(orig),
                tapes_total(rev@) + tapes_total(kept@) == tapes_total(orig),
                tapes_inv(rev@),
                tapes_inv(kept@),
                tapes_sorted(rev@, o),
                tapes_sorted(kept@, o),
                kept@.len() + rev@.len() <= orig.len(),
                num_live(kept@) == kept@.len(),
                o == self.orderer,
                self.loser_indices == old(self).loser_indices,
                self.winner == old(self).winner,
                self.remaining_tapes == old(self).remaining_tapes,
                self.tapes@.len() == 0,
            decreases rev@.len(),
        {
            let ghost pre = rev@;
            proof {
                assert(pre =~= pre.drop_last().push(pre.last()));
                lemma_tapes_push(pre.drop_last(), pre.last());
                lemma_tapes_total_nonneg(pre.drop_last());
                lemma_tapes_total_nonneg(kept@);
                lemma_num_live_nonneg(pre.drop_last());
            }
            let t = rev.pop().unwrap();
            let live = t.peek().is_some();
            if live {
                proof {
                    lemma_tapes_push(kept@, t);
                    let a = tapes_ms(rev@);
                    let b = t.items().to_multiset();
                    let c = tapes_ms(kept@);
                    assert(a.add(b).add(c) =~= a.add(c.add(b)));
                }
                kept.push(t);
            } else {
                proof {
                    broadcast use vstd::seq_lib::group_to_multiset_ensures;

                    assert(t.items().to_multiset().len() == 0);
                    let a = tapes_ms(rev@);
                    let b = t.items().to_multiset();
                    let c = tapes_ms(kept@);
                    assert(b =~= Multiset::<T>::empty());
                    assert(a.add(b).add(c) =~= a.add(c));
                }
            }
        }
        self.tapes = kept;
        self.remaining_tapes = self.tapes.len();
        proof {
            assert(tapes_ms(rev@) == Multiset::<T>::empty());
            assert(Multiset::<T>::empty().add(tapes_ms(kept@)) =~= tapes_ms(kept@));
        }
        if self.tapes.len() > 1 {
            let builder = LoserTreeBuilder::new();
            let n = self.tapes.len();
            let w = builder.build(&self.tapes, &self.orderer, &mut self.loser_indices, n);
            w
        } else {
            Winner { idx: 0 }
        }
    }

    /// replay the matches from the previous winner back up to the root.
    /// this must be applied to the tree after the winner was modified.
    fn replay_matches(&mut self, previous_winner: Winner, Ghost(old_tapes): Ghost<Seq<R>>) -> (w:
        Winner)
        requires
            old(self).core_wf(),
            old(self).tapes@.len() >= 2,
            (previous_winner.idx as int) < old(self).tapes@.len(),
            old(self).loser_indices@.len() >= old(self).tapes@.len() - 1,
            tree_ok(
                old(self).loser_indices@,
                old_tapes,
                old(self).orderer,
                0,
                0,
                old(self).tapes@.len() as int,
                previous_winner.idx as int,
            ),
            old_tapes.len() == old(self).tapes@.len(),
            forall|i: int|
                0 <= i < old_tapes.len() && i != previous_winner.idx as int ==> (#[trigger] old(
                    self,
                ).tapes@[i].items()) == old_tapes[i].items(),
        ensures
            final(self).core_wf(),
            final(self).tapes == old(self).tapes,
            final(self).orderer == old(self).orderer,
            final(self).winner == old(self).winner,
            final(self).remaining_tapes == old(self).remaining_tapes,
            final(self).loser_indices@.len() == old(self).loser_indices@.len(),
            final(self).tree_wf_for(w),
    {
        let ghost o = self.orderer;
        let ghost n = self.tapes@.len() as int;
        let ghost mut path: Seq<(int, int, int)> = Seq::empty();
        proof {
            assert(path_ok(self.loser_indices@, self.tapes@, o, seq![(0int, 0int, n)], n));
            path = crate::merge::tree_model::lemma_peel(
                self.loser_indices@,
                old_tapes,
                self.tapes@,
                o,
                0,
                0,
                n,
                previous_winner.idx as int,
                n,
                seq![(0int, 0int, n)],
            );
            crate::merge::tree_layout::lemma_leaf_position(n, previous_winner.idx as int);
            assert(path.len() >= 2) by {
                if path.len() == 1 {
                    assert(path[0] == (0int, 0int, n));
                }
            }
            crate::merge::tree_model::lemma_path_ranges(self.loser_indices@, self.tapes@, o, path, n, 0);
        }
        let mut winner = previous_winner;
        let mut current_node = self.get_leaf_node(previous_winner).parent();
        proof {
            assert(path[0].0 == crate::merge::array_node::spec_leaf_position(
                previous_winner.idx as int,
                n,
            ));
            assert(path[1].0 == current_node.idx as int);
        }
        loop
            invariant
                path_ok(self.loser_indices@, self.tapes@, o, path, n),
                path.len() >= 2,
                path[1].0 == current_node.idx as int,
                tree_ok(
                    self.loser_indices@,
                    self.tapes@,
                    o,
                    path[0].0,
                    path[0].1,
                    path[0].2,
                    winner.idx as int,
                ),
                path[0].1 <= winner.idx as int,
                (winner.idx as int) < path[0].2,
                0 <= path[0].1,
                path[0].2 <= n,
                n == self.tapes@.len(),
                n >= 2,
                o == self.orderer,
                self.tapes == old(self).tapes,
                self.orderer == old(self).orderer,
                self.winner == old(self).winner,
                self.remaining_tapes == old(self).remaining_tapes,
                self.loser_indices@.len() == old(self).loser_indices@.len(),
                self.loser_indices@.len() >= n - 1,
                old(self).core_wf(),
                self.tapes@.len() <= u32::MAX,
                tapes_inv(self.tapes@),
            decreases path.len(),
        {
            let ghost u = path[0].0;
            let ghost lo = path[0].1;
            let ghost hi = path[0].2;
            let ghost pp = path[1].0;
            let ghost plo = path[1].1;
            let ghost phi = path[1].2;
            let ghost mid = plo + crate::merge::tree_model::left_size(phi - plo);
            let ghost sib = if u == 2 * pp + 1 {
                2 * pp + 2
            } else {
                2 * pp + 1
            };
            let ghost slo = if u == 2 * pp + 1 {
                mid
            } else {
                plo
            };
            let ghost shi = if u == 2 * pp + 1 {
                phi
            } else {
                mid
            };
            proof {
                crate::merge::tree_model::lemma_path_ranges(
                    self.loser_indices@,
                    self.tapes@,
                    o,
                    path,
                    n,
                    1,
                );
                crate::merge::tree_model::lemma_left_size(phi - plo);
                crate::merge::tree_model::lemma_tree_champ_range(
                    self.loser_indices@,
                    self.tapes@,
                    o,
                    sib,
                    slo,
                    shi,
                    self.loser_indices@[pp] as int,
                );
            }
            let challenger = Winner { idx: self.loser_indices[current_node.idx] };
            let cmp = compare_winners(&self.tapes, &self.orderer, challenger, winner);
            let ghost lt_pre = self.loser_indices@;
            let ghost w_pre = winner.idx as int;
            if matches!(cmp, core::cmp::Ordering::Less) {
                // the challenger won, note the previous winner in the tree and continue with the challenger
                self.loser_indices[current_node.idx] = winner.idx;
                winner = challenger;
            }
            proof {
                let lt2 = self.loser_indices@;
                crate::merge::tree_model::lemma_replay_step(
                    lt_pre,
                    lt2,
                    self.tapes@,
                    o,
                    u,
                    lo,
                    hi,
                    pp,
                    plo,
                    phi,
                    w_pre,
                    winner.idx as int,
                );
                crate::merge::tree_model::lemma_path_nonneg(lt_pre, self.tapes@, o, path, n, 0);
                if lt2 != lt_pre {
                    assert(crate::merge::tree_model::is_desc(pp, pp));
                    crate::merge::tree_model::lemma_path_frame_lt(
                        lt_pre,
                        lt2,
                        self.tapes@,
                        o,
                        path.drop_first(),
                        n,
                        pp,
                    );
                }
                path = path.drop_first();
            }
            proof {
                assert(path_ok(self.loser_indices@, self.tapes@, o, path, n));
                assert(path[0].0 == pp);
                if path.len() >= 2 {
                    let p2 = path[1].0;
                    assert(0 <= p2);
                    assert(pp == 2 * p2 + 1 || pp == 2 * p2 + 2);
                }
            }
            if current_node.is_root() {
                proof {
                    assert(pp == 0);
                    assert(path.len() == 1);
                    assert(path[0] == (0int, 0int, n));
                    assert(self.loser_indices@.len() >= n - 1);
                }
                return winner;
            }
            current_node = current_node.parent();
            proof {
                assert(pp >= 1);
                assert(path.len() >= 2);
                assert(path[1].0 == current_node.idx as int);
            }
        }
    }

    /// removes the previous winner node from the tree, shrinking it in the process.
    /// this involves a recomputation of the tree as a new node must be the winner after.
    fn remove_winner(&mut self, previous_winner: Winner, Ghost(old_tapes): Ghost<Seq<R>>) -> (w:
        Winner)
        requires
            old(self).core_wf(),
            old(self).tapes@.len() >= 2,
            (previous_winner.idx as int) < old(self).tapes@.len(),
            old(self).loser_indices@.len() >= old(self).tapes@.len() - 1,
            tree_ok(
                old(self).loser_indices@,
                old_tapes,
                old(self).orderer,
                0,
                0,
                old(self).tapes@.len() as int,
                previous_winner.idx as int,
            ),
            old_tapes.len() == old(self).tapes@.len(),
            forall|i: int|
                0 <= i < old_tapes.len() && i != previous_winner.idx as int ==> (#[trigger] old(
                    self,
                ).tapes@[i].items()) == old_tapes[i].items(),
            old(self).remaining_tapes == num_live(old(self).tapes@) + 1,
        ensures
            final(self).core_wf(),
            final(self).tree_wf_for(w),
            final(self).items_ms() == old(self).items_ms(),
            final(self).spec_remaining() == old(self).spec_remaining(),
            final(self).orderer == old(self).orderer,
            final(self).winner == old(self).winner,
            final(self).tapes@.len() >= 2 ==> final(self).remaining_tapes == num_live(
                final(self).tapes@,
            ),
    {
        proof {
            lemma_num_live_nonneg(self.tapes@);
        }
        self.remaining_tapes = self.remaining_tapes - 1;

        let number_of_tapes = self.tapes.len();
        let rebuild_threshold = previous_power_of_two(number_of_tapes - 1);

        if self.remaining_tapes <= rebuild_threshold {
            // we have exhausted enough tapes that the tree will be one level less deep.
            // we can take this opportunity to drop runs as well as rebuild the tree
            self.rebuild_tree()
        } else {
            // we have not exhausted enough tapes for it to actually make
            // sense to rebuild the tree. Instead we rely on the fact that
            // an exhausted tape is always compared to be greater than anything
            // else and just replay to the root as usual.
            self.replay_matches(previous_winner, Ghost(old_tapes))
        }
    }

    /// advances the internal state
    /// Once this method returns None, it will never yield any elements again.
    pub fn next(&mut self) -> (r: Option<T>)
        requires
            old(self).wf(),
        ensures
            final(self).wf(),
            final(self).spec_orderer() == old(self).spec_orderer(),
            match r {
                None => {
                    &&& old(self).spec_remaining() == 0
                    &&& final(self).spec_remaining() == 0
                    &&& final(self).items_ms() == old(self).items_ms()
                },
                Some(v) => {
                    &&& old(self).spec_remaining() > 0
                    &&& final(self).spec_remaining() == old(self).spec_remaining() - 1
                    &&& old(self).items_ms().count(v) > 0
                    &&& final(self).items_ms() == old(self).items_ms().remove(v)
                    &&& final(self).is_lower_bound(v)
                },
            },
    {
        let ghost o = self.orderer;
        let ghost pre_tapes = self.tapes@;
        if self.tapes.len() <= 1 {
            if self.tapes.len() == 0 {
                return None;
            }
            let tape = vstd::std_specs::vec::vec_index_mut(&mut self.tapes, 0);
            let r = tape.next();
            proof {
                lemma_one_tape_step(pre_tapes, self.tapes@, o, 0, r);
                lemma_tapes_total_nonneg(self.tapes@);
                if r is None {
                    assert(pre_tapes.drop_first() =~= Seq::<R>::empty());
                    assert(tapes_total(pre_tapes.drop_first()) == 0);
                    assert(tapes_total(pre_tapes) == 0);
                }
            }
            return r;
        }
        let ghost n = self.tapes@.len() as int;
        let ghost w0 = self.winner.idx as int;
        proof {
            assert forall|i: int| 0 <= i < n implies head_le(pre_tapes, o, w0, i) by {
                lemma_tree_min(self.loser_indices@, pre_tapes, o, 0, 0, n, w0, i);
            }
        }
        let widx = self.winner.idx as usize;
        let winning_tape = vstd::std_specs::vec::vec_index_mut(&mut self.tapes, widx);
        let pop = winning_tape.next();
        let winning_value = match pop {
            None => {
                proof {
                    // the winner has the least head; if even it is exhausted,
                    // every tape is, and nothing remains.
                    assert forall|i: int| 0 <= i < n implies (#[trigger] pre_tapes[i].items()).len()
                        == 0 by {
                        assert(head_le(pre_tapes, o, w0, i));
                    }
                    lemma_tapes_all_empty(pre_tapes);
                    lemma_one_tape_step(pre_tapes, self.tapes@, o, w0, pop);
                    crate::merge::tree_model::lemma_tree_frame_tapes(
                        self.loser_indices@,
                        pre_tapes,
                        self.tapes@,
                        o,
                        0,
                        0,
                        n,
                        w0,
                    );
                }
                return None;
            },
            Some(v) => v,
        };
        let ghost mid_tapes = self.tapes@;
        proof {
            lemma_one_tape_step(pre_tapes, mid_tapes, o, w0, pop);
            // the yielded value is a lower bound of everything left
            assert forall|i: int, k: int|
                0 <= i < mid_tapes.len() && 0 <= k < mid_tapes[i].items().len() implies o.le(
                winning_value,
                #[trigger] mid_tapes[i].items()[k],
            ) by {
                assert(head_le(pre_tapes, o, w0, i));
                if i == w0 {
                    assert(mid_tapes[i].items()[k] == pre_tapes[i].items()[k + 1]);
                    assert(run_sorted(pre_tapes[i].items(), o));
                } else {
                    assert(mid_tapes[i].items() == pre_tapes[i].items());
                    assert(run_sorted(pre_tapes[i].items(), o));
                    assert(o.le(winning_value, pre_tapes[i].items()[0]));
                    if k > 0 {
                        o.le_transitive(
                            winning_value,
                            pre_tapes[i].items()[0],
                            pre_tapes[i].items()[k],
                        );
                    }
                }
            }
        }
        let tape_ref = &self.tapes[widx];
        let tape_exhausted = tape_ref.peek().is_none();

        let w_new;
        if tape_exhausted {
            // while we surely know that the next result must be a None
            // because the peek call did not return anything,
            // reading the tape past the end will allow it to release
            // backing resources already.
            let t2 = vstd::std_specs::vec::vec_index_mut(&mut self.tapes, widx);
            let none = t2.next();
            proof {
                assert(none is None);
                lemma_one_tape_step(mid_tapes, self.tapes@, o, w0, none);
                lemma_lower_bound_transfer(mid_tapes, self.tapes@, o, winning_value);
            }
            w_new = self.remove_winner(self.winner, Ghost(pre_tapes));
        } else {
            w_new = self.replay_matches(self.winner, Ghost(pre_tapes));
        }
        self.winner = w_new;
        proof {
            let ft = self.tapes@;
            assert forall|i: int, k: int|
                0 <= i < ft.len() && 0 <= k < ft[i].items().len() implies o.le(
                winning_value,
                #[trigger] ft[i].items()[k],
            ) by {
                lemma_tapes_ms_member(ft, i, k);
                let (i2, k2) = lemma_tapes_ms_elem(mid_tapes, ft[i].items()[k]);
            }
            lemma_tapes_total_nonneg(mid_tapes);
        }
        Some(winning_value)
    }

    /// computes the tree node the leaf _would_ occupy if we did store the leaves
    fn get_leaf_node(&self, leaf: Winner) -> (r: crate::merge::array_node::TreeNode)
        requires
            1 <= self.tapes@.len() <= usize::MAX / 2 - 1,
            (leaf.idx as int) < self.tapes@.len(),
        ensures
            r.idx == crate::merge::array_node::spec_leaf_position(
                leaf.idx as int,
                self.tapes@.len() as int,
            ),
    {
        let tree_size = self.tapes.len();
        crate::merge::array_node::TreeNode::leaf_for_winner(leaf, tree_size)
    }
}

/// The effect on the aggregate views of advancing one run in place.
pub proof fn lemma_one_tape_step<T, R: Run<T>, O: Orderer<T>>(
    pre: Seq<R>,
    post: Seq<R>,
    o: O,
    i: int,
    r: Option<T>,
)
    requires
        0 <= i < pre.len(),
        post.len() == pre.len(),
        forall|j: int| 0 <= j < pre.len() && j != i ==> post[j] == pre[j],
        match r {
            Some(v) => pre[i].items().len() > 0 && v == pre[i].items()[0] && post[i].items()
                == pre[i].items().drop_first(),
            None => pre[i].items().len() == 0 && post[i].items() == pre[i].items(),
        },
        tapes_sorted(pre, o),
        tapes_inv(pre),
        post[i].inv(),
    ensures
        tapes_sorted(post, o),
        tapes_inv(post),
        match r {
            Some(v) => {
                &&& tapes_total(post) == tapes_total(pre) - 1
                &&& tapes_ms(pre).count(v) > 0
                &&& tapes_ms(post) == tapes_ms(pre).remove(v)
                &&& num_live(post) == num_live(pre) - (if pre[i].items().len() == 1 {
                    1int
                } else {
                    0int
                })
            },
            None => {
                &&& tapes_total(post) == tapes_total(pre)
                &&& tapes_ms(post) == tapes_ms(pre)
                &&& num_live(post) == num_live(pre)
            },
        },
{
    broadcast use vstd::seq_lib::group_to_multiset_ensures;

    assert(post =~= pre.update(i, post[i]));
    lemma_tapes_update(pre, i, post[i]);
    assert forall|j: int| 0 <= j < post.len() implies run_sorted(
        #[trigger] post[j].items(),
        o,
    ) by {
        assert(run_sorted(pre[j].items(), o));
        if j == i {
            match r {
                Some(_) => {
                    assert forall|a: int, b: int|
                        0 <= a < b < post[j].items().len() implies o.le(
                        post[j].items()[a],
                        post[j].items()[b],
                    ) by {
                        assert(post[j].items()[a] == pre[j].items()[a + 1]);
                        assert(post[j].items()[b] == pre[j].items()[b + 1]);
                    }
                },
                None => {},
            }
        }
    }
    assert forall|j: int| 0 <= j < post.len() implies (#[trigger] post[j]).inv() by {
        if j != i {
            assert(pre[j].inv());
        }
    }
    match r {
        Some(v) => {
            lemma_tapes_ms_member(pre, i, 0);
            assert(pre[i].items().remove(0) =~= pre[i].items().drop_first());
            assert(pre[i].items().remove(0).to_multiset() =~= pre[i].items().to_multiset().remove(
                v,
            ));
            let a = tapes_ms(post);
            let b = tapes_ms(pre);
            let c = pre[i].items().to_multiset();
            assert(a.add(c) == b.add(c.remove(v)));
            assert(c.count(v) > 0);
            assert forall|x: T| a.count(x) == b.remove(v).count(x) by {
                assert(a.add(c).count(x) == a.count(x) + c.count(x));
                assert(b.add(c.remove(v)).count(x) == b.count(x) + c.remove(v).count(x));
            }
            assert(a =~= b.remove(v));
        },
        None => {
            let a = tapes_ms(post);
            let b = tapes_ms(pre);
            let c = pre[i].items().to_multiset();
            assert(a.add(c) == b.add(c));
            assert forall|x: T| a.count(x) == b.count(x) by {
                assert(a.add(c).count(x) == a.count(x) + c.count(x));
                assert(b.add(c).count(x) == b.count(x) + c.count(x));
            }
            assert(a =~= b);
        },
    }
}

/// A lower bound carries over to any run sequence holding the same items.
pub proof fn lemma_lower_bound_transfer<T, R: Run<T>, O: Orderer<T>>(
    t1: Seq<R>,
    t2: Seq<R>,
    o: O,
    v: T,
)
    requires
        tapes_ms(t2) == tapes_ms(t1),
        forall|i: int, k: int|
            0 <= i < t1.len() && 0 <= k < t1[i].items().len() ==> o.le(
                v,
                #[trigger] t1[i].items()[k],
            ),
    ensures
        forall|i: int, k: int|
            0 <= i < t2.len() && 0 <= k < t2[i].items().len() ==> o.le(
                v,
                #[trigger] t2[i].items()[k],
            ),
{
    assert forall|i: int, k: int|
        0 <= i < t2.len() && 0 <= k < t2[i].items().len() implies o.le(
        v,
        #[trigger] t2[i].items()[k],
    ) by {
        lemma_tapes_ms_member(t2, i, k);
        let (i2, k2) = lemma_tapes_ms_elem(t1, t2[i].items()[k]);
    }
}

} // verus!

pub mod compressor;

use vstd::prelude::*;

use crate::run::file_run::{ExternalRun, RunSource};
use crate::run::split_backing::SplitView;
use crate::run::Run;
use crate::tape::compressor::CompressionCodec;
use vstd::multiset::Multiset;

verus! {

/// An on-store run: the number of entries it holds plus the backing
/// store they live in.
pub struct Tape<T> {
    num_entries: usize,
    backing: RunSource<T>,
}

impl<T> Tape<T> {
    /// The items this tape stores, in yield order.
    pub closed spec fn contents(&self) -> Seq<T> {
        self.backing.pending()
    }

    /// The entry counter matches the stored contents.
    pub closed spec fn wf(&self) -> bool {
        self.num_entries == self.contents().len()
    }

    pub fn num_entries(&self) -> (r: usize)
        requires
            self.wf(),
        ensures
            r == self.contents().len(),
    {
        self.num_entries
    }

    pub fn into_backing(self) -> (r: RunSource<T>)
        ensures
            r.pending() == self.contents(),
    {
        self.backing
    }

    /// Wraps a store that already holds `num_entries` items.
    pub fn from_source(num_entries: usize, backing: RunSource<T>) -> (r: Self)
        requires
            num_entries == backing.pending().len(),
        ensures
            r.wf(),
            r.contents() == backing.pending(),
    {
        Self { num_entries, backing }
    }
}

/// Fills the provided store with the values drained from source.
/// When the call completes, source will be empty and the store holds
/// the values back to front, ready to serve as a run backing.
pub fn fill_backing<T>(source: &mut Vec<T>, store: &mut Vec<T>)
    ensures
        final(source)@.len() == 0,
        final(store)@ == old(store)@ + old(source)@.reverse(),
{
    let ghost presrc = source@;
    let ghost prestore = store@;
    while source.len() > 0
        invariant
            source@.len() <= presrc.len(),
            store@ == prestore + presrc.skip(source@.len() as int).reverse(),
            source@ == presrc.take(source@.len() as int),
        decreases source@.len(),
    {
        let ghost remaining = source@.len() as int;
        proof {
            assert(presrc.skip(remaining - 1) =~= seq![presrc[remaining - 1]] + presrc.skip(
                remaining,
            ));
            assert(presrc.skip(remaining - 1).reverse() =~= presrc.skip(remaining).reverse()
                + seq![presrc[remaining - 1]]);
            assert((prestore + presrc.skip(remaining).reverse()).push(presrc[remaining - 1])
                =~= prestore + presrc.skip(remaining - 1).reverse());
            assert(presrc.take(remaining).last() == presrc[remaining - 1]);
            assert(presrc.take(remaining).drop_last() =~= presrc.take(remaining - 1));
        }
        let v = source.pop().unwrap();
        store.push(v);
    }
    proof {
        assert(presrc.skip(0) =~= presrc);
    }
}

/// Moves a buffer onto a fresh tape.
pub fn vec_to_tape<T>(data: Vec<T>) -> (t: Tape<T>)
    ensures
        t.wf(),
        t.contents() == data@,
{
    let ghost orig = data@;
    let mut data = data;
    let mut store: Vec<T> = Vec::new();
    fill_backing(&mut data, &mut store);
    proof {
        assert(Seq::<T>::empty() + orig.reverse() =~= orig.reverse());
        assert(orig.reverse().reverse() =~= orig);
    }
    Tape::from_source(store.len(), RunSource::from_reversed(store))
}

/// The multiset of all items over a sequence of runs.
pub open spec fn seqs_items<T>(rs: Seq<Seq<T>>) -> Multiset<T>
    decreases rs.len(),
{
    if rs.len() == 0 {
        Multiset::empty()
    } else {
        rs[0].to_multiset().add(seqs_items(rs.drop_first()))
    }
}

/// The total number of items over a sequence of runs.
pub open spec fn seqs_total<T>(rs: Seq<Seq<T>>) -> int
    decreases rs.len(),
{
    if rs.len() == 0 {
        0
    } else {
        rs[0].len() + seqs_total(rs.drop_first())
    }
}

pub proof fn lemma_seqs_push<T>(rs: Seq<Seq<T>>, s: Seq<T>)
    ensures
        seqs_items(rs.push(s)) == seqs_items(rs).add(s.to_multiset()),
        seqs_total(rs.push(s)) == seqs_total(rs) + s.len(),
    decreases rs.len(),
{
    if rs.len() == 0 {
        assert(rs.push(s)[0] == s);
        assert(rs.push(s).drop_first() =~= Seq::<Seq<T>>::empty());
        assert(seqs_items(rs.push(s).drop_first()) == Multiset::<T>::empty());
        assert(seqs_items(rs.push(s)) == s.to_multiset().add(Multiset::empty()));
        assert(seqs_items(rs) == Multiset::<T>::empty());
        assert(s.to_multiset().add(Multiset::empty()) =~= s.to_multiset());
        assert(Multiset::<T>::empty().add(s.to_multiset()) =~= s.to_multiset());
        assert(seqs_total(rs.push(s)) == s.len() + seqs_total(rs.push(s).drop_first()));
        assert(seqs_total(rs.push(s).drop_first()) == 0);
        assert(seqs_total(rs) == 0);
    } else {
        assert(rs.push(s)[0] == rs[0]);
        assert(rs.push(s).drop_first() =~= rs.drop_first().push(s));
        lemma_seqs_push(rs.drop_first(), s);
        let a = rs[0].to_multiset();
        let b = seqs_items(rs.drop_first());
        let c = s.to_multiset();
        assert(seqs_items(rs.push(s)) == a.add(seqs_items(rs.push(s).drop_first())));
        assert(seqs_items(rs.push(s).drop_first()) == b.add(c));
        assert(seqs_items(rs) == a.add(b));
        assert(a.add(b.add(c)) =~= a.add(b).add(c));
        assert(seqs_total(rs.push(s)) == rs[0].len() + seqs_total(rs.push(s).drop_first()));
        assert(seqs_total(rs) == rs[0].len() + seqs_total(rs.drop_first()));
    }
}

pub proof fn lemma_seqs_concat<T>(a: Seq<Seq<T>>, b: Seq<Seq<T>>)
    ensures
        seqs_items(a + b) == seqs_items(a).add(seqs_items(b)),
        seqs_total(a + b) == seqs_total(a) + seqs_total(b),
    decreases a.len(),
{
    if a.len() == 0 {
        assert(a + b =~= b);
        assert(seqs_items(a) == Multiset::<T>::empty());
        assert(seqs_total(a) == 0);
        assert(Multiset::<T>::empty().add(seqs_items(b)) =~= seqs_items(b));
    } else {
        assert((a + b).drop_first() =~= a.drop_first() + b);
        assert((a + b)[0] == a[0]);
        assert((a + b).len() > 0);
        lemma_seqs_concat(a.drop_first(), b);
        let x = a[0].to_multiset();
        let y = seqs_items(a.drop_first());
        let z = seqs_items(b);
        assert(seqs_items(a + b) == x.add(seqs_items((a + b).drop_first())));
        assert(seqs_items((a + b).drop_first()) == y.add(z));
        assert(seqs_items(a) == x.add(y));
        assert(x.add(y.add(z)) =~= x.add(y).add(z));
        assert(seqs_total(a + b) == a[0].len() + seqs_total((a + b).drop_first()));
        assert(seqs_total(a) == a[0].len() + seqs_total(a.drop_first()));
    }
}

pub proof fn lemma_seqs_total_nonneg<T>(rs: Seq<Seq<T>>)
    ensures
        seqs_total(rs) >= 0,
    decreases rs.len(),
{
    if rs.len() > 0 {
        lemma_seqs_total_nonneg(rs.drop_first());
    }
}

/// The segments of one backing store, as a sequence of runs.
pub open spec fn view_segments<T>(v: SplitView<T>) -> Seq<Seq<T>> {
    Seq::new(v.num_segments() as nat, |i: int| v.segment(i))
}

/// All segments over a sequence of backing stores, store by store.
pub open spec fn views_runs<T>(views: Seq<SplitView<T>>) -> Seq<Seq<T>>
    decreases views.len(),
{
    if views.len() == 0 {
        Seq::empty()
    } else {
        view_segments(views[0]) + views_runs(views.drop_first())
    }
}

pub proof fn lemma_views_push<T>(views: Seq<SplitView<T>>, v: SplitView<T>)
    ensures
        views_runs(views.push(v)) == views_runs(views) + view_segments(v),
    decreases views.len(),
{
    if views.len() == 0 {
        assert(views.push(v)[0] == v);
        assert(views.push(v).drop_first() =~= Seq::<SplitView<T>>::empty());
        assert(views_runs(views.push(v)) == view_segments(v) + views_runs(
            views.push(v).drop_first(),
        ));
        assert(views_runs(views.push(v).drop_first()) == Seq::<Seq<T>>::empty());
        assert(views_runs(views) == Seq::<Seq<T>>::empty());
        assert(view_segments(v) + Seq::<Seq<T>>::empty() =~= view_segments(v));
        assert(Seq::<Seq<T>>::empty() + view_segments(v) =~= view_segments(v));
    } else {
        assert(views.push(v)[0] == views[0]);
        assert(views.push(v).drop_first() =~= views.drop_first().push(v));
        lemma_views_push(views.drop_first(), v);
        assert(views_runs(views.push(v)) == view_segments(views[0]) + views_runs(
            views.push(v).drop_first(),
        ));
        assert(views_runs(views) == view_segments(views[0]) + views_runs(views.drop_first()));
        assert(view_segments(views[0]) + (views_runs(views.drop_first()) + view_segments(v))
            =~= (view_segments(views[0]) + views_runs(views.drop_first())) + view_segments(v));
    }
}

/// Extending one store by a new segment inserts exactly that run.
pub proof fn lemma_views_update<T>(views: Seq<SplitView<T>>, j: int, v2: SplitView<T>, s: Seq<T>)
    requires
        0 <= j < views.len(),
        view_segments(v2) == view_segments(views[j]).push(s),
    ensures
        views_runs(views.update(j, v2)).to_multiset() == views_runs(views).to_multiset().insert(s),
        seqs_items(views_runs(views.update(j, v2))) == seqs_items(views_runs(views)).add(
            s.to_multiset(),
        ),
        seqs_total(views_runs(views.update(j, v2))) == seqs_total(views_runs(views)) + s.len(),
    decreases views.len(),
{
    broadcast use vstd::seq_lib::group_to_multiset_ensures;

    if j == 0 {
        assert(views.update(0, v2).drop_first() =~= views.drop_first());
        assert(views.update(0, v2)[0] == v2);
        let a = view_segments(views[0]);
        let b = views_runs(views.drop_first());
        vstd::seq_lib::lemma_multiset_commutative(a.push(s), b);
        vstd::seq_lib::lemma_multiset_commutative(a, b);
        assert(a.push(s).to_multiset() =~= a.to_multiset().insert(s));
        assert(a.push(s).to_multiset().add(b.to_multiset()) =~= (a + b).to_multiset().insert(s));
        lemma_seqs_concat(a.push(s), b);
        lemma_seqs_concat(a, b);
        lemma_seqs_push(a, s);
        assert(seqs_items(a).add(s.to_multiset()).add(seqs_items(b)) =~= seqs_items(a).add(
            seqs_items(b),
        ).add(s.to_multiset()));
    } else {
        assert(views.update(j, v2).drop_first() =~= views.drop_first().update(j - 1, v2));
        assert(views.update(j, v2)[0] == views[0]);
        assert(views.drop_first()[j - 1] == views[j]);
        lemma_views_update(views.drop_first(), j - 1, v2, s);
        let a = view_segments(views[0]);
        let b = views_runs(views.drop_first());
        let b2 = views_runs(views.drop_first().update(j - 1, v2));
        vstd::seq_lib::lemma_multiset_commutative(a, b);
        vstd::seq_lib::lemma_multiset_commutative(a, b2);
        assert(a.to_multiset().add(b2.to_multiset()) =~= a.to_multiset().add(
            b.to_multiset(),
        ).insert(s));
        lemma_seqs_concat(a, b);
        lemma_seqs_concat(a, b2);
        assert(seqs_items(a).add(seqs_items(b2)) =~= seqs_items(a).add(seqs_items(b)).add(
            s.to_multiset(),
        ));
    }
}

/// The total number of segments over a sequence of stores.
pub open spec fn views_segment_count<T>(views: Seq<SplitView<T>>) -> int
    decreases views.len(),
{
    if views.len() == 0 {
        0
    } else {
        views[0].num_segments() + views_segment_count(views.drop_first())
    }
}

/// A bounded-store-count spill store: runs are given exclusive stores
/// up to a cap, and further runs are packed as segments into shared
/// backing stores chosen round-robin.
pub struct TapeCollection<T> {
    /// the seed for naming fresh stores under the configured folder.
    next_file_name: String,
    /// the cap on simultaneously existing stores.
    max_files: usize,
    /// runs that own an exclusive store.
    plain_tapes: Vec<Tape<T>>,
    /// the shared backing stores holding the packed runs.
    shared_views: Vec<SplitView<T>>,
    /// for every packed run, the index of the store that holds it.
    shared_tape_views: Vec<usize>,
    /// the number of runs spilled so far.
    next_tape_idx: usize,
    /// the codec applied to tape payloads on byte-backed stores.
    compression_choice: CompressionCodec,
}

impl<T> TapeCollection<T> {
    /// All spilled runs, exclusive stores first, then the segments of
    /// each shared store. This is the order `into_tapes` opens them in.
    pub closed spec fn runs(&self) -> Seq<Seq<T>> {
        Seq::new(self.plain_tapes@.len(), |i: int| self.plain_tapes@[i].contents()) + views_runs(
            self.shared_views@,
        )
    }

    /// The number of runs spilled so far.
    pub closed spec fn runs_count(&self) -> int {
        self.next_tape_idx as int
    }

    /// The number of stores that currently exist.
    pub closed spec fn num_files(&self) -> int {
        self.plain_tapes@.len() as int + self.shared_views@.len() as int
    }

    /// The configured cap on stores.
    pub closed spec fn spec_max_files(&self) -> int {
        self.max_files as int
    }

    pub closed spec fn wf(&self) -> bool {
        &&& 1 <= self.max_files
        &&& forall|i: int| 0 <= i < self.plain_tapes@.len() ==> (
        #[trigger] self.plain_tapes@[i]).wf()
        &&& forall|i: int| 0 <= i < self.shared_views@.len() ==> (
        #[trigger] self.shared_views@[i]).wf()
        &&& forall|i: int| 0 <= i < self.shared_tape_views@.len() ==> (
        #[trigger] self.shared_tape_views@[i]) < self.shared_views@.len()
        &&& self.num_files() == (if self.runs_count() < self.spec_max_files() {
            self.runs_count()
        } else {
            self.spec_max_files()
        })
        &&& self.runs().len() == self.runs_count()
        &&& self.shared_tape_views@.len() == views_segment_count(self.shared_views@)
        &&& (self.plain_tapes@.len() == 0 && self.runs_count() >= self.spec_max_files()
            ==> self.shared_tape_views@.len() >= self.spec_max_files())
    }

    /// Bounded stores: while more than `max_files` runs have been
    /// spilled, exactly `max_files` stores exist; before that, one
    /// store per run.
    pub proof fn lemma_file_cap(&self)
        requires
            self.wf(),
        ensures
            self.num_files() == (if self.runs_count() < self.spec_max_files() {
                self.runs_count()
            } else {
                self.spec_max_files()
            }),
            self.runs_count() == 0 ==> self.num_files() == 0,
    {
    }

    pub fn new(sort_folder: String, max_files: usize, compression_choice: CompressionCodec) -> (r:
        Self)
        requires
            max_files >= 1,
        ensures
            r.wf(),
            r.runs() == Seq::<Seq<T>>::empty(),
            r.runs_count() == 0,
            r.num_files() == 0,
            r.spec_max_files() == max_files,
    {
        let r = Self {
            max_files,
            next_file_name: sort_folder,
            next_tape_idx: 0,
            plain_tapes: Vec::new(),
            shared_views: Vec::new(),
            shared_tape_views: Vec::new(),
            compression_choice,
        };
        proof {
            assert(r.runs() =~= Seq::<Seq<T>>::empty());
        }
        r
    }
}

/// views_runs has one entry per segment.
pub proof fn lemma_views_runs_len<T>(views: Seq<SplitView<T>>)
    ensures
        views_runs(views).len() == views_segment_count(views),
        views_segment_count(views) >= 0,
    decreases views.len(),
{
    if views.len() > 0 {
        lemma_views_runs_len(views.drop_first());
        crate::run::split_backing::lemma_view_shape(views[0]);
        assert(views_runs(views) == view_segments(views[0]) + views_runs(views.drop_first()));
        assert(views_segment_count(views) == views[0].num_segments() + views_segment_count(
            views.drop_first(),
        ));
        assert(view_segments(views[0]).len() == views[0].num_segments());
    } else {
        assert(views_runs(views) == Seq::<Seq<T>>::empty());
        assert(views_segment_count(views) == 0);
    }
}

/// The items of one store are counted by the totals of its segments.
pub proof fn lemma_view_total<T>(v: SplitView<T>, k: int)
    requires
        v.wf(),
        0 <= k <= v.num_segments(),
    ensures
        seqs_total(view_segments(v).skip(k)) == v.total_len() - v.bound(k),
    decreases v.num_segments() - k,
{
    if k == v.num_segments() {
        assert(view_segments(v).skip(k) =~= Seq::<Seq<T>>::empty());
        assert(seqs_total(view_segments(v).skip(k)) == 0);
        crate::run::split_backing::lemma_bound_zero(v);
    } else {
        lemma_view_total(v, k + 1);
        let rest = view_segments(v).skip(k);
        assert(rest[0] == v.segment(k));
        assert(rest.drop_first() =~= view_segments(v).skip(k + 1));
        assert(seqs_total(rest) == rest[0].len() + seqs_total(rest.drop_first()));
        assert(v.segment(k).len() == v.bound(k + 1) - v.bound(k)) by {
            crate::run::split_backing::lemma_segment_len(v, k);
        }
    }
}

/// One store never holds more items than all runs together.
pub proof fn lemma_view_total_bound<T>(views: Seq<SplitView<T>>, j: int)
    requires
        0 <= j < views.len(),
        forall|i: int| 0 <= i < views.len() ==> (#[trigger] views[i]).wf(),
    ensures
        views[j].total_len() <= seqs_total(views_runs(views)),
        seqs_total(views_runs(views)) >= 0,
    decreases views.len(),
{
    assert(views[0].wf());
    assert(views_runs(views) == view_segments(views[0]) + views_runs(views.drop_first()));
    lemma_seqs_concat(view_segments(views[0]), views_runs(views.drop_first()));
    lemma_seqs_total_nonneg(view_segments(views[0]));
    lemma_seqs_total_nonneg(views_runs(views.drop_first()));
    crate::run::split_backing::lemma_view_shape(views[0]);
    if j == 0 {
        lemma_view_total(views[0], 0);
        assert(view_segments(views[0]).skip(0) =~= view_segments(views[0]));
        assert(views[0].bound(0) == 0) by {
            crate::run::split_backing::lemma_bound_zero(views[0]);
        }
        crate::run::split_backing::lemma_bound_zero(views[0]);
    } else {
        assert(views.drop_first()[j - 1] == views[j]);
        assert(forall|i: int|
            0 <= i < views.drop_first().len() ==> (#[trigger] views.drop_first()[i]).wf());
        lemma_view_total_bound(views.drop_first(), j - 1);
    }
}

/// Tapes whose item sequences match a run sequence pointwise carry the
/// same aggregate views.
pub proof fn lemma_tapes_match_runs<T>(tapes: Seq<ExternalRun<T>>, rs: Seq<Seq<T>>)
    requires
        tapes.len() == rs.len(),
        forall|i: int| 0 <= i < tapes.len() ==> (#[trigger] tapes[i]).items() == rs[i],
    ensures
        crate::merge::tapes_ms(tapes) == seqs_items(rs),
        crate::merge::tapes_total(tapes) == seqs_total(rs),
    decreases tapes.len(),
{
    if tapes.len() > 0 {
        assert(forall|i: int|
            0 <= i < tapes.drop_first().len() ==> (#[trigger] tapes.drop_first()[i]).items()
                == rs.drop_first()[i]);
        lemma_tapes_match_runs(tapes.drop_first(), rs.drop_first());
        assert(tapes[0].items() == rs[0]);
    }
}

/// One store's segment count is bounded by the total over all stores.
pub proof fn lemma_segment_count_bound<T>(views: Seq<SplitView<T>>, j: int)
    requires
        0 <= j < views.len(),
    ensures
        views[j].num_segments() <= views_segment_count(views),
        views_segment_count(views) >= 0,
    decreases views.len(),
{
    assert(views_segment_count(views) == views[0].num_segments() + views_segment_count(
        views.drop_first(),
    ));
    crate::run::split_backing::lemma_view_shape(views[0]);
    if j == 0 {
        lemma_segment_count_nonneg(views.drop_first());
    } else {
        assert(views.drop_first()[j - 1] == views[j]);
        lemma_segment_count_bound(views.drop_first(), j - 1);
    }
}

pub proof fn lemma_segment_count_nonneg<T>(views: Seq<SplitView<T>>)
    ensures
        views_segment_count(views) >= 0,
    decreases views.len(),
{
    if views.len() > 0 {
        lemma_segment_count_nonneg(views.drop_first());
        crate::run::split_backing::lemma_view_shape(views[0]);
        assert(views_segment_count(views) == views[0].num_segments() + views_segment_count(
            views.drop_first(),
        ));
    } else {
        assert(views_segment_count(views) == 0);
    }
}

impl<T> TapeCollection<T> {
    /// Spills one run: it gets an exclusive store while fewer than
    /// `max_files` exist, and is packed as a shared segment afterwards.
    /// When the call completes, `source` is empty.
    pub fn add_run(&mut self, source: &mut Vec<T>)
        requires
            old(self).wf(),
            old(self).runs().len() < usize::MAX - 1,
            seqs_total(old(self).runs()) + old(source)@.len() <= usize::MAX,
        ensures
            final(self).wf(),
            final(self).runs().to_multiset() == old(self).runs().to_multiset().insert(
                old(source)@,
            ),
            seqs_items(final(self).runs()) == seqs_items(old(self).runs()).add(
                old(source)@.to_multiset(),
            ),
            seqs_total(final(self).runs()) == seqs_total(old(self).runs()) + old(source)@.len(),
            final(self).runs_count() == old(self).runs_count() + 1,
            final(self).runs().len() == old(self).runs().len() + 1,
            final(source)@.len() == 0,
            final(self).spec_max_files() == old(self).spec_max_files(),
            final(self).num_files() == (if final(self).runs_count() < final(self).spec_max_files() {
                final(self).runs_count()
            } else {
                final(self).spec_max_files()
            }),
    {
        if self.next_tape_idx < self.max_files {
            self.add_run_simple(source);
        } else {
            self.add_run_shared(source);
        }
        self.next_tape_idx = self.next_tape_idx + 1;
    }

    /// Spills a run into a fresh exclusive store.
    fn add_run_simple(&mut self, source: &mut Vec<T>)
        requires
            old(self).wf(),
            old(self).runs_count() < old(self).spec_max_files(),
        ensures
            final(self).plain_tapes@ == old(self).plain_tapes@.push(final(self).plain_tapes@.last()),
            final(self).plain_tapes@.last().wf(),
            final(self).plain_tapes@.last().contents() == old(source)@,
            final(self).shared_views == old(self).shared_views,
            final(self).shared_tape_views == old(self).shared_tape_views,
            final(self).next_tape_idx == old(self).next_tape_idx,
            final(self).max_files == old(self).max_files,
            final(source)@.len() == 0,
            final(self).runs().to_multiset() == old(self).runs().to_multiset().insert(
                old(source)@,
            ),
            seqs_items(final(self).runs()) == seqs_items(old(self).runs()).add(
                old(source)@.to_multiset(),
            ),
            seqs_total(final(self).runs()) == seqs_total(old(self).runs()) + old(source)@.len(),
            final(self).runs().len() == old(self).runs().len() + 1,
    {
        let ghost src = source@;
        let num_entries = source.len();
        let mut store: Vec<T> = Vec::new();
        fill_backing(source, &mut store);
        proof {
            assert(Seq::<T>::empty() + src.reverse() =~= src.reverse());
            assert(src.reverse().reverse() =~= src);
        }
        let tape = Tape::from_source(num_entries, RunSource::from_reversed(store));
        let ghost pre = *self;
        self.plain_tapes.push(tape);
        proof {
            let a = Seq::new(pre.plain_tapes@.len(), |i: int| pre.plain_tapes@[i].contents());
            let a2 = Seq::new(
                self.plain_tapes@.len(),
                |i: int| self.plain_tapes@[i].contents(),
            );
            let v = views_runs(pre.shared_views@);
            assert(a2 =~= a.push(src));
            assert(pre.runs() == a + v);
            assert(self.runs() == a.push(src) + v);
            lemma_push_front_section(a, v, src);
        }
    }

    /// Packs a run into a shared store. The first packing call promotes
    /// one exclusive store into a shared backing; later calls pick an
    /// existing backing round-robin.
    fn add_run_shared(&mut self, source: &mut Vec<T>)
        requires
            old(self).wf(),
            old(self).runs_count() >= old(self).spec_max_files(),
            old(self).runs_count() < usize::MAX - 1,
            seqs_total(old(self).runs()) + old(source)@.len() <= usize::MAX,
        ensures
            final(self).next_tape_idx == old(self).next_tape_idx,
            final(self).max_files == old(self).max_files,
            final(source)@.len() == 0,
            final(self).runs().to_multiset() == old(self).runs().to_multiset().insert(
                old(source)@,
            ),
            seqs_items(final(self).runs()) == seqs_items(old(self).runs()).add(
                old(source)@.to_multiset(),
            ),
            seqs_total(final(self).runs()) == seqs_total(old(self).runs()) + old(source)@.len(),
            final(self).runs().len() == old(self).runs().len() + 1,
            final(self).num_files() == old(self).num_files(),
            forall|i: int| 0 <= i < final(self).plain_tapes@.len() ==> (
            #[trigger] final(self).plain_tapes@[i]).wf(),
            forall|i: int| 0 <= i < final(self).shared_views@.len() ==> (
            #[trigger] final(self).shared_views@[i]).wf(),
            forall|i: int| 0 <= i < final(self).shared_tape_views@.len() ==> (
            #[trigger] final(self).shared_tape_views@[i]) < final(self).shared_views@.len(),
            final(self).shared_tape_views@.len() == views_segment_count(final(self).shared_views@),
            final(self).plain_tapes@.len() == 0 ==> (final(self).shared_tape_views@.len()
                >= final(self).spec_max_files()
                || final(self).runs().len() < final(self).spec_max_files()),
            final(self).plain_tapes@.len() <= old(self).plain_tapes@.len(),
    {
        let ghost src = source@;
        let ghost pre = *self;
        let selected: usize;
        if self.plain_tapes.len() > 0 {
            // promote one exclusive store into a shared backing
            let tape = self.plain_tapes.pop().unwrap();
            let ghost promoted = tape.contents();
            let backing = tape.into_backing();
            let view = SplitView::new(backing.data);
            proof {
                assert(view.segment(0) == promoted);
                assert(view_segments(view) =~= seq![promoted]);
            }
            self.shared_views.push(view);
            let idx = self.shared_views.len() - 1;
            self.shared_tape_views.push(idx);
            selected = idx;
            proof {
                let a2 = Seq::new(
                    self.plain_tapes@.len(),
                    |i: int| self.plain_tapes@[i].contents(),
                );
                let a = Seq::new(pre.plain_tapes@.len(), |i: int| pre.plain_tapes@[i].contents());
                let v = views_runs(pre.shared_views@);
                assert(a =~= a2.push(promoted));
                lemma_views_push(pre.shared_views@, view);
                assert(views_runs(self.shared_views@) =~= v + seq![promoted]);
                lemma_move_last_to_views(a2, v, promoted);
                assert(pre.runs() == a2.push(promoted) + v);
                assert(self.runs() =~= a2 + (v + seq![promoted]));
                lemma_views_runs_len(pre.shared_views@);
                lemma_views_runs_len(self.shared_views@);
            }
        } else {
            let pos = self.next_tape_idx % self.max_files;
            proof {
                assert(self.next_tape_idx % self.max_files < self.max_files) by (nonlinear_arith)
                    requires
                        self.max_files >= 1,
                ;
                lemma_views_runs_len(self.shared_views@);
                lemma_seqs_concat(
                    Seq::new(self.plain_tapes@.len(), |i: int| self.plain_tapes@[i].contents()),
                    views_runs(self.shared_views@),
                );
            }
            selected = self.shared_tape_views[pos];
        }
        let ghost mid = *self;
        proof {
            // the shared store keeps fewer items than all runs, and
            // fewer segments than runs were spilled
            lemma_view_total_bound(mid.shared_views@, selected as int);
            lemma_segment_count_bound(mid.shared_views@, selected as int);
            lemma_views_runs_len(mid.shared_views@);
            let a = Seq::new(mid.plain_tapes@.len(), |i: int| mid.plain_tapes@[i].contents());
            lemma_seqs_concat(a, views_runs(mid.shared_views@));
            lemma_seqs_total_nonneg(a);
        }
        let view = vstd::std_specs::vec::vec_index_mut(&mut self.shared_views, selected);
        let mut w = view.add_segment();
        let ghost vi = *view;
        view.fill_segment(&mut w, source);
        self.shared_tape_views.push(selected);
        proof {
            let v2 = self.shared_views@[selected as int];
            let v1 = mid.shared_views@[selected as int];
            crate::run::split_backing::lemma_view_shape(v1);
            assert forall|i: int| 0 <= i < v1.num_segments() implies v2.segment(i) == v1.segment(
                i,
            ) by {
                assert(v2.segment(i) == vi.segment(i));
                assert(vi.segment(i) == v1.segment(i));
            }
            assert(v2.segment(v1.num_segments()) == src + vi.segment(v1.num_segments()));
            assert(src + Seq::<T>::empty() =~= src);
            assert(view_segments(v2) =~= view_segments(v1).push(src));
            assert(self.shared_views@ =~= mid.shared_views@.update(selected as int, v2));
            lemma_views_update(mid.shared_views@, selected as int, v2, src);
            let a = Seq::new(mid.plain_tapes@.len(), |i: int| mid.plain_tapes@[i].contents());
            let a2 = Seq::new(self.plain_tapes@.len(), |i: int| self.plain_tapes@[i].contents());
            assert(a2 =~= a);
            lemma_insert_back_section(
                a,
                views_runs(mid.shared_views@),
                views_runs(self.shared_views@),
                src,
            );
            assert(mid.runs() == a + views_runs(mid.shared_views@));
            assert(self.runs() == a + views_runs(self.shared_views@));
            lemma_views_runs_len(self.shared_views@);
            lemma_views_runs_len(mid.shared_views@);
            broadcast use vstd::seq_lib::group_to_multiset_ensures;

            assert(self.runs().len() == self.runs().to_multiset().len());
            assert(pre.runs().len() == pre.runs().to_multiset().len());
            assert(self.runs().to_multiset().len() == pre.runs().to_multiset().len() + 1);
        }
    }
}

impl<T> TapeCollection<T> {
    /// Opens every spilled run as a buffered file run, splitting the
    /// read-ahead budget evenly (at least one item each), exclusive
    /// stores first and then the segments of each shared store.
    pub fn into_tapes(self, read_buffer_size: usize) -> (r: Vec<ExternalRun<T>>)
        requires
            self.wf(),
            read_buffer_size >= 1,
        ensures
            r@.len() == self.runs().len(),
            forall|i: int| 0 <= i < r@.len() ==> (#[trigger] r@[i]).wf(),
            forall|i: int| 0 <= i < r@.len() ==> (#[trigger] r@[i]).items() == self.runs()[i],
    {
        let ghost pre = self;
        let ghost all = self.runs();
        let ghost a = Seq::new(pre.plain_tapes@.len(), |i: int| pre.plain_tapes@[i].contents());
        let ghost vruns = views_runs(pre.shared_views@);
        proof {
            lemma_views_runs_len(self.shared_views@);
            assert(all == a + vruns);
        }
        let num_tapes = self.plain_tapes.len() + self.shared_tape_views.len();
        if num_tapes == 0 {
            proof {
                assert(all =~= Seq::<Seq<T>>::empty());
            }
            return Vec::new();
        }
        let mut read_buffer_items = read_buffer_size / num_tapes;
        if read_buffer_items < 1 {
            read_buffer_items = 1;
        }
        let mut result: Vec<ExternalRun<T>> = Vec::new();
        let mut plains_rev = crate::run::reverse_vec(self.plain_tapes);
        proof {
            assert(forall|i: int|
                0 <= i < plains_rev@.len() ==> #[trigger] plains_rev@[i] == pre.plain_tapes@[a.len()
                    - 1 - i]);
        }
        while plains_rev.len() > 0
            invariant
                read_buffer_items >= 1,
                plains_rev@.len() + result@.len() == a.len(),
                forall|i: int|
                    0 <= i < plains_rev@.len() ==> (#[trigger] plains_rev@[i]).wf()
                        && plains_rev@[i].contents() == a[a.len() - 1 - i],
                forall|i: int| 0 <= i < result@.len() ==> (#[trigger] result@[i]).wf(),
                forall|i: int| 0 <= i < result@.len() ==> (#[trigger] result@[i]).items() == a[i],
            decreases plains_rev@.len(),
        {
            let t = plains_rev.pop().unwrap();
            let run = ExternalRun::from_tape(t, read_buffer_items);
            result.push(run);
        }
        let mut views_rev = crate::run::reverse_vec(self.shared_views);
        proof {
            assert(views_rev@.reverse() =~= pre.shared_views@);
            assert(vruns.skip(0) =~= vruns);
            assert(forall|i: int|
                0 <= i < result@.len() ==> (#[trigger] result@[i]).items() == (a + vruns)[i]);
        }
        while views_rev.len() > 0
            invariant
                read_buffer_items >= 1,
                forall|i: int| 0 <= i < views_rev@.len() ==> (#[trigger] views_rev@[i]).wf(),
                result@.len() >= a.len(),
                result@.len() - a.len() <= vruns.len(),
                views_runs(views_rev@.reverse()) == vruns.skip(result@.len() - a.len()),
                forall|i: int| 0 <= i < result@.len() ==> (#[trigger] result@[i]).wf(),
                forall|i: int|
                    0 <= i < result@.len() ==> (#[trigger] result@[i]).items() == (a + vruns)[i],
            decreases views_rev@.len(),
        {
            let ghost prefix_done = (result@.len() - a.len()) as int;
            let ghost rev_pre = views_rev@;
            let view = views_rev.pop().unwrap();
            let ghost segs = view_segments(view);
            proof {
                assert(rev_pre.reverse() =~= seq![view] + views_rev@.reverse());
                lemma_views_split_first(view, views_rev@.reverse());
                assert(segs + views_runs(views_rev@.reverse()) == vruns.skip(prefix_done));
                crate::run::split_backing::lemma_view_shape(view);
                assert forall|d: int| 0 <= d < segs.len() implies vruns[prefix_done + d]
                    == segs[d] by {
                    assert(vruns.skip(prefix_done)[d] == segs[d]);
                }
                assert((segs + views_runs(views_rev@.reverse())).len() == vruns.skip(
                    prefix_done,
                ).len());
                assert(segs.len() + views_runs(views_rev@.reverse()).len() == vruns.len()
                    - prefix_done);
                assert(prefix_done + segs.len() <= vruns.len());
                assert((segs + views_runs(views_rev@.reverse())).skip(segs.len() as int)
                    =~= views_runs(views_rev@.reverse()));
                assert(vruns.skip(prefix_done).skip(segs.len() as int) =~= vruns.skip(
                    prefix_done + segs.len(),
                ));
                assert(vruns.skip(prefix_done + segs.len()) =~= views_runs(views_rev@.reverse()));
            }
            let sources = view.into_sources();
            let mut srcs_rev = crate::run::reverse_vec(sources);
            proof {
                assert(forall|i: int|
                    0 <= i < srcs_rev@.len() ==> (#[trigger] srcs_rev@[i]).pending() == segs[segs.len()
                        - 1 - i]);
            }
            while srcs_rev.len() > 0
                invariant
                    read_buffer_items >= 1,
                    srcs_rev@.len() + (result@.len() - a.len() - prefix_done) == segs.len(),
                    result@.len() - a.len() >= prefix_done >= 0,
                    prefix_done + segs.len() <= vruns.len(),
                    forall|d: int| 0 <= d < segs.len() ==> #[trigger] vruns[prefix_done + d] == segs[d],
                    forall|i: int|
                        0 <= i < srcs_rev@.len() ==> (#[trigger] srcs_rev@[i]).pending()
                            == segs[segs.len() - 1 - i],
                    forall|i: int| 0 <= i < result@.len() ==> (#[trigger] result@[i]).wf(),
                    forall|i: int|
                        0 <= i < result@.len() ==> (#[trigger] result@[i]).items() == (a + vruns)[i],
                decreases srcs_rev@.len(),
            {
                let src = srcs_rev.pop().unwrap();
                let n = src.data.len();
                proof {
                    assert(src.pending().len() == src.data@.len());
                }
                let tape = Tape::from_source(n, src);
                let run = ExternalRun::from_tape(tape, read_buffer_items);
                proof {
                    let done = (result@.len() - a.len() - prefix_done) as int;
                    assert(run.items() == segs[done]);
                    assert((a + vruns)[result@.len() as int] == vruns[prefix_done + done]);
                }
                result.push(run);
            }
        }
        proof {
            assert(views_rev@.reverse() =~= Seq::<SplitView<T>>::empty());
            assert(views_runs(Seq::<SplitView<T>>::empty()) == Seq::<Seq<T>>::empty());
            assert(vruns.skip(result@.len() - a.len()).len() == 0);
            assert(result@.len() == a.len() + vruns.len());
        }
        result
    }
}

/// Splitting off the first store splits its segments off the front.
pub proof fn lemma_views_split_first<T>(v: SplitView<T>, rest: Seq<SplitView<T>>)
    ensures
        views_runs(seq![v] + rest) == view_segments(v) + views_runs(rest),
{
    let s = seq![v] + rest;
    assert(s[0] == v);
    assert(s.drop_first() =~= rest);
    assert(s.len() > 0);
    assert(views_runs(s) == view_segments(s[0]) + views_runs(s.drop_first()));
}

/// Moving the last front run to the back section keeps the whole,
/// as a multiset.
proof fn lemma_move_last_to_views<T>(a: Seq<Seq<T>>, v: Seq<Seq<T>>, p: Seq<T>)
    ensures
        (a + (v + seq![p])).to_multiset() == (a.push(p) + v).to_multiset(),
        seqs_items(a + (v + seq![p])) == seqs_items(a.push(p) + v),
        seqs_total(a + (v + seq![p])) == seqs_total(a.push(p) + v),
{
    broadcast use vstd::seq_lib::group_to_multiset_ensures;

    vstd::seq_lib::lemma_multiset_commutative(a, v + seq![p]);
    vstd::seq_lib::lemma_multiset_commutative(v, seq![p]);
    vstd::seq_lib::lemma_multiset_commutative(a.push(p), v);
    assert(a.push(p).to_multiset() =~= a.to_multiset().insert(p));
    assert(seq![p].to_multiset() =~= Multiset::<Seq<T>>::empty().insert(p)) by {
        assert(seq![p].drop_first() =~= Seq::<Seq<T>>::empty());
        assert(seq![p] =~= Seq::<Seq<T>>::empty().push(p));
        assert(Seq::<Seq<T>>::empty().push(p).to_multiset() =~= Seq::<Seq<
            T,
        >>::empty().to_multiset().insert(p));
    }
    assert(a.to_multiset().add(v.to_multiset().add(seq![p].to_multiset())) =~= a.to_multiset().insert(
        p,
    ).add(v.to_multiset()));
    lemma_seqs_concat(a, v + seq![p]);
    lemma_seqs_concat(v, seq![p]);
    lemma_seqs_concat(a.push(p), v);
    lemma_seqs_push(a, p);
    assert(seqs_items(seq![p]) == p.to_multiset().add(Multiset::<T>::empty())) by {
        assert(seq![p].drop_first() =~= Seq::<Seq<T>>::empty());
        assert(seq![p][0] == p);
        assert(seqs_items(seq![p]) == seq![p][0].to_multiset().add(
            seqs_items(seq![p].drop_first()),
        ));
        assert(seqs_items(seq![p].drop_first()) == Multiset::<T>::empty());
    }
    assert(seqs_items(a).add(seqs_items(v).add(p.to_multiset().add(Multiset::<T>::empty())))
        =~= seqs_items(a).add(p.to_multiset()).add(seqs_items(v)));
    assert(seqs_total(seq![p]) == p.len() + seqs_total(seq![p].drop_first()));
    assert(seq![p].drop_first() =~= Seq::<Seq<T>>::empty());
}

/// Inserting a run into the back section inserts it into the whole.
proof fn lemma_insert_back_section<T>(a: Seq<Seq<T>>, v: Seq<Seq<T>>, v2: Seq<Seq<T>>, s: Seq<T>)
    requires
        v2.to_multiset() == v.to_multiset().insert(s),
        seqs_items(v2) == seqs_items(v).add(s.to_multiset()),
        seqs_total(v2) == seqs_total(v) + s.len(),
    ensures
        (a + v2).to_multiset() == (a + v).to_multiset().insert(s),
        seqs_items(a + v2) == seqs_items(a + v).add(s.to_multiset()),
        seqs_total(a + v2) == seqs_total(a + v) + s.len(),
{
    vstd::seq_lib::lemma_multiset_commutative(a, v2);
    vstd::seq_lib::lemma_multiset_commutative(a, v);
    assert(a.to_multiset().add(v.to_multiset().insert(s)) =~= a.to_multiset().add(
        v.to_multiset(),
    ).insert(s));
    lemma_seqs_concat(a, v2);
    lemma_seqs_concat(a, v);
    assert(seqs_items(a).add(seqs_items(v).add(s.to_multiset())) =~= seqs_items(a).add(
        seqs_items(v),
    ).add(s.to_multiset()));
}

/// Pushing a run onto the front section of a split run sequence
/// inserts it, as a multiset, into the whole.
proof fn lemma_push_front_section<T>(a: Seq<Seq<T>>, v: Seq<Seq<T>>, s: Seq<T>)
    ensures
        (a.push(s) + v).to_multiset() == (a + v).to_multiset().insert(s),
        seqs_items(a.push(s) + v) == seqs_items(a + v).add(s.to_multiset()),
        seqs_total(a.push(s) + v) == seqs_total(a + v) + s.len(),
{
    broadcast use vstd::seq_lib::group_to_multiset_ensures;

    vstd::seq_lib::lemma_multiset_commutative(a.push(s), v);
    vstd::seq_lib::lemma_multiset_commutative(a, v);
    assert(a.push(s).to_multiset() =~= a.to_multiset().insert(s));
    assert(a.to_multiset().insert(s).add(v.to_multiset()) =~= a.to_multiset().add(
        v.to_multiset(),
    ).insert(s));
    lemma_seqs_concat(a.push(s), v);
    lemma_seqs_concat(a, v);
    lemma_seqs_push(a, s);
    assert(seqs_items(a).add(s.to_multiset()).add(seqs_items(v)) =~= seqs_items(a).add(
        seqs_items(v),
    ).add(s.to_multiset()));
}

} // verus!

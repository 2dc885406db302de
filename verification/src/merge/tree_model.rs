//! The mathematical model of the loser tree: the recursive decomposition
//! of the leaf range into subtrees, the ordering on tape heads, and the
//! tournament invariant that ties the stored losers to the current winner.

use vstd::prelude::*;

use crate::merge::spec_previous_power_of_two;
use crate::orderer::Orderer;
use crate::run::Run;

verus! {

/// The largest power of two less than or equal to `m`, as an int.
pub open spec fn pp2(m: int) -> int {
    spec_previous_power_of_two(m as nat) as int
}

pub proof fn lemma_pp2_bounds(m: int)
    requires
        m >= 1,
    ensures
        1 <= pp2(m),
        pp2(m) <= m,
        m < 2 * pp2(m),
    decreases m,
{
    if m >= 2 {
        lemma_pp2_bounds(m / 2);
    }
}

/// pp2 is characterised by: it is the unique power of two `y`
/// with `y <= x < 2y`.
pub proof fn lemma_pp2_unique(x: int, y: int)
    requires
        1 <= y,
        pp2(y) == y,
        y <= x,
        x < 2 * y,
    ensures
        pp2(x) == y,
    decreases x,
{
    if x < 2 {
        assert(y == 1);
    } else {
        if y == 1 {
            assert(x < 2);
        } else {
            lemma_pow2_half(y);
            lemma_pp2_unique(x / 2, y / 2);
        }
    }
}

/// pp2 always returns a power of two.
pub proof fn lemma_pp2_idem(m: int)
    requires
        m >= 1,
    ensures
        pp2(pp2(m)) == pp2(m),
    decreases m,
{
    if m < 2 {
    } else {
        lemma_pp2_idem(m / 2);
        lemma_pp2_bounds(m / 2);
        let g = pp2(m / 2);
        assert(pp2(2 * g) == 2 * pp2((2 * g) / 2));
    }
}

/// Halving a power of two gives a power of two.
pub proof fn lemma_pow2_half(f: int)
    requires
        f >= 2,
        pp2(f) == f,
    ensures
        f % 2 == 0,
        pp2(f / 2) == f / 2,
{
    assert(pp2(f) == 2 * pp2(f / 2));
}

/// The number of leaves that the builder assigns to the left subtree
/// of a complete tree over `m` leaves. The raw split is clamped to
/// `[1, m - 1]`; for `m >= 2` the clamp never takes effect
/// (see `lemma_left_size`), but it keeps the recursive range
/// decompositions below well-founded by construction.
pub open spec fn left_size(m: int) -> int
    recommends
        m >= 2,
{
    let raw = left_size_raw(m);
    if raw < 1 {
        1
    } else if raw > m - 1 {
        m - 1
    } else {
        raw
    }
}

/// The split that the builder actually computes.
pub open spec fn left_size_raw(m: int) -> int {
    let f = pp2(m);
    if f == m {
        m / 2
    } else {
        let ov = 2 * (m - f);
        if ov >= f {
            f
        } else {
            m - f / 2
        }
    }
}

pub proof fn lemma_left_size(m: int)
    requires
        m >= 2,
    ensures
        1 <= left_size(m),
        left_size(m) < m,
        left_size(m) == left_size_raw(m),
    {
    lemma_pp2_bounds(m);
    lemma_pp2_idem(m);
    let f = pp2(m);
    if f == m {
        assert(m / 2 >= 1 && m / 2 < m);
    } else {
        if 2 * (m - f) >= f {
        } else {
            assert(f >= 2);
            lemma_pow2_half(f);
        }
    }
}

/// Which side of the split is the perfect subtree.
pub proof fn lemma_split_shape(m: int)
    requires
        m >= 2,
    ensures
        ({
            let ls = left_size(m);
            let rs = m - ls;
            let f = pp2(m);
            &&& 1 <= ls < m
            &&& 1 <= rs < m
            &&& (f == m ==> pp2(ls) == ls && pp2(rs) == rs)
            &&& (f != m && 2 * (m - f) >= f ==> pp2(ls) == ls)
            &&& (f != m && 2 * (m - f) < f ==> pp2(rs) == rs)
        }),
{
    lemma_left_size(m);
    lemma_pp2_bounds(m);
    lemma_pp2_idem(m);
    let f = pp2(m);
    if f == m {
        lemma_pow2_half(m);
        assert(m - m / 2 == m / 2);
    } else {
        if 2 * (m - f) >= f {
        } else {
            assert(f >= 2);
            lemma_pow2_half(f);
            assert(m - left_size(m) == f / 2);
        }
    }
}

/// The head of tape `i`: its first remaining item, or None once exhausted.
pub open spec fn head<T, R: Run<T>>(tapes: Seq<R>, i: int) -> Option<T> {
    if tapes[i].items().len() == 0 {
        None
    } else {
        Some(tapes[i].items()[0])
    }
}

/// Comparison of optional heads under an orderer: an exhausted tape
/// compares greater than any live head.
pub open spec fn opt_le<T, O: Orderer<T>>(o: O, x: Option<T>, y: Option<T>) -> bool {
    match y {
        None => true,
        Some(b) => match x {
            None => false,
            Some(a) => o.le(a, b),
        },
    }
}

/// The head of tape `i` is at most the head of tape `j`,
/// with exhausted tapes counting as infinitely large.
pub open spec fn head_le<T, R: Run<T>, O: Orderer<T>>(
    tapes: Seq<R>,
    o: O,
    i: int,
    j: int,
) -> bool {
    opt_le(o, head(tapes, i), head(tapes, j))
}

pub proof fn lemma_opt_le_total<T, O: Orderer<T>>(o: O, x: Option<T>, y: Option<T>)
    ensures
        opt_le(o, x, y) || opt_le(o, y, x),
{
    match (x, y) {
        (Some(a), Some(b)) => {
            o.le_total(a, b);
        },
        _ => {},
    }
}

pub proof fn lemma_opt_le_trans<T, O: Orderer<T>>(o: O, x: Option<T>, y: Option<T>, z: Option<T>)
    requires
        opt_le(o, x, y),
        opt_le(o, y, z),
    ensures
        opt_le(o, x, z),
{
    match (x, y, z) {
        (Some(a), Some(b), Some(c)) => {
            o.le_transitive(a, b, c);
        },
        _ => {},
    }
}

/// Pure tree arithmetic: `u` lies on the parent chain starting at `v`.
pub open spec fn is_desc(u: int, v: int) -> bool
    decreases u,
{
    if u <= 0 {
        u == v
    } else {
        u == v || (u > v && is_desc((u - 1) / 2, v))
    }
}

pub proof fn lemma_desc_ge(u: int, v: int)
    requires
        0 <= u,
        is_desc(u, v),
    ensures
        u >= v,
    decreases u,
{
    if u != v {
        lemma_desc_ge((u - 1) / 2, v);
    }
}

pub proof fn lemma_desc_trans(u: int, v: int, w: int)
    requires
        0 <= u,
        0 <= v,
        is_desc(u, v),
        is_desc(v, w),
    ensures
        is_desc(u, w),
    decreases u,
{
    if u == v {
    } else {
        lemma_desc_trans((u - 1) / 2, v, w);
        lemma_desc_ge(u, v);
        lemma_desc_ge(v, w);
    }
}

/// No node descends from both children of one parent.
pub proof fn lemma_desc_sibling(u: int, p: int)
    requires
        0 <= u,
        0 <= p,
        is_desc(u, 2 * p + 1),
    ensures
        !is_desc(u, 2 * p + 2),
    decreases u,
{
    if u == 2 * p + 1 {
        if is_desc(u, 2 * p + 2) {
            lemma_desc_ge(u, 2 * p + 2);
        }
    } else if u == 2 * p + 2 {
        assert(is_desc((u - 1) / 2, 2 * p + 1));
        assert((u - 1) / 2 == p);
        lemma_desc_ge(p, 2 * p + 1);
    } else {
        lemma_desc_sibling((u - 1) / 2, p);
    }
}

/// The internal nodes of the subtree that covers leaves `[lo, hi)`
/// rooted at array position `v`.
pub open spec fn in_tree(v: int, lo: int, hi: int, u: int) -> bool
    decreases hi - lo,
{
    if hi - lo <= 1 {
        false
    } else {
        let mid = lo + left_size(hi - lo);
        u == v || in_tree(2 * v + 1, lo, mid, u) || in_tree(2 * v + 2, mid, hi, u)
    }
}

pub proof fn lemma_in_tree_desc(v: int, lo: int, hi: int, u: int)
    requires
        0 <= v,
        hi - lo >= 1,
        in_tree(v, lo, hi, u),
    ensures
        is_desc(u, v),
        0 <= u,
    decreases hi - lo,
{
    lemma_left_size(hi - lo);
    let mid = lo + left_size(hi - lo);
    assert(is_desc(v, v));
    assert(is_desc(2 * v + 1, v));
    assert(is_desc(2 * v + 2, v));
    if u == v {
    } else if in_tree(2 * v + 1, lo, mid, u) {
        lemma_in_tree_desc(2 * v + 1, lo, mid, u);
        lemma_desc_trans(u, 2 * v + 1, v);
    } else {
        lemma_in_tree_desc(2 * v + 2, mid, hi, u);
        lemma_desc_trans(u, 2 * v + 2, v);
    }
}

/// The winner of the left half of the subtree at `v`: the champion
/// if it comes from the left half, else the recorded loser.
pub open spec fn left_winner(lt: Seq<u32>, v: int, lo: int, hi: int, champ: int) -> int {
    let mid = lo + left_size(hi - lo);
    if champ < mid {
        champ
    } else {
        lt[v] as int
    }
}

/// The winner of the right half of the subtree at `v`.
pub open spec fn right_winner(lt: Seq<u32>, v: int, lo: int, hi: int, champ: int) -> int {
    let mid = lo + left_size(hi - lo);
    if champ < mid {
        lt[v] as int
    } else {
        champ
    }
}

/// The tournament invariant for the subtree rooted at array position `v`
/// over the leaf range `[lo, hi)`: `champ` is the surviving winner of the
/// subtree, every internal node records the loser of the match played
/// there, and the champion's head is at most the head of the loser it
/// defeated.
pub open spec fn tree_ok<T, R: Run<T>, O: Orderer<T>>(
    lt: Seq<u32>,
    tapes: Seq<R>,
    o: O,
    v: int,
    lo: int,
    hi: int,
    champ: int,
) -> bool
    decreases hi - lo,
{
    if hi - lo <= 1 {
        champ == lo
    } else {
        let mid = lo + left_size(hi - lo);
        let cl = left_winner(lt, v, lo, hi, champ);
        let cr = right_winner(lt, v, lo, hi, champ);
        &&& 0 <= v < lt.len()
        &&& lo <= champ < hi
        &&& tree_ok(lt, tapes, o, 2 * v + 1, lo, mid, cl)
        &&& tree_ok(lt, tapes, o, 2 * v + 2, mid, hi, cr)
        &&& head_le(tapes, o, champ, lt[v] as int)
    }
}

/// The champion of a subtree has the least head of all leaves it covers.
pub proof fn lemma_tree_min<T, R: Run<T>, O: Orderer<T>>(
    lt: Seq<u32>,
    tapes: Seq<R>,
    o: O,
    v: int,
    lo: int,
    hi: int,
    champ: int,
    l: int,
)
    requires
        hi - lo >= 1,
        tree_ok(lt, tapes, o, v, lo, hi, champ),
        lo <= l < hi,
    ensures
        head_le(tapes, o, champ, l),
    decreases hi - lo,
{
    if hi - lo <= 1 {
        lemma_opt_le_total(o, head(tapes, champ), head(tapes, l));
    } else {
        lemma_left_size(hi - lo);
        let mid = lo + left_size(hi - lo);
        let cl = left_winner(lt, v, lo, hi, champ);
        let cr = right_winner(lt, v, lo, hi, champ);
        if l < mid {
            lemma_tree_min(lt, tapes, o, 2 * v + 1, lo, mid, cl, l);
            if champ >= mid {
                lemma_opt_le_trans(
                    o,
                    head(tapes, champ),
                    head(tapes, lt[v] as int),
                    head(tapes, l),
                );
            }
        } else {
            lemma_tree_min(lt, tapes, o, 2 * v + 2, mid, hi, cr, l);
            if champ < mid {
                lemma_opt_le_trans(
                    o,
                    head(tapes, champ),
                    head(tapes, lt[v] as int),
                    head(tapes, l),
                );
            }
        }
    }
}

/// The stored loser of a subtree root is one of its leaves.
pub proof fn lemma_tree_loser_range<T, R: Run<T>, O: Orderer<T>>(
    lt: Seq<u32>,
    tapes: Seq<R>,
    o: O,
    v: int,
    lo: int,
    hi: int,
    champ: int,
)
    requires
        hi - lo >= 2,
        tree_ok(lt, tapes, o, v, lo, hi, champ),
    ensures
        lo <= (lt[v] as int) < hi,
{
    lemma_left_size(hi - lo);
    let mid = lo + left_size(hi - lo);
    if champ < mid {
        lemma_tree_champ_range(lt, tapes, o, 2 * v + 2, mid, hi, right_winner(lt, v, lo, hi, champ));
    } else {
        lemma_tree_champ_range(lt, tapes, o, 2 * v + 1, lo, mid, left_winner(lt, v, lo, hi, champ));
    }
}

/// The champion of a subtree is one of its leaves.
pub proof fn lemma_tree_champ_range<T, R: Run<T>, O: Orderer<T>>(
    lt: Seq<u32>,
    tapes: Seq<R>,
    o: O,
    v: int,
    lo: int,
    hi: int,
    champ: int,
)
    requires
        hi - lo >= 1,
        tree_ok(lt, tapes, o, v, lo, hi, champ),
    ensures
        lo <= champ < hi,
{
}

/// `tree_ok` only reads the loser entries of its own internal nodes:
/// it survives any change to entries outside the subtree.
pub proof fn lemma_tree_frame_lt<T, R: Run<T>, O: Orderer<T>>(
    lt: Seq<u32>,
    lt2: Seq<u32>,
    tapes: Seq<R>,
    o: O,
    v: int,
    lo: int,
    hi: int,
    champ: int,
)
    requires
        hi - lo >= 1,
        0 <= v,
        tree_ok(lt, tapes, o, v, lo, hi, champ),
        lt2.len() == lt.len(),
        forall|u: int| #[trigger] in_tree(v, lo, hi, u) ==> 0 <= u < lt.len() && lt2[u] == lt[u],
    ensures
        tree_ok(lt2, tapes, o, v, lo, hi, champ),
    decreases hi - lo,
{
    if hi - lo <= 1 {
    } else {
        lemma_left_size(hi - lo);
        let mid = lo + left_size(hi - lo);
        let cl = left_winner(lt, v, lo, hi, champ);
        let cr = right_winner(lt, v, lo, hi, champ);
        assert(in_tree(v, lo, hi, v));
        assert(forall|u: int| #[trigger] in_tree(2 * v + 1, lo, mid, u) ==> in_tree(v, lo, hi, u));
        assert(forall|u: int| #[trigger] in_tree(2 * v + 2, mid, hi, u) ==> in_tree(v, lo, hi, u));
        lemma_tree_frame_lt(lt, lt2, tapes, o, 2 * v + 1, lo, mid, cl);
        lemma_tree_frame_lt(lt, lt2, tapes, o, 2 * v + 2, mid, hi, cr);
        assert(left_winner(lt2, v, lo, hi, champ) == cl);
        assert(right_winner(lt2, v, lo, hi, champ) == cr);
    }
}

/// `tree_ok` only reads the heads of the tapes in its own leaf range:
/// it survives any change to the items of tapes outside `[lo, hi)`.
pub proof fn lemma_tree_frame_tapes<T, R: Run<T>, O: Orderer<T>>(
    lt: Seq<u32>,
    tapes: Seq<R>,
    tapes2: Seq<R>,
    o: O,
    v: int,
    lo: int,
    hi: int,
    champ: int,
)
    requires
        hi - lo >= 1,
        tree_ok(lt, tapes, o, v, lo, hi, champ),
        tapes2.len() == tapes.len(),
        0 <= lo,
        forall|i: int| lo <= i < hi ==> #[trigger] tapes2[i].items() == tapes[i].items(),
    ensures
        tree_ok(lt, tapes2, o, v, lo, hi, champ),
    decreases hi - lo,
{
    if hi - lo <= 1 {
    } else {
        lemma_left_size(hi - lo);
        let mid = lo + left_size(hi - lo);
        let cl = left_winner(lt, v, lo, hi, champ);
        let cr = right_winner(lt, v, lo, hi, champ);
        lemma_tree_frame_tapes(lt, tapes, tapes2, o, 2 * v + 1, lo, mid, cl);
        lemma_tree_frame_tapes(lt, tapes, tapes2, o, 2 * v + 2, mid, hi, cr);
        lemma_tree_loser_range(lt, tapes, o, v, lo, hi, champ);
        assert(head(tapes2, champ) == head(tapes, champ));
        assert(head(tapes2, lt[v] as int) == head(tapes, lt[v] as int));
    }
}

/// A path of tree positions `(node, lo, hi)` from a hole (first
/// element) up to the root (last element). Each step goes to the
/// parent node with the matching range split, and the sibling subtree
/// left behind satisfies the tournament invariant with the recorded
/// loser as its champion.
pub open spec fn path_ok<T, R: Run<T>, O: Orderer<T>>(
    lt: Seq<u32>,
    tapes: Seq<R>,
    o: O,
    path: Seq<(int, int, int)>,
    n: int,
) -> bool
    decreases path.len(),
{
    if path.len() == 0 {
        false
    } else if path.len() == 1 {
        path[0] == (0int, 0int, n)
    } else {
        let (u, lo, hi) = path[0];
        let (p, plo, phi) = path[1];
        let mid = plo + left_size(phi - plo);
        &&& path_ok(lt, tapes, o, path.drop_first(), n)
        &&& 0 <= p < lt.len()
        &&& phi - plo >= 2
        &&& (if u == 2 * p + 1 {
            &&& lo == plo
            &&& hi == mid
            &&& tree_ok(lt, tapes, o, 2 * p + 2, mid, phi, lt[p] as int)
        } else {
            &&& u == 2 * p + 2
            &&& lo == mid
            &&& hi == phi
            &&& tree_ok(lt, tapes, o, 2 * p + 1, plo, mid, lt[p] as int)
        })
    }
}

/// Every node on a valid path is a non-negative array index.
pub proof fn lemma_path_nonneg<T, R: Run<T>, O: Orderer<T>>(
    lt: Seq<u32>,
    tapes: Seq<R>,
    o: O,
    path: Seq<(int, int, int)>,
    n: int,
    k: int,
)
    requires
        path_ok(lt, tapes, o, path, n),
        0 <= k < path.len(),
    ensures
        0 <= path[k].0,
    decreases path.len(),
{
    if path.len() == 1 {
    } else {
        if k == 0 {
            lemma_path_nonneg(lt, tapes, o, path.drop_first(), n, 0);
        } else {
            lemma_path_nonneg(lt, tapes, o, path.drop_first(), n, k - 1);
        }
    }
}

/// A valid path survives a loser update at any descendant of its hole.
pub proof fn lemma_path_frame_lt<T, R: Run<T>, O: Orderer<T>>(
    lt: Seq<u32>,
    lt2: Seq<u32>,
    tapes: Seq<R>,
    o: O,
    path: Seq<(int, int, int)>,
    n: int,
    wnode: int,
)
    requires
        path_ok(lt, tapes, o, path, n),
        lt2.len() == lt.len(),
        forall|j: int| 0 <= j < lt.len() && j != wnode ==> lt2[j] == lt[j],
        is_desc(wnode, path[0].0),
        0 <= wnode,
    ensures
        path_ok(lt2, tapes, o, path, n),
    decreases path.len(),
{
    if path.len() <= 1 {
    } else {
        let (u, lo, hi) = path[0];
        let (p, plo, phi) = path[1];
        lemma_path_nonneg(lt, tapes, o, path, n, 0);
        lemma_path_nonneg(lt, tapes, o, path, n, 1);
        // the updated node is below the hole, hence below the parent too
        assert(is_desc(p, p));
        assert(is_desc(u, p));
        lemma_desc_trans(wnode, u, p);
        lemma_desc_ge(wnode, u);
        lemma_path_frame_lt(lt, lt2, tapes, o, path.drop_first(), n, wnode);
        // the sibling subtree cannot contain a descendant of the hole
        let mid = plo + left_size(phi - plo);
        let sib = if u == 2 * p + 1 {
            2 * p + 2
        } else {
            2 * p + 1
        };
        let (slo, shi) = if u == 2 * p + 1 {
            (mid, phi)
        } else {
            (plo, mid)
        };
        lemma_left_size(phi - plo);
        assert forall|j: int| #[trigger] in_tree(sib, slo, shi, j) implies 0 <= j < lt.len()
            && lt2[j] == lt[j] by {
            lemma_in_tree_desc(sib, slo, shi, j);
            if u == 2 * p + 1 {
                lemma_desc_sibling(wnode, p);
            } else {
                lemma_desc_sibling(j, p);
            }
            if j == wnode {
                lemma_desc_trans(wnode, u, u);
            }
            lemma_in_tree_bounds(lt, tapes, o, sib, slo, shi, lt[p] as int, j);
        }
        lemma_tree_frame_lt(lt, lt2, tapes, o, sib, slo, shi, lt[p] as int);
    }
}

/// Internal nodes of a subtree satisfying the invariant are valid indices.
pub proof fn lemma_in_tree_bounds<T, R: Run<T>, O: Orderer<T>>(
    lt: Seq<u32>,
    tapes: Seq<R>,
    o: O,
    v: int,
    lo: int,
    hi: int,
    champ: int,
    u: int,
)
    requires
        hi - lo >= 1,
        tree_ok(lt, tapes, o, v, lo, hi, champ),
        in_tree(v, lo, hi, u),
    ensures
        0 <= u < lt.len(),
    decreases hi - lo,
{
    if hi - lo <= 1 {
    } else {
        lemma_left_size(hi - lo);
        let mid = lo + left_size(hi - lo);
        if u == v {
        } else if in_tree(2 * v + 1, lo, mid, u) {
            lemma_in_tree_bounds(lt, tapes, o, 2 * v + 1, lo, mid,
                left_winner(lt, v, lo, hi, champ), u);
        } else {
            lemma_in_tree_bounds(lt, tapes, o, 2 * v + 2, mid, hi,
                right_winner(lt, v, lo, hi, champ), u);
        }
    }
}

/// A valid path only reads the heads of tapes: it survives any change
/// that keeps every tape's item sequence.
pub proof fn lemma_path_frame_tapes<T, R: Run<T>, O: Orderer<T>>(
    lt: Seq<u32>,
    tapes: Seq<R>,
    tapes2: Seq<R>,
    o: O,
    path: Seq<(int, int, int)>,
    n: int,
)
    requires
        path_ok(lt, tapes, o, path, n),
        tapes2.len() == tapes.len(),
        forall|i: int| 0 <= i < tapes.len() ==> #[trigger] tapes2[i].items() == tapes[i].items(),
        forall|k: int| 0 <= k < path.len() ==> 0 <= #[trigger] path[k].1 && path[k].2 <= tapes.len(),
    ensures
        path_ok(lt, tapes2, o, path, n),
    decreases path.len(),
{
    if path.len() <= 1 {
    } else {
        let (u, lo, hi) = path[0];
        let (p, plo, phi) = path[1];
        assert(forall|k: int| 0 <= k < path.drop_first().len() ==> 0 <= #[trigger] path.drop_first()[k].1
            && path.drop_first()[k].2 <= tapes.len());
        lemma_path_frame_tapes(lt, tapes, tapes2, o, path.drop_first(), n);
        let mid = plo + left_size(phi - plo);
        lemma_left_size(phi - plo);
        if u == 2 * p + 1 {
            lemma_tree_frame_tapes(lt, tapes, tapes2, o, 2 * p + 2, mid, phi, lt[p] as int);
        } else {
            lemma_tree_frame_tapes(lt, tapes, tapes2, o, 2 * p + 1, plo, mid, lt[p] as int);
        }
    }
}

/// All ranges on a valid path lie inside `[0, n]`.
pub proof fn lemma_path_ranges<T, R: Run<T>, O: Orderer<T>>(
    lt: Seq<u32>,
    tapes: Seq<R>,
    o: O,
    path: Seq<(int, int, int)>,
    n: int,
    k: int,
)
    requires
        path_ok(lt, tapes, o, path, n),
        0 <= k < path.len(),
        n >= 1,
    ensures
        0 <= path[k].1,
        path[k].1 < path[k].2,
        path[k].2 <= n,
    decreases path.len(), path.len() - k,
{
    if path.len() == 1 {
    } else if k >= 1 {
        lemma_path_ranges(lt, tapes, o, path.drop_first(), n, k - 1);
    } else {
        lemma_path_ranges(lt, tapes, o, path, n, 1);
        lemma_left_size(path[1].2 - path[1].1);
    }
}

/// The recursive position of leaf `l` in the decomposition of the
/// subtree at `(v, lo, hi)`.
pub open spec fn leaf_node_rec(v: int, lo: int, hi: int, l: int) -> int
    decreases hi - lo,
{
    if hi - lo <= 1 {
        v
    } else {
        let mid = lo + left_size(hi - lo);
        if l < mid {
            leaf_node_rec(2 * v + 1, lo, mid, l)
        } else {
            leaf_node_rec(2 * v + 2, mid, hi, l)
        }
    }
}

/// Walking down from the subtree root to the leaf holding the previous
/// winner `w`, collect the path from that leaf back up: the sibling
/// subtrees along the way keep the tournament invariant (with the
/// recorded losers as champions) even after the winner\'s tape has been
/// read, because the winner\'s leaf is not among their leaves.
pub proof fn lemma_peel<T, R: Run<T>, O: Orderer<T>>(
    lt: Seq<u32>,
    old_tapes: Seq<R>,
    tapes: Seq<R>,
    o: O,
    v: int,
    lo: int,
    hi: int,
    w: int,
    n: int,
    acc: Seq<(int, int, int)>,
) -> (path: Seq<(int, int, int)>)
    requires
        hi - lo >= 1,
        tree_ok(lt, old_tapes, o, v, lo, hi, w),
        acc.len() >= 1,
        acc[0] == (v, lo, hi),
        path_ok(lt, tapes, o, acc, n),
        lo <= w < hi,
        0 <= lo,
        hi <= tapes.len(),
        old_tapes.len() == tapes.len(),
        forall|i: int| 0 <= i < tapes.len() && i != w ==> #[trigger] tapes[i].items()
            == old_tapes[i].items(),
    ensures
        path.len() >= acc.len(),
        path_ok(lt, tapes, o, path, n),
        path[0] == (leaf_node_rec(v, lo, hi, w), w, w + 1),
        forall|k: int| 0 <= k < acc.len() ==> path[path.len() - acc.len() + k] == acc[k],
    decreases hi - lo,
{
    if hi - lo <= 1 {
        assert(w == lo);
        acc
    } else {
        lemma_left_size(hi - lo);
        let mid = lo + left_size(hi - lo);
        let cl = left_winner(lt, v, lo, hi, w);
        let cr = right_winner(lt, v, lo, hi, w);
        if w < mid {
            assert(cl == w);
            lemma_tree_frame_tapes(lt, old_tapes, tapes, o, 2 * v + 2, mid, hi, lt[v] as int);
            let acc2 = seq![(2 * v + 1, lo, mid)] + acc;
            assert(acc2.drop_first() =~= acc);
            assert(path_ok(lt, tapes, o, acc2, n));
            lemma_peel(lt, old_tapes, tapes, o, 2 * v + 1, lo, mid, w, n, acc2)
        } else {
            assert(cr == w);
            lemma_tree_frame_tapes(lt, old_tapes, tapes, o, 2 * v + 1, lo, mid, lt[v] as int);
            let acc2 = seq![(2 * v + 2, mid, hi)] + acc;
            assert(acc2.drop_first() =~= acc);
            assert(path_ok(lt, tapes, o, acc2, n));
            lemma_peel(lt, old_tapes, tapes, o, 2 * v + 2, mid, hi, w, n, acc2)
        }
    }
}

/// One step of replaying matches: the hole at `(u, lo, hi)` holds a
/// valid subtree with champion `w0`; playing the recorded loser of the
/// parent `p` against `w0` and storing the defeated one at `p` makes
/// the parent subtree valid with the surviving winner as champion.
pub proof fn lemma_replay_step<T, R: Run<T>, O: Orderer<T>>(
    lt: Seq<u32>,
    lt2: Seq<u32>,
    tapes: Seq<R>,
    o: O,
    u: int,
    lo: int,
    hi: int,
    p: int,
    plo: int,
    phi: int,
    w0: int,
    wnew: int,
)
    requires
        0 <= p < lt.len(),
        phi - plo >= 2,
        lt2.len() == lt.len(),
        ({
            let mid = plo + left_size(phi - plo);
            (u == 2 * p + 1 && lo == plo && hi == mid && tree_ok(
                lt,
                tapes,
                o,
                2 * p + 2,
                mid,
                phi,
                lt[p] as int,
            )) || (u == 2 * p + 2 && lo == mid && hi == phi && tree_ok(
                lt,
                tapes,
                o,
                2 * p + 1,
                plo,
                mid,
                lt[p] as int,
            ))
        }),
        tree_ok(lt, tapes, o, u, lo, hi, w0),
        hi - lo >= 1,
        (lt2 == lt.update(p, w0 as u32) && wnew == lt[p] as int && head_le(tapes, o, wnew, w0))
            || (lt2 == lt && wnew == w0 && head_le(tapes, o, wnew, lt2[p] as int)),
        0 <= w0,
        w0 <= u32::MAX,
    ensures
        tree_ok(lt2, tapes, o, p, plo, phi, wnew),
        plo <= wnew < phi,
{
    lemma_left_size(phi - plo);
    let mid = plo + left_size(phi - plo);
    lemma_tree_champ_range(lt, tapes, o, u, lo, hi, w0);
    let sib = if u == 2 * p + 1 {
        2 * p + 2
    } else {
        2 * p + 1
    };
    let (slo, shi) = if u == 2 * p + 1 {
        (mid, phi)
    } else {
        (plo, mid)
    };
    lemma_tree_champ_range(lt, tapes, o, sib, slo, shi, lt[p] as int);
    // both child subtrees survive the update at p, which lies below them
    assert forall|j: int| #[trigger] in_tree(u, lo, hi, j) implies 0 <= j < lt.len() && lt2[j]
        == lt[j] by {
        lemma_in_tree_desc(u, lo, hi, j);
        lemma_desc_ge(j, u);
        lemma_in_tree_bounds(lt, tapes, o, u, lo, hi, w0, j);
    }
    assert forall|j: int| #[trigger] in_tree(sib, slo, shi, j) implies 0 <= j < lt.len() && lt2[j]
        == lt[j] by {
        lemma_in_tree_desc(sib, slo, shi, j);
        lemma_desc_ge(j, sib);
        lemma_in_tree_bounds(lt, tapes, o, sib, slo, shi, lt[p] as int, j);
    }
    lemma_tree_frame_lt(lt, lt2, tapes, o, u, lo, hi, w0);
    lemma_tree_frame_lt(lt, lt2, tapes, o, sib, slo, shi, lt[p] as int);
    if lt2 == lt.update(p, w0 as u32) {
        assert(lt2[p] as int == w0);
    }
    if u == 2 * p + 1 {
        if wnew == lt[p] as int && lt2 == lt.update(p, w0 as u32) {
            // the challenger from the right half won
            assert(left_winner(lt2, p, plo, phi, wnew) == w0);
            assert(right_winner(lt2, p, plo, phi, wnew) == wnew);
        } else {
            assert(left_winner(lt2, p, plo, phi, wnew) == w0);
            assert(right_winner(lt2, p, plo, phi, wnew) == lt2[p] as int);
        }
    } else {
        if wnew == lt[p] as int && lt2 == lt.update(p, w0 as u32) {
            assert(right_winner(lt2, p, plo, phi, wnew) == w0);
            assert(left_winner(lt2, p, plo, phi, wnew) == wnew);
        } else {
            assert(right_winner(lt2, p, plo, phi, wnew) == w0);
            assert(left_winner(lt2, p, plo, phi, wnew) == lt2[p] as int);
        }
    }
}

} // verus!

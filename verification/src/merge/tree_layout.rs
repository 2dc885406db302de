//! The closed-form layout of the implicit loser tree: the position that
//! `TreeNode::leaf_for_winner` computes for a leaf coincides with the
//! position the recursive range decomposition assigns to it, and every
//! internal node of a tree over `n` leaves has array index at most `n - 2`.

use vstd::prelude::*;

use crate::merge::tree_model::{
    in_tree, leaf_node_rec, left_size, lemma_left_size, lemma_pow2_half, lemma_pp2_bounds,
    lemma_pp2_idem, lemma_pp2_unique, lemma_split_shape, pp2,
};

verus! {

/// The closed-form position of local leaf `j` in a subtree with `m`
/// leaves rooted at array position `v`.
pub open spec fn gleaf(v: int, m: int, j: int) -> int {
    let f = pp2(m);
    let ov = 2 * (m - f);
    if j < ov {
        2 * f * (v + 1) - 1 + j
    } else {
        f * (v + 1) + f - m - 1 + j
    }
}

/// The largest array position of any leaf of a subtree with `m` leaves
/// rooted at `v`.
pub open spec fn max_leaf_pos(v: int, m: int) -> int {
    let f = pp2(m);
    let ov = 2 * (m - f);
    if ov == 0 {
        (v + 2) * m - 2
    } else {
        2 * f * (v + 1) + ov - 2
    }
}

/// The split data of a complete subtree with `m >= 2` leaves:
/// sizes of the two halves and the power-of-two data of each.
proof fn lemma_split_data(m: int)
    requires
        m >= 2,
    ensures
        ({
            let f = pp2(m);
            let ov = 2 * (m - f);
            let ls = left_size(m);
            let rs = m - ls;
            &&& 1 <= ls < m
            &&& 1 <= rs < m
            &&& (f == m ==> ls == m / 2 && rs == m / 2 && 2 * ls == m && pp2(ls) == ls && pp2(rs)
                == rs)
            &&& (f != m && ov >= f ==> ls == f && pp2(ls) == ls && pp2(rs) == f / 2 && 2 * (f / 2)
                == f && 2 * (rs - f / 2) == ov - f)
            &&& (f != m && ov < f ==> rs == f / 2 && pp2(rs) == rs && pp2(ls) == f / 2 && 2 * (f
                / 2) == f && 2 * (ls - f / 2) == ov)
        }),
{
    lemma_split_shape(m);
    lemma_pp2_bounds(m);
    lemma_pp2_idem(m);
    lemma_left_size(m);
    let f = pp2(m);
    let ov = 2 * (m - f);
    let ls = left_size(m);
    let rs = m - ls;
    if f == m {
        lemma_pow2_half(m);
    } else {
        assert(f >= 2);
        lemma_pow2_half(f);
        if ov >= f {
            // right side holds the rest: f/2 <= rs < f
            assert(rs == m - f);
            assert(2 * rs >= f);
            lemma_pp2_unique(rs, f / 2);
        } else {
            // left side is complete: f/2 <= ls < f
            assert(ls == m - f / 2);
            lemma_pp2_unique(ls, f / 2);
        }
    }
}

/// The recursive decomposition places each leaf at its closed-form
/// position.
pub proof fn lemma_layout(v: int, lo: int, hi: int, l: int)
    requires
        0 <= v,
        lo <= l < hi,
    ensures
        leaf_node_rec(v, lo, hi, l) == gleaf(v, hi - lo, l - lo),
    decreases hi - lo,
{
    let m = hi - lo;
    let j = l - lo;
    if m == 1 {
        assert(pp2(1) == 1);
    } else {
        lemma_split_data(m);
        lemma_pp2_bounds(m);
        let f = pp2(m);
        let ov = 2 * (m - f);
        let ls = left_size(m);
        let rs = m - ls;
        let mid = lo + ls;
        if l < mid {
            lemma_layout(2 * v + 1, lo, mid, l);
        } else {
            lemma_layout(2 * v + 2, mid, hi, l);
        }
        if f == m {
            // both halves perfect of size m / 2
            if l < mid {
                assert(ls * (2 * v + 2) == m * (v + 1)) by (nonlinear_arith)
                    requires
                        2 * ls == m,
                ;
            } else {
                assert(rs * (2 * v + 3) - rs == m * (v + 1)) by (nonlinear_arith)
                    requires
                        2 * rs == m,
                        rs == ls,
                ;
            }
        } else if ov >= f {
            // left half perfect of size f, right half complete of size m - f
            if l < mid {
                assert(f * (2 * v + 2) == 2 * f * (v + 1)) by (nonlinear_arith);
            } else {
                let h = f / 2;
                let jr = j - f;
                let ovr = ov - f;
                if jr < ovr {
                    assert(2 * h * (2 * v + 3) - 1 + jr == 2 * f * (v + 1) - 1 + j)
                        by (nonlinear_arith)
                        requires
                            2 * h == f,
                            jr == j - f,
                    ;
                } else {
                    assert(h * (2 * v + 3) + h - rs - 1 + jr == f * (v + 1) + f - m - 1 + j)
                        by (nonlinear_arith)
                        requires
                            2 * h == f,
                            jr == j - f,
                            rs == m - f,
                    ;
                }
            }
        } else {
            // right half perfect of size f / 2, left half complete
            let h = f / 2;
            if l < mid {
                if j < ov {
                    assert(2 * h * (2 * v + 2) - 1 + j == 2 * f * (v + 1) - 1 + j)
                        by (nonlinear_arith)
                        requires
                            2 * h == f,
                    ;
                } else {
                    assert(h * (2 * v + 2) + h - ls - 1 + j == f * (v + 1) + f - m - 1 + j)
                        by (nonlinear_arith)
                        requires
                            2 * h == f,
                            ls == m - h,
                    ;
                }
            } else {
                let jr = j - ls;
                assert(h * (2 * v + 3) + h - h - 1 + jr == f * (v + 1) + f - m - 1 + j)
                    by (nonlinear_arith)
                    requires
                        2 * h == f,
                        jr == j - ls,
                        ls == m - h,
                ;
                assert(j >= ov);
            }
        }
    }
}

/// Every internal node of the decomposition lies between its subtree
/// root and the deepest leaf position.
pub proof fn lemma_node_bound(v: int, lo: int, hi: int, u: int)
    requires
        0 <= v,
        hi - lo >= 1,
        in_tree(v, lo, hi, u),
    ensures
        v <= u,
        2 * u + 1 <= max_leaf_pos(v, hi - lo),
    decreases hi - lo,
{
    let m = hi - lo;
    lemma_split_data(m);
    lemma_pp2_bounds(m);
    let f = pp2(m);
    let ov = 2 * (m - f);
    let ls = left_size(m);
    let rs = m - ls;
    let mid = lo + ls;
    if u == v {
        if ov == 0 {
            assert((v + 2) * m - 2 >= 2 * v + 1) by (nonlinear_arith)
                requires
                    m >= 2,
                    v >= 0,
            ;
        } else {
            assert(2 * f * (v + 1) + ov - 2 >= 2 * v + 1) by (nonlinear_arith)
                requires
                    f >= 1,
                    ov >= 2,
                    v >= 0,
            ;
        }
    } else if in_tree(2 * v + 1, lo, mid, u) {
        lemma_node_bound(2 * v + 1, lo, mid, u);
        if f == m {
            assert((2 * v + 3) * ls - 2 <= (v + 2) * m - 2) by (nonlinear_arith)
                requires
                    2 * ls == m,
                    v >= 0,
                    ls >= 1,
            ;
        } else if ov >= f {
            assert((2 * v + 3) * f - 2 <= 2 * f * (v + 1) + ov - 2) by (nonlinear_arith)
                requires
                    ov >= f,
            ;
        } else {
            let h = f / 2;
            assert(2 * (ls - h) == ov);
            if ls - h == 0 {
                assert((2 * v + 3) * ls - 2 <= 2 * f * (v + 1) + ov - 2) by (nonlinear_arith)
                    requires
                        2 * h == f,
                        ls == h,
                        ov == 0,
                        v >= 0,
                        h >= 1,
                ;
                assert(ov >= 2);
            } else {
                assert(2 * h * (2 * v + 2) + 2 * (ls - h) - 2 <= 2 * f * (v + 1) + ov - 2)
                    by (nonlinear_arith)
                    requires
                        2 * h == f,
                        2 * (ls - h) == ov,
                ;
            }
        }
    } else {
        lemma_node_bound(2 * v + 2, mid, hi, u);
        if f == m {
            assert((2 * v + 4) * rs - 2 <= (v + 2) * m - 2) by (nonlinear_arith)
                requires
                    2 * rs == m,
            ;
        } else if ov >= f {
            let h = f / 2;
            if rs == h {
                assert((2 * v + 4) * h - 2 <= 2 * f * (v + 1) + ov - 2) by (nonlinear_arith)
                    requires
                        2 * h == f,
                        ov >= f,
                        v >= 0,
                        h >= 1,
                ;
            } else {
                assert(2 * h * (2 * v + 3) + 2 * (rs - h) - 2 <= 2 * f * (v + 1) + ov - 2)
                    by (nonlinear_arith)
                    requires
                        2 * h == f,
                        2 * (rs - h) == ov - f,
                ;
            }
        } else {
            let h = f / 2;
            assert((2 * v + 4) * h - 2 <= 2 * f * (v + 1) + ov - 2) by (nonlinear_arith)
                requires
                    2 * h == f,
                    ov >= 2,
                    v >= 0,
                    h >= 1,
            ;
        }
    }
}

/// In a tree over `n` leaves, every internal node index is at most
/// `n - 2`.
pub proof fn lemma_internal_nodes_bound(n: int, u: int)
    requires
        n >= 2,
        in_tree(0, 0, n, u),
    ensures
        0 <= u <= n - 2,
{
    lemma_node_bound(0, 0, n, u);
    lemma_pp2_bounds(n);
    let f = pp2(n);
    let ov = 2 * (n - f);
    if ov == 0 {
        assert(max_leaf_pos(0, n) == 2 * n - 2);
    } else {
        assert(max_leaf_pos(0, n) == 2 * f + ov - 2);
        assert(2 * f + ov == 2 * n);
    }
}

/// The closed-form position of a leaf in the whole tree equals the
/// position the recursive decomposition assigns to it.
pub proof fn lemma_leaf_position(n: int, l: int)
    requires
        0 <= l < n,
    ensures
        leaf_node_rec(0, 0, n, l) == crate::merge::array_node::spec_leaf_position(l, n),
        l < 2 * (n - pp2(n)) ==> leaf_node_rec(0, 0, n, l) == 2 * pp2(n) - 1 + l,
        l >= 2 * (n - pp2(n)) ==> leaf_node_rec(0, 0, n, l) == pp2(n) + pp2(n) - n - 1 + l,
{
    lemma_layout(0, 0, n, l);
    lemma_pp2_bounds(n);
}

} // verus!

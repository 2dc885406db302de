//! Construction of a complete loser tree in an implicit array
//! representation.

use vstd::prelude::*;

use crate::merge::array_node::{TreeNode, Winner};
use crate::merge::previous_power_of_two;
use crate::merge::tree_model::{
    head_le, in_tree, left_size, lemma_left_size, lemma_split_shape, opt_le, tree_ok,
};
use crate::orderer::Orderer;
use crate::run::Run;

verus! {

/// split a range at the specified point
/// the split point shall denote the size of the left
/// range piece after the split.
pub fn split_range(range: (u32, u32), split_point: usize) -> (r: ((u32, u32), (u32, u32)))
    requires
        range.0 <= range.1,
        split_point <= range.1 - range.0,
    ensures
        r.0.0 == range.0,
        r.0.1 == range.0 + split_point,
        r.1.0 == range.0 + split_point,
        r.1.1 == range.1,
{
    let midpoint = range.0 + split_point as u32;
    ((range.0, midpoint), (midpoint, range.1))
}

/// Peeks at the head of the run that `candidate` points at.
pub fn get_candidate<'a, T, R: Run<T>>(runs: &'a Vec<R>, candidate: Winner) -> (r: Option<&'a T>)
    requires
        (candidate.idx as int) < runs@.len(),
        runs@[candidate.idx as int].inv(),
    ensures
        match r {
            Some(v) => crate::merge::tree_model::head(runs@, candidate.idx as int) == Some(*v),
            None => crate::merge::tree_model::head(runs@, candidate.idx as int) is None,
        },
{
    runs[candidate.idx as usize].peek()
}

/// Compares the heads of the runs that two winners point at; an
/// exhausted run compares greater than any live one.
pub fn compare_winners<T, R: Run<T>, O: Orderer<T>>(
    runs: &Vec<R>,
    orderer: &O,
    left: Winner,
    right: Winner,
) -> (r: core::cmp::Ordering)
    requires
        (left.idx as int) < runs@.len(),
        (right.idx as int) < runs@.len(),
        runs@[left.idx as int].inv(),
        runs@[right.idx as int].inv(),
    ensures
        (r is Less || r is Equal) <==> head_le(runs@, *orderer, left.idx as int, right.idx as int),
        (r is Greater || r is Equal) <==> head_le(runs@, *orderer, right.idx as int, left.idx as int),
{
    match (get_candidate(runs, left), get_candidate(runs, right)) {
        (Some(l), Some(r)) => {
            let o = orderer.compare(l, r);
            proof {
                if o is Less || o is Equal {
                } else {
                    orderer.le_total(*l, *r);
                }
            }
            o
        },
        (Some(_), None) => core::cmp::Ordering::Less,
        (None, Some(_)) => core::cmp::Ordering::Greater,
        (None, None) => core::cmp::Ordering::Equal,
    }
}

/// Plays the match between two sub-winners at `root`: the loser is
/// recorded there and the winner is returned.
fn commit_winner<T, R: Run<T>, O: Orderer<T>>(
    tapes: &Vec<R>,
    orderer: &O,
    loser_tree: &mut Vec<u32>,
    candidate_a: Winner,
    candidate_b: Winner,
    root: TreeNode,
) -> (w: Winner)
    requires
        (root.idx as int) < old(loser_tree)@.len(),
        (candidate_a.idx as int) < tapes@.len(),
        (candidate_b.idx as int) < tapes@.len(),
        forall|i: int| 0 <= i < tapes@.len() ==> #[trigger] tapes@[i].inv(),
    ensures
        final(loser_tree)@.len() == old(loser_tree)@.len(),
        (w == candidate_a && final(loser_tree)@[root.idx as int] == candidate_b.idx) || (w
            == candidate_b && final(loser_tree)@[root.idx as int] == candidate_a.idx),
        forall|u: int|
            0 <= u < old(loser_tree)@.len() && u != root.idx as int ==> final(loser_tree)@[u]
                == old(loser_tree)@[u],
        head_le(tapes@, *orderer, w.idx as int, final(loser_tree)@[root.idx as int] as int),
{
    let cmp = compare_winners(tapes, orderer, candidate_a, candidate_b);
    if matches!(cmp, core::cmp::Ordering::Less | core::cmp::Ordering::Equal) {
        // left side wins !
        loser_tree[root.idx] = candidate_b.idx;
        candidate_a
    } else {
        // right side wins
        loser_tree[root.idx] = candidate_a.idx;
        candidate_b
    }
}

/// Builds a perfect tournament over the leaf range, recording losers
/// below `root`, and returns the winner of the whole range.
fn build_tree_perfect<T, R: Run<T>, O: Orderer<T>>(
    tapes: &Vec<R>,
    orderer: &O,
    loser_tree: &mut Vec<u32>,
    range_todo: (u32, u32),
    root: TreeNode,
) -> (w: Winner)
    requires
        range_todo.0 < range_todo.1,
        range_todo.1 <= tapes@.len(),
        tapes@.len() <= usize::MAX / 2 - 1,
        crate::merge::tree_model::pp2((range_todo.1 - range_todo.0) as int) == (range_todo.1
            - range_todo.0) as int,
        forall|u: int|
            #[trigger] in_tree(root.idx as int, range_todo.0 as int, range_todo.1 as int, u) ==> 0
                <= u < old(loser_tree)@.len(),
        (range_todo.1 - range_todo.0) == 1 || (root.idx as int) < old(loser_tree)@.len(),
        old(loser_tree)@.len() <= usize::MAX / 2 - 1,
        forall|i: int| 0 <= i < tapes@.len() ==> #[trigger] tapes@[i].inv(),
    ensures
        final(loser_tree)@.len() == old(loser_tree)@.len(),
        forall|u: int|
            0 <= u < old(loser_tree)@.len() && !in_tree(
                root.idx as int,
                range_todo.0 as int,
                range_todo.1 as int,
                u,
            ) ==> final(loser_tree)@[u] == old(loser_tree)@[u],
        tree_ok(
            final(loser_tree)@,
            tapes@,
            *orderer,
            root.idx as int,
            range_todo.0 as int,
            range_todo.1 as int,
            w.idx as int,
        ),
        range_todo.0 <= w.idx < range_todo.1,
    decreases range_todo.1 - range_todo.0,
{
    let len = range_todo.1 - range_todo.0;
    let ghost v = root.idx as int;
    let ghost lo = range_todo.0 as int;
    let ghost hi = range_todo.1 as int;
    if len == 1 {
        Winner { idx: range_todo.0 }
    } else {
        proof {
            lemma_split_shape(len as int);
            crate::merge::tree_model::lemma_pow2_half(len as int);
            assert(in_tree(v, lo, hi, v));
        }
        let subtree_size = (len / 2) as usize;
        let (left, right) = split_range(range_todo, subtree_size);
        let ghost mid = lo + left_size(hi - lo);
        proof {
            assert(forall|u: int| #[trigger] in_tree(2 * v + 1, lo, mid, u) ==> in_tree(
                v,
                lo,
                hi,
                u,
            ));
            assert(forall|u: int| #[trigger] in_tree(2 * v + 2, mid, hi, u) ==> in_tree(
                v,
                lo,
                hi,
                u,
            ));
        }
        proof {
            if mid - lo >= 2 {
                assert(in_tree(2 * v + 1, lo, mid, 2 * v + 1));
            }
            if hi - mid >= 2 {
                assert(in_tree(2 * v + 2, mid, hi, 2 * v + 2));
            }
        }
        let winner_left = build_tree_perfect(tapes, orderer, loser_tree, left, root.left());
        let ghost lt1 = loser_tree@;
        let winner_right = build_tree_perfect(tapes, orderer, loser_tree, right, root.right());
        let ghost lt2 = loser_tree@;
        proof {
            lemma_subtrees_disjoint(v, lo, mid, hi, lt2.len() as int);
            crate::merge::tree_model::lemma_tree_frame_lt(
                lt1,
                lt2,
                tapes@,
                *orderer,
                2 * v + 1,
                lo,
                mid,
                winner_left.idx as int,
            );
        }
        let w = commit_winner(tapes, orderer, loser_tree, winner_left, winner_right, root);
        proof {
            let lt3 = loser_tree@;
            lemma_root_outside(v, lo, mid, hi, lt3.len() as int);
            crate::merge::tree_model::lemma_tree_frame_lt(
                lt2,
                lt3,
                tapes@,
                *orderer,
                2 * v + 1,
                lo,
                mid,
                winner_left.idx as int,
            );
            crate::merge::tree_model::lemma_tree_frame_lt(
                lt2,
                lt3,
                tapes@,
                *orderer,
                2 * v + 2,
                mid,
                hi,
                winner_right.idx as int,
            );
            lemma_commit_glue(
                lt3,
                tapes@,
                *orderer,
                v,
                lo,
                hi,
                winner_left.idx as int,
                winner_right.idx as int,
                w.idx as int,
            );
        }
        w
    }
}

/// The node sets of the two child subtrees are disjoint, and both
/// exclude the root.
proof fn lemma_subtrees_disjoint(v: int, lo: int, mid: int, hi: int, len: int)
    requires
        0 <= v,
    ensures
        forall|u: int|
            #[trigger] in_tree(2 * v + 1, lo, mid, u) ==> !in_tree(2 * v + 2, mid, hi, u) && u
                != v,
        forall|u: int| #[trigger] in_tree(2 * v + 2, mid, hi, u) ==> u != v,
{
    assert forall|u: int| #[trigger] in_tree(2 * v + 1, lo, mid, u) implies !in_tree(
        2 * v + 2,
        mid,
        hi,
        u,
    ) && u != v by {
        crate::merge::tree_model::lemma_in_tree_desc(2 * v + 1, lo, mid, u);
        crate::merge::tree_model::lemma_desc_ge(u, 2 * v + 1);
        crate::merge::tree_model::lemma_desc_sibling(u, v);
        if in_tree(2 * v + 2, mid, hi, u) {
            crate::merge::tree_model::lemma_in_tree_desc(2 * v + 2, mid, hi, u);
        }
    }
    assert forall|u: int| #[trigger] in_tree(2 * v + 2, mid, hi, u) implies u != v by {
        crate::merge::tree_model::lemma_in_tree_desc(2 * v + 2, mid, hi, u);
        crate::merge::tree_model::lemma_desc_ge(u, 2 * v + 2);
    }
}

/// The root index lies in neither child subtree.
proof fn lemma_root_outside(v: int, lo: int, mid: int, hi: int, len: int)
    requires
        0 <= v,
    ensures
        !in_tree(2 * v + 1, lo, mid, v),
        !in_tree(2 * v + 2, mid, hi, v),
{
    if in_tree(2 * v + 1, lo, mid, v) {
        crate::merge::tree_model::lemma_in_tree_desc(2 * v + 1, lo, mid, v);
        crate::merge::tree_model::lemma_desc_ge(v, 2 * v + 1);
    }
    if in_tree(2 * v + 2, mid, hi, v) {
        crate::merge::tree_model::lemma_in_tree_desc(2 * v + 2, mid, hi, v);
        crate::merge::tree_model::lemma_desc_ge(v, 2 * v + 2);
    }
}

/// After both subtrees are built and the match at `v` is recorded,
/// the whole subtree satisfies the tournament invariant.
proof fn lemma_commit_glue<T, R: Run<T>, O: Orderer<T>>(
    lt: Seq<u32>,
    tapes: Seq<R>,
    o: O,
    v: int,
    lo: int,
    hi: int,
    cl: int,
    cr: int,
    w: int,
)
    requires
        hi - lo >= 2,
        0 <= v < lt.len(),
        lo <= cl < lo + left_size(hi - lo),
        lo + left_size(hi - lo) <= cr < hi,
        (w == cl && lt[v] as int == cr) || (w == cr && lt[v] as int == cl),
        head_le(tapes, o, w, lt[v] as int),
        tree_ok(lt, tapes, o, 2 * v + 1, lo, lo + left_size(hi - lo), cl),
        tree_ok(lt, tapes, o, 2 * v + 2, lo + left_size(hi - lo), hi, cr),
    ensures
        tree_ok(lt, tapes, o, v, lo, hi, w),
{
    lemma_left_size(hi - lo);
    let mid = lo + left_size(hi - lo);
    if w == cl {
        assert(crate::merge::tree_model::left_winner(lt, v, lo, hi, w) == cl);
        assert(crate::merge::tree_model::right_winner(lt, v, lo, hi, w) == cr);
    } else {
        assert(crate::merge::tree_model::left_winner(lt, v, lo, hi, w) == cl);
        assert(crate::merge::tree_model::right_winner(lt, v, lo, hi, w) == cr);
    }
}

/// Builds a complete tournament over the leaf range: the side that can
/// be filled completely is built as a perfect tree, the other side
/// recursively as a complete one.
fn build_tree_complete<T, R: Run<T>, O: Orderer<T>>(
    tapes: &Vec<R>,
    orderer: &O,
    loser_tree: &mut Vec<u32>,
    range_todo: (u32, u32),
    root: TreeNode,
) -> (w: Winner)
    requires
        range_todo.0 < range_todo.1,
        range_todo.1 <= tapes@.len(),
        tapes@.len() <= usize::MAX / 2 - 1,
        forall|u: int|
            #[trigger] in_tree(root.idx as int, range_todo.0 as int, range_todo.1 as int, u) ==> 0
                <= u < old(loser_tree)@.len(),
        (range_todo.1 - range_todo.0) == 1 || (root.idx as int) < old(loser_tree)@.len(),
        old(loser_tree)@.len() <= usize::MAX / 2 - 1,
        forall|i: int| 0 <= i < tapes@.len() ==> #[trigger] tapes@[i].inv(),
    ensures
        final(loser_tree)@.len() == old(loser_tree)@.len(),
        forall|u: int|
            0 <= u < old(loser_tree)@.len() && !in_tree(
                root.idx as int,
                range_todo.0 as int,
                range_todo.1 as int,
                u,
            ) ==> final(loser_tree)@[u] == old(loser_tree)@[u],
        tree_ok(
            final(loser_tree)@,
            tapes@,
            *orderer,
            root.idx as int,
            range_todo.0 as int,
            range_todo.1 as int,
            w.idx as int,
        ),
        range_todo.0 <= w.idx < range_todo.1,
    decreases range_todo.1 - range_todo.0,
{
    let total_nodes = range_todo.1 - range_todo.0;
    proof {
        crate::merge::tree_model::lemma_pp2_bounds(total_nodes as int);
    }
    let ghost v = root.idx as int;
    let ghost lo = range_todo.0 as int;
    let ghost hi = range_todo.1 as int;
    let f = previous_power_of_two(total_nodes as usize);
    if f == total_nodes as usize {
        build_tree_perfect(tapes, orderer, loser_tree, range_todo, root)
    } else {
        proof {
            lemma_split_shape(hi - lo);
            assert(in_tree(v, lo, hi, v));
        }
        let ghost mid = lo + left_size(hi - lo);
        proof {
            assert(forall|u: int| #[trigger] in_tree(2 * v + 1, lo, mid, u) ==> in_tree(
                v,
                lo,
                hi,
                u,
            ));
            assert(forall|u: int| #[trigger] in_tree(2 * v + 2, mid, hi, u) ==> in_tree(
                v,
                lo,
                hi,
                u,
            ));
        }
        let nodes_in_lower_level = (total_nodes as usize - f) * 2;

        let perfect_tree_left = nodes_in_lower_level >= f;

        if perfect_tree_left {
            let nodes_in_left_tree = f;
            let (left, right) = split_range(range_todo, nodes_in_left_tree);
            proof {
                if mid - lo >= 2 {
                    assert(in_tree(2 * v + 1, lo, mid, 2 * v + 1));
                }
                if hi - mid >= 2 {
                    assert(in_tree(2 * v + 2, mid, hi, 2 * v + 2));
                }
            }
            let w_left = build_tree_perfect(tapes, orderer, loser_tree, left, root.left());
            let ghost lt1 = loser_tree@;
            let w_right = build_tree_complete(tapes, orderer, loser_tree, right, root.right());
            let ghost lt2 = loser_tree@;
            proof {
                lemma_subtrees_disjoint(v, lo, mid, hi, lt2.len() as int);
                crate::merge::tree_model::lemma_tree_frame_lt(
                    lt1,
                    lt2,
                    tapes@,
                    *orderer,
                    2 * v + 1,
                    lo,
                    mid,
                    w_left.idx as int,
                );
            }
            let w = commit_winner(tapes, orderer, loser_tree, w_left, w_right, root);
            proof {
                let lt3 = loser_tree@;
                lemma_root_outside(v, lo, mid, hi, lt3.len() as int);
                crate::merge::tree_model::lemma_tree_frame_lt(
                    lt2,
                    lt3,
                    tapes@,
                    *orderer,
                    2 * v + 1,
                    lo,
                    mid,
                    w_left.idx as int,
                );
                crate::merge::tree_model::lemma_tree_frame_lt(
                    lt2,
                    lt3,
                    tapes@,
                    *orderer,
                    2 * v + 2,
                    mid,
                    hi,
                    w_right.idx as int,
                );
                lemma_commit_glue(
                    lt3,
                    tapes@,
                    *orderer,
                    v,
                    lo,
                    hi,
                    w_left.idx as int,
                    w_right.idx as int,
                    w.idx as int,
                );
            }
            w
        } else {
            // there are _not_ enough nodes to fill the left side of the tree completely.
            // therefore the perfect tree must be on the right and have the size of half the upper level
            let nodes_in_right_tree = f / 2;
            let nodes_in_left_tree = total_nodes as usize - nodes_in_right_tree;
            let (left, right) = split_range(range_todo, nodes_in_left_tree);
            proof {
                if mid - lo >= 2 {
                    assert(in_tree(2 * v + 1, lo, mid, 2 * v + 1));
                }
                if hi - mid >= 2 {
                    assert(in_tree(2 * v + 2, mid, hi, 2 * v + 2));
                }
            }
            let w_left = build_tree_complete(tapes, orderer, loser_tree, left, root.left());
            let ghost lt1 = loser_tree@;
            let w_right = build_tree_perfect(tapes, orderer, loser_tree, right, root.right());
            let ghost lt2 = loser_tree@;
            proof {
                lemma_subtrees_disjoint(v, lo, mid, hi, lt2.len() as int);
                crate::merge::tree_model::lemma_tree_frame_lt(
                    lt1,
                    lt2,
                    tapes@,
                    *orderer,
                    2 * v + 1,
                    lo,
                    mid,
                    w_left.idx as int,
                );
            }
            let w = commit_winner(tapes, orderer, loser_tree, w_left, w_right, root);
            proof {
                let lt3 = loser_tree@;
                lemma_root_outside(v, lo, mid, hi, lt3.len() as int);
                crate::merge::tree_model::lemma_tree_frame_lt(
                    lt2,
                    lt3,
                    tapes@,
                    *orderer,
                    2 * v + 1,
                    lo,
                    mid,
                    w_left.idx as int,
                );
                crate::merge::tree_model::lemma_tree_frame_lt(
                    lt2,
                    lt3,
                    tapes@,
                    *orderer,
                    2 * v + 2,
                    mid,
                    hi,
                    w_right.idx as int,
                );
                lemma_commit_glue(
                    lt3,
                    tapes@,
                    *orderer,
                    v,
                    lo,
                    hi,
                    w_left.idx as int,
                    w_right.idx as int,
                    w.idx as int,
                );
            }
            w
        }
    }
}

/// A convenience object holding the tree construction entry point.
pub struct LoserTreeBuilder {}

impl LoserTreeBuilder {
    pub fn new() -> (r: Self) {
        Self {  }
    }

    /// Builds the tree over all `number_of_tapes` leaves, growing the
    /// loser array to `number_of_tapes - 1` entries if it is shorter,
    /// and returns the overall winner.
    pub fn build<T, R: Run<T>, O: Orderer<T>>(
        self,
        tapes: &Vec<R>,
        orderer: &O,
        loser_tree: &mut Vec<u32>,
        number_of_tapes: usize,
    ) -> (w: Winner)
        requires
            2 <= number_of_tapes,
            number_of_tapes == tapes@.len(),
            tapes@.len() <= u32::MAX,
            tapes@.len() <= usize::MAX / 2 - 1,
            old(loser_tree)@.len() <= usize::MAX / 2 - 1,
            forall|i: int| 0 <= i < tapes@.len() ==> #[trigger] tapes@[i].inv(),
        ensures
            final(loser_tree)@.len() >= number_of_tapes - 1,
            final(loser_tree)@.len() <= usize::MAX / 2 - 1,
            tree_ok(
                final(loser_tree)@,
                tapes@,
                *orderer,
                0,
                0,
                number_of_tapes as int,
                w.idx as int,
            ),
            0 <= w.idx < number_of_tapes,
    {
        let num_internal_nodes = number_of_tapes - 1;
        if loser_tree.len() < num_internal_nodes {
            *loser_tree = vec![0u32; num_internal_nodes];
        }
        proof {
            let n = number_of_tapes as int;
            assert forall|u: int| #[trigger] in_tree(0, 0, n, u) implies 0 <= u
                < loser_tree@.len() by {
                crate::merge::tree_layout::lemma_internal_nodes_bound(n, u);
            }
        }
        build_tree_complete(
            tapes,
            orderer,
            loser_tree,
            (0, number_of_tapes as u32),
            TreeNode::root(),
        )
    }
}

} // verus!

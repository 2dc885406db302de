use vstd::prelude::*;

use crate::merge::{previous_power_of_two, spec_previous_power_of_two};

verus! {

/// The leaf index of a tape that won a comparison.
#[derive(Clone, Copy, Debug)]
pub struct Winner {
    pub idx: u32,
}

/// This is a wrapper around the tree indices in
/// the classic implicit array tree.
/// it mainly exists for clarity, as well as to make
/// implementing the tree navigation easier.
#[derive(Copy, Clone, PartialEq, Eq, Structural)]
pub struct TreeNode {
    pub idx: usize,
}

/// The tree position that the leaf with index `leaf` occupies in the
/// implicit array tree over `tree_size` leaves.
pub open spec fn spec_leaf_position(leaf: int, tree_size: int) -> int {
    let f = spec_previous_power_of_two(tree_size as nat) as int;
    let overhang = 2 * (tree_size - f);
    if leaf < overhang {
        2 * f - 1 + leaf
    } else {
        f - 1 - overhang / 2 + leaf
    }
}

impl TreeNode {
    pub fn left(self) -> (r: Self)
        requires
            self.idx * 2 + 1 <= usize::MAX,
        ensures
            r.idx == self.idx * 2 + 1,
    {
        Self { idx: self.idx * 2 + 1 }
    }

    pub fn right(self) -> (r: Self)
        requires
            self.idx * 2 + 2 <= usize::MAX,
        ensures
            r.idx == self.idx * 2 + 2,
    {
        Self { idx: self.idx * 2 + 2 }
    }

    pub fn parent(self) -> (r: Self)
        ensures
            r.idx == (if self.idx == 0 {
                0int
            } else {
                (self.idx - 1) / 2
            }),
    {
        if self.idx == 0 {
            Self { idx: 0 }
        } else {
            Self { idx: (self.idx - 1) / 2 }
        }
    }

    pub fn root() -> (r: Self)
        ensures
            r.idx == 0,
    {
        Self { idx: 0 }
    }

    pub fn is_root(&self) -> (r: bool)
        ensures
            r == (self.idx == 0),
    {
        self.idx == 0
    }

    /// computes the tree node the leaf _would_ occupy if we did store the leaves.
    /// tree_size should be the total number of leaves in the tree.
    pub fn leaf_for_winner(leaf: Winner, tree_size: usize) -> (r: Self)
        requires
            1 <= tree_size,
            (leaf.idx as int) < tree_size,
            2 * tree_size <= usize::MAX,
        ensures
            r.idx == spec_leaf_position(leaf.idx as int, tree_size as int),
    {
        let full_level_size = previous_power_of_two(tree_size);
        proof {
            crate::merge::tree_model::lemma_pp2_bounds(tree_size as int);
        }
        let overhang = (tree_size - full_level_size) * 2;

        let leaf_idx = leaf.idx as usize;

        let tree_idx = if leaf_idx < overhang {
            // we are in the lowest level of the tree... the indexes here start at
            // 2*the filled level - 1
            full_level_size * 2 - 1 + leaf_idx
        } else {
            // we are in the filled part of the tree. the indexes of this one start at
            // the filled level - 1
            // for every two leaves in the overhang, there is an internal node
            // that can not be used.
            // because we would be counting them twice, we need to subtract half again.
            let overhang_compensation = overhang / 2;

            full_level_size - 1 - overhang_compensation + leaf_idx
        };

        Self { idx: tree_idx }
    }
}

} // verus!

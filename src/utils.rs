//! Arithmetic on node and leaf indices.

use vstd::prelude::*;
use crate::peaks::{get_peaks_len, peaks_of, MAX_SIZE};

verus! {

/// Largest leaf count that the storage accepts; twice it still fits in `u64`.
pub const MAX_LEAVES: u64 = MAX_SIZE;

/// Number of one bits in `n`.
pub open spec fn popcount(n: u64) -> nat
    decreases n,
{
    if n == 0 {
        0
    } else {
        (n % 2) as nat + popcount(n / 2)
    }
}

/// A number has no more one bits than its value.
pub proof fn lemma_popcount_le(n: u64)
    ensures
        popcount(n) <= n,
    decreases n,
{
    if n != 0 {
        lemma_popcount_le(n / 2);
    }
}

/// Number of nodes in a forest that holds `leaves` leaves: each leaf adds itself and one inner
/// node per merge, and a forest keeps one unmerged peak per one bit of its leaf count.
pub open spec fn size_of_leaves(leaves: u64) -> int {
    2 * leaves - popcount(leaves)
}

/// Relies on `u64::count_ones`: the number of one bits.
#[verifier::external_body]
fn count_ones(n: u64) -> (r: u32)
    ensures
        r as nat == popcount(n),
{
    n.count_ones()
}

/// Number of nodes in a forest of `leaves` leaves.
pub fn size(leaves: u64) -> (r: u64)
    requires
        leaves <= MAX_LEAVES,
    ensures
        r == size_of_leaves(leaves),
        r <= 2 * leaves,
{
    let ones = count_ones(leaves);
    proof {
        lemma_popcount_le(leaves);
    }
    2 * leaves - ones as u64
}

/// The height that `helper::pos_height_in_tree` of the MMR crate gives the node at `pos`.
pub uninterp spec fn height_of(pos: u64) -> u32;

/// Relies on `ckb_merkle_mountain_range::helper::pos_height_in_tree`: the height of the node at
/// `pos` within its subtree (zero for a leaf). A node of height `h` sits at or after position
/// `2^(h+1) - 2`, so the height never exceeds the position.
#[verifier::external_body]
fn pos_height_in_tree(pos: u64) -> (r: u32)
    requires
        pos < MAX_SIZE,
    ensures
        r == height_of(pos),
        r as u64 <= pos,
{
    ckb_merkle_mountain_range::helper::pos_height_in_tree(pos)
}

/// The leaf index of the leaf node at `pos`: half of the nodes before it and its own peaks.
pub open spec fn leaf_index_of_leaf_node(pos: u64) -> int {
    if pos == 0 {
        0
    } else {
        (pos + peaks_of(pos).len()) / 2
    }
}

/// The position of the rightmost leaf under the node at `pos`.
pub open spec fn rightmost_leaf_of(pos: u64) -> u64 {
    (pos - height_of(pos)) as u64
}

/// The index of the leaf whose insertion appended the node at `pos`.
pub open spec fn leaf_index_added(pos: u64) -> int {
    leaf_index_of_leaf_node(rightmost_leaf_of(pos))
}

/// Index of the leaf whose insertion appended the node at `pos` to the forest.
pub fn leaf_index_that_added_node(pos: u64) -> (r: u64)
    requires
        pos < MAX_SIZE,
    ensures
        r == leaf_index_added(pos),
{
    let height = pos_height_in_tree(pos);
    let leaf_pos = pos - height as u64;
    if leaf_pos == 0 {
        0
    } else {
        let n = get_peaks_len(leaf_pos);
        (leaf_pos + n) / 2
    }
}

} // verus!

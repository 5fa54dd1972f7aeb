//! Peak positions of a Merkle Mountain Range, and the difference between the peaks of two sizes.

use vstd::prelude::*;

verus! {

/// Largest node count for which the peak arithmetic stays within `u64`.
pub const MAX_SIZE: u64 = 0x4000_0000_0000_0000;

/// The positions that `helper::get_peaks` of the MMR crate returns for a node count.
pub uninterp spec fn peaks_of(size: u64) -> Seq<u64>;

/// The entries of `s` are strictly increasing.
pub open spec fn strictly_ascending(s: Seq<u64>) -> bool {
    forall|i: int, j: int| 0 <= i < j < s.len() ==> s[i] < s[j]
}

/// Relies on `ckb_merkle_mountain_range::helper::get_peaks`: the peak positions of an MMR of
/// `size` nodes, from left to right, so ascending and each below `size`.
#[verifier::external_body]
fn get_peaks(size: u64) -> (r: Vec<u64>)
    requires
        0 < size <= MAX_SIZE,
    ensures
        r@ == peaks_of(size),
        strictly_ascending(r@),
        forall|i: int| 0 <= i < r@.len() ==> r@[i] < size,
{
    ckb_merkle_mountain_range::helper::get_peaks(size)
}

/// Number of peaks of a forest of `size` nodes, `size` positive.
pub fn get_peaks_len(size: u64) -> (r: u64)
    requires
        0 < size <= MAX_SIZE,
    ensures
        r == peaks_of(size).len(),
        r <= size,
{
    let p = get_peaks(size);
    proof {
        lemma_ascending_below_len(p@, size);
    }
    p.len() as u64
}

/// A strictly ascending sequence of values below `bound` has at most `bound` entries.
proof fn lemma_ascending_below_len(s: Seq<u64>, bound: u64)
    requires
        strictly_ascending(s),
        forall|i: int| 0 <= i < s.len() ==> s[i] < bound,
    ensures
        s.len() <= bound,
    decreases s.len(),
{
    if s.len() > 0 {
        let t = s.drop_last();
        let last = s.last();
        assert forall|i: int| 0 <= i < t.len() implies t[i] < last by {
            assert(t[i] == s[i]);
        }
        lemma_ascending_below_len(t, last);
    }
}

/// The peaks of a forest of `size` nodes; an empty forest has none.
pub open spec fn peak_positions(size: u64) -> Seq<u64> {
    if size == 0 {
        Seq::empty()
    } else {
        peaks_of(size)
    }
}

/// The ascending peak positions of a forest of `size` nodes.
pub fn peaks(size: u64) -> (r: Vec<u64>)
    requires
        size <= MAX_SIZE,
    ensures
        r@ == peak_positions(size),
        strictly_ascending(r@),
        forall|i: int| 0 <= i < r@.len() ==> r@[i] < size,
{
    if size == 0 {
        Vec::new()
    } else {
        get_peaks(size)
    }
}

/// Length of the longest common prefix of `a` and `b`, counted from index `i` on.
pub open spec fn prefix_len_from(a: Seq<u64>, b: Seq<u64>, i: nat) -> nat
    decreases a.len() - i,
{
    if i < a.len() && i < b.len() && a[i as int] == b[i as int] {
        prefix_len_from(a, b, i + 1)
    } else {
        i
    }
}

/// Length of the longest common prefix of `a` and `b`.
pub open spec fn common_prefix_len(a: Seq<u64>, b: Seq<u64>) -> nat {
    prefix_len_from(a, b, 0)
}

/// The peaks to remove and the peaks to record when a forest grows from `old_size` to
/// `new_size` nodes: what is left of each peak list once the common prefix is dropped.
pub open spec fn peak_diff(old_size: u64, new_size: u64) -> (Seq<u64>, Seq<u64>) {
    let before = peak_positions(old_size);
    let after = peak_positions(new_size);
    let k = common_prefix_len(before, after) as int;
    (before.skip(k), after.skip(k))
}

/// The common prefix from `i` on is bounded by both lengths, holds equal entries, and stops at
/// the end of one sequence or at the first differing entry.
pub proof fn lemma_prefix_len_bounds(a: Seq<u64>, b: Seq<u64>, i: nat)
    requires
        i <= a.len(),
        i <= b.len(),
    ensures
        i <= prefix_len_from(a, b, i) <= a.len(),
        prefix_len_from(a, b, i) <= b.len(),
        forall|j: int| i <= j < prefix_len_from(a, b, i) ==> a[j] == b[j],
        ({
            let k = prefix_len_from(a, b, i);
            k == a.len() || k == b.len() || a[k as int] != b[k as int]
        }),
    decreases a.len() - i,
{
    if i < a.len() && i < b.len() && a[i as int] == b[i as int] {
        lemma_prefix_len_bounds(a, b, i + 1);
    }
}

/// Applying a diff: from the set of the old peaks, remove the remainder of the old peaks and
/// add the remainder of the new ones. Where the old peaks ascend below `old_size` and the new
/// remainder lies at or after it, the two remainders are disjoint and the result is the set of
/// the new peaks.
pub proof fn lemma_apply_diff(before: Seq<u64>, after: Seq<u64>, k: int, old_size: u64)
    requires
        0 <= k <= before.len(),
        k <= after.len(),
        before.take(k) == after.take(k),
        strictly_ascending(before),
        forall|i: int| 0 <= i < before.len() ==> before[i] < old_size,
        forall|i: int| k <= i < after.len() ==> old_size <= after[i],
    ensures
        before.to_set().union(after.skip(k).to_set()).difference(before.skip(k).to_set())
            == after.to_set(),
        forall|p: u64| #[trigger] before.skip(k).contains(p) ==> !after.skip(k).contains(p),
{
    let lhs = before.to_set().union(after.skip(k).to_set()).difference(before.skip(k).to_set());
    assert forall|p: u64| #[trigger] before.skip(k).contains(p) implies !after.skip(k).contains(
        p,
    ) by {
        let i = choose|i: int| 0 <= i < before.skip(k).len() && before.skip(k)[i] == p;
        assert(before[k + i] == p);
        if after.skip(k).contains(p) {
            let j = choose|j: int| 0 <= j < after.skip(k).len() && after.skip(k)[j] == p;
            assert(after[k + j] == p);
        }
    }
    assert forall|p: u64| lhs.contains(p) <==> after.to_set().contains(p) by {
        if lhs.contains(p) {
            if after.skip(k).contains(p) {
                let j = choose|j: int| 0 <= j < after.skip(k).len() && after.skip(k)[j] == p;
                assert(after[k + j] == p);
            } else {
                let i = choose|i: int| 0 <= i < before.len() && before[i] == p;
                if i >= k {
                    assert(before.skip(k)[i - k] == p);
                } else {
                    assert(before.take(k)[i] == p);
                    assert(after.take(k)[i] == p);
                    assert(after[i] == p);
                }
            }
        }
        if after.to_set().contains(p) {
            let j = choose|j: int| 0 <= j < after.len() && after[j] == p;
            if j >= k {
                assert(after.skip(k)[j - k] == p);
            } else {
                assert(after.take(k)[j] == p);
                assert(before.take(k)[j] == p);
                assert(before[j] == p);
                if before.skip(k).contains(p) {
                    let i = choose|i: int| 0 <= i < before.skip(k).len() && before.skip(k)[i] == p;
                    assert(before[k + i] == p);
                }
            }
        }
    }
    assert(lhs =~= after.to_set());
}

/// Splits the peaks of `old_size` and of `new_size` into a shared ascending prefix and two
/// remainders: the old peaks to prune and the new peaks to store, both ascending.
pub fn peaks_to_prune_and_store(old_size: u64, new_size: u64) -> (r: (Vec<u64>, Vec<u64>))
    requires
        old_size <= new_size <= MAX_SIZE,
    ensures
        (r.0@, r.1@) == peak_diff(old_size, new_size),
        strictly_ascending(peak_positions(old_size)),
        strictly_ascending(peak_positions(new_size)),
        forall|i: int| 0 <= i < peak_positions(old_size).len() ==> peak_positions(old_size)[i]
            < old_size,
        strictly_ascending(r.0@),
        strictly_ascending(r.1@),
        forall|i: int| 0 <= i < r.0@.len() ==> r.0@[i] < old_size,
        forall|i: int| 0 <= i < r.1@.len() ==> r.1@[i] < new_size,
{
    let before = peaks(old_size);
    let after = peaks(new_size);
    let mut i: usize = 0;
    while i < before.len() && i < after.len() && before[i] == after[i]
        invariant
            i <= before@.len(),
            i <= after@.len(),
            prefix_len_from(before@, after@, i as nat) == common_prefix_len(before@, after@),
        decreases before@.len() - i,
    {
        i = i + 1;
    }
    let mut prune: Vec<u64> = Vec::new();
    let mut j: usize = i;
    while j < before.len()
        invariant
            i <= j <= before@.len(),
            prune@ == before@.subrange(i as int, j as int),
        decreases before@.len() - j,
    {
        prune.push(before[j]);
        j = j + 1;
        assert(prune@ =~= before@.subrange(i as int, j as int));
    }
    let mut store: Vec<u64> = Vec::new();
    let mut j: usize = i;
    while j < after.len()
        invariant
            i <= j <= after@.len(),
            store@ == after@.subrange(i as int, j as int),
        decreases after@.len() - j,
    {
        store.push(after[j]);
        j = j + 1;
        assert(store@ =~= after@.subrange(i as int, j as int));
    }
    proof {
        lemma_prefix_len_bounds(before@, after@, 0);
    }
    assert(prune@ =~= before@.skip(i as int));
    assert(store@ =~= after@.skip(i as int));
    (prune, store)
}

/// The diff keeps a shared prefix of both peak lists: the old peaks are that prefix followed by
/// the peaks to prune, the new peaks are that prefix followed by the peaks to store, and the
/// two remainders differ in their first entry whenever both have one.
pub proof fn lemma_peak_diff_splits(old_size: u64, new_size: u64)
    requires
        old_size <= new_size,
    ensures
        ({
            let before = peak_positions(old_size);
            let after = peak_positions(new_size);
            let (prune, store) = peak_diff(old_size, new_size);
            let common = before.take(before.len() - prune.len());
            &&& before == common + prune
            &&& after == common + store
            &&& (prune.len() > 0 && store.len() > 0 ==> prune[0] != store[0])
        }),
{
    let before = peak_positions(old_size);
    let after = peak_positions(new_size);
    lemma_prefix_len_bounds(before, after, 0);
    let k = common_prefix_len(before, after) as int;
    assert(before =~= before.take(k) + before.skip(k));
    assert(before.take(k) =~= after.take(k));
    assert(after =~= after.take(k) + after.skip(k));
}

} // verus!

//! The storage layer of the forest: an append engine that keeps only the current peaks in
//! durable state and the full content of every node in an external store, and a read-only
//! view that recovers historical nodes from that store across forks.

use vstd::prelude::*;
use std::collections::BTreeMap;
use crate::node::{decodable, decode, Digest, Node};
use crate::peaks::{common_prefix_len, lemma_apply_diff, lemma_prefix_len_bounds, peak_diff, peak_positions, peaks_to_prune_and_store, strictly_ascending, MAX_SIZE};
use crate::utils::{lemma_popcount_le, leaf_index_added, leaf_index_that_added_node, size, size_of_leaves};

verus! {

broadcast use vstd::std_specs::btree::group_btree_axioms, vstd::laws_cmp::group_laws_cmp;

/// Marker of the storage that runs during block processing: it appends, keeping peak digests
/// in durable state and handing the full nodes to the external index.
pub struct RuntimeStorage;

/// Marker of the read-only storage that serves proof building from the external store.
pub struct OffchainStorage;

/// Errors of the storage layer.
#[derive(Clone, Copy, Debug, PartialEq, Eq, Structural)]
pub enum Error {
    /// An append did not start at the current size of the forest.
    InconsistentStore,
}

/// Prefix of every key under which a node is written to the external store.
pub const INDEXING_PREFIX: [u8; 3] = [109, 109, 114];

/// The eight little-endian bytes of `n`.
pub open spec fn le_bytes(n: u64) -> Seq<u8> {
    seq![
        (n % 0x100) as u8,
        ((n / 0x100) % 0x100) as u8,
        ((n / 0x1_0000) % 0x100) as u8,
        ((n / 0x100_0000) % 0x100) as u8,
        ((n / 0x1_0000_0000) % 0x100) as u8,
        ((n / 0x100_0000_0000) % 0x100) as u8,
        ((n / 0x1_0000_0000_0000) % 0x100) as u8,
        ((n / 0x100_0000_0000_0000) % 0x100) as u8,
    ]
}

/// The key of the node at `pos` written by the block whose parent is `fork`: the encoded tuple
/// of the prefix, the fork's hash and the position.
pub open spec fn key_of(fork: Digest, pos: u64) -> Seq<u8> {
    seq![12u8] + INDEXING_PREFIX@ + fork@ + le_bytes(pos)
}

/// Relies on `parity_scale_codec::Encode` for the tuple `(&[u8], [u8; 32], u64)`: the fields
/// one after another; a byte slice of fewer than 64 bytes as one byte `4 * len` and then its
/// bytes, the array as its bytes, the integer as eight little-endian bytes.
#[verifier::external_body]
fn encode_key(prefix: &[u8; 3], fork: &Digest, pos: u64) -> (r: Vec<u8>)
    ensures
        r@ == seq![12u8] + prefix@ + fork@ + le_bytes(pos),
{
    parity_scale_codec::Encode::encode(&(&prefix[..], fork, pos))
}

/// Key under which the node at `pos`, appended in the block whose parent is `fork`, is kept in
/// the external store.
pub fn offchain_key(fork: &Digest, pos: u64) -> (r: Vec<u8>)
    ensures
        r@ == key_of(*fork, pos),
{
    encode_key(&INDEXING_PREFIX, fork, pos)
}

/// The value stored under `key` by the earliest of `entries` that has that key.
pub open spec fn lookup(entries: Seq<(Vec<u8>, Vec<u8>)>, key: Seq<u8>) -> Option<Seq<u8>>
    decreases entries.len(),
{
    if entries.len() == 0 {
        None
    } else if entries[0].0@ == key {
        Some(entries[0].1@)
    } else {
        lookup(entries.drop_first(), key)
    }
}

/// Number of leaves among `elems`.
pub open spec fn count_leaves(elems: Seq<Node>) -> nat
    decreases elems.len(),
{
    if elems.len() == 0 {
        0
    } else {
        count_leaves(elems.drop_last()) + if elems.last().is_leaf() { 1nat } else { 0nat }
    }
}

/// How many of the ascending `store` positions have been met after walking `n` nodes from
/// position `start`: a position is met when the walk reaches it while it is the next one due.
pub open spec fn stored_count(store: Seq<u64>, start: u64, n: nat) -> nat
    decreases n,
{
    if n == 0 {
        0
    } else {
        let c = stored_count(store, start, (n - 1) as nat);
        if c < store.len() && store[c as int] == start + n - 1 {
            c + 1
        } else {
            c
        }
    }
}

/// Durable entries recorded by a walk: each met position with the digest of the node at it.
pub open spec fn new_peak_entries(met: Seq<u64>, start: u64, elems: Seq<Node>) -> Map<u64, Digest> {
    Map::new(|p: u64| met.contains(p), |p: u64| elems[p - start].digest())
}

/// The external records an append of `elems` at `start` in the block with parent `fork` writes.
pub open spec fn appended_records(fork: Digest, start: u64, elems: Seq<Node>) -> Seq<(Seq<u8>, Seq<u8>)> {
    Seq::new(elems.len(), |i: int| (key_of(fork, (start + i) as u64), elems[i].encoded()))
}

/// The byte views of `entries`.
pub open spec fn entries_view(entries: Seq<(Vec<u8>, Vec<u8>)>) -> Seq<(Seq<u8>, Seq<u8>)> {
    entries.map_values(|e: (Vec<u8>, Vec<u8>)| (e.0@, e.1@))
}

/// The storage layer over the host state it reads and writes.
pub struct Storage<S> {
    /// Which of the two storages this is.
    pub kind: S,
    /// Durable map from the position of each current peak to its digest.
    pub nodes: BTreeMap<u64, Digest>,
    /// Number of leaves appended so far.
    pub number_of_leaves: u64,
    /// Number of the block being processed, or of the best block for the read-only storage.
    pub block_number: u64,
    /// Digest of the parent of the block being processed.
    pub parent_hash: Digest,
    /// Hashes of the blocks that the host still retains, by number.
    pub block_hashes: BTreeMap<u64, Digest>,
    /// The external store: records in the order they were written. The append engine adds to
    /// it; the read-only storage reads it.
    pub offchain: Vec<(Vec<u8>, Vec<u8>)>,
}

impl<S> Storage<S> {
    /// Every count fits the arithmetic of the forest.
    pub open spec fn well_formed(&self) -> bool {
        self.number_of_leaves <= MAX_SIZE
    }

    /// The current number of nodes.
    pub open spec fn size_spec(&self) -> int {
        size_of_leaves(self.number_of_leaves)
    }

    /// Number of the parent of the block that appended the node at `pos`, assuming one leaf
    /// per block since the forest started: `block_number - leaves + leaf_index`, saturating.
    pub open spec fn parent_number_spec(&self, pos: u64) -> u64 {
        let base = if self.block_number >= self.number_of_leaves {
            (self.block_number - self.number_of_leaves) as u64
        } else {
            0u64
        };
        let sum = base + leaf_index_added(pos);
        if sum <= u64::MAX { sum as u64 } else { u64::MAX }
    }

    /// Number of the parent of the block that appended the node at `pos`.
    pub fn parent_number_of_ancestor_that_added_node(&self, pos: u64) -> (r: u64)
        requires
            pos < MAX_SIZE,
        ensures
            r == self.parent_number_spec(pos),
    {
        let leaf_index = leaf_index_that_added_node(pos);
        let base = self.block_number.saturating_sub(self.number_of_leaves);
        base.saturating_add(leaf_index)
    }

    /// Digest of the parent of the block that appended the node at `pos`: the fork key of its
    /// record. `None` where the host no longer retains that block.
    pub fn parent_hash_of_ancestor_that_added_node(&self, pos: u64) -> (r: Option<Digest>)
        requires
            pos < MAX_SIZE,
        ensures
            r == (if self.block_hashes@.contains_key(self.parent_number_spec(pos)) {
                Some(self.block_hashes@[self.parent_number_spec(pos)])
            } else {
                None::<Digest>
            }),
    {
        let number = self.parent_number_of_ancestor_that_added_node(pos);
        match self.block_hashes.get(&number) {
            Some(h) => Some(*h),
            None => None,
        }
    }
}

/// Whether `a` and `b` hold the same bytes.
fn bytes_eq(a: &Vec<u8>, b: &Vec<u8>) -> (r: bool)
    ensures
        r == (a@ == b@),
{
    if a.len() != b.len() {
        return false;
    }
    let mut i: usize = 0;
    while i < a.len()
        invariant
            a@.len() == b@.len(),
            0 <= i <= a@.len(),
            forall|k: int| 0 <= k < i ==> a@[k] == b@[k],
        decreases a@.len() - i,
    {
        if a[i] != b[i] {
            return false;
        }
        i = i + 1;
    }
    assert(a@ =~= b@);
    true
}

/// The value of the earliest record of `entries` under `key`.
pub fn lookup_record<'a>(entries: &'a Vec<(Vec<u8>, Vec<u8>)>, key: &Vec<u8>) -> (r: Option<&'a Vec<u8>>)
    ensures
        match r {
            Some(v) => lookup(entries@, key@) == Some(v@),
            None => lookup(entries@, key@) is None,
        },
{
    let mut i: usize = 0;
    assert(entries@.skip(0) =~= entries@);
    while i < entries.len()
        invariant
            0 <= i <= entries@.len(),
            lookup(entries@, key@) == lookup(entries@.skip(i as int), key@),
        decreases entries@.len() - i,
    {
        assert(entries@.skip(i as int).drop_first() =~= entries@.skip(i + 1));
        if bytes_eq(&entries[i].0, key) {
            return Some(&entries[i].1);
        }
        i = i + 1;
    }
    None
}

impl Storage<OffchainStorage> {
    /// The node at `pos` as found in the external store under the fork key of the block that
    /// appended it. `None` where that block's parent is no longer retained, where no record
    /// has that key, or where the record is no node's byte form.
    pub fn get_elem(&self, pos: u64) -> (r: Result<Option<Node>, Error>)
        requires
            pos < MAX_SIZE,
        ensures
            r matches Ok(found) && {
                let number = self.parent_number_spec(pos);
                if !self.block_hashes@.contains_key(number) {
                    found is None
                } else {
                    match lookup(self.offchain@, key_of(self.block_hashes@[number], pos)) {
                        None => found is None,
                        Some(v) => (found is Some <==> decodable(v)) && (found matches Some(n)
                            ==> n.encoded() == v),
                    }
                }
            },
    {
        match self.parent_hash_of_ancestor_that_added_node(pos) {
            None => Ok(None),
            Some(fork) => {
                let key = offchain_key(&fork, pos);
                match lookup_record(&self.offchain, &key) {
                    None => Ok(None),
                    Some(v) => Ok(decode(v)),
                }
            },
        }
    }
}

/// Records written for one position by blocks on two forks, whose parents differ, never share
/// a key, so a lookup on one fork cannot return the other fork's record.
pub proof fn lemma_fork_keys_distinct(a: Digest, b: Digest, pos: u64)
    requires
        a != b,
    ensures
        key_of(a, pos) != key_of(b, pos),
{
    broadcast use vstd::array::axiom_array_ext_equal;

    if key_of(a, pos) == key_of(b, pos) {
        assert(key_of(a, pos).subrange(4, 36) =~= a@);
        assert(key_of(b, pos).subrange(4, 36) =~= b@);
        assert(a =~= b);
    }
}

/// Two forks that agree on the leaf count, the block number and every block hash up to `k`
/// derive the same fork key for every position whose appending block's parent is numbered at
/// most `k`.
pub proof fn lemma_shared_history_same_fork_key<S, T>(x: Storage<S>, y: Storage<T>, k: u64, pos: u64)
    requires
        x.number_of_leaves == y.number_of_leaves,
        x.block_number == y.block_number,
        forall|n: u64| n <= k ==> #[trigger] x.block_hashes@.contains_key(n)
            == y.block_hashes@.contains_key(n),
        forall|n: u64| n <= k && x.block_hashes@.contains_key(n) ==> #[trigger] x.block_hashes@[n]
            == y.block_hashes@[n],
        x.parent_number_spec(pos) <= k,
    ensures
        x.parent_number_spec(pos) == y.parent_number_spec(pos),
        x.block_hashes@.contains_key(x.parent_number_spec(pos)) == y.block_hashes@.contains_key(
            y.parent_number_spec(pos),
        ),
        x.block_hashes@.contains_key(x.parent_number_spec(pos)) ==> key_of(
            x.block_hashes@[x.parent_number_spec(pos)],
            pos,
        ) == key_of(y.block_hashes@[y.parent_number_spec(pos)], pos),
{
}

/// While walking from `start`, the met positions are exactly those of the ascending `store`
/// below the walk's position.
proof fn lemma_stored_count(store: Seq<u64>, start: u64, n: nat)
    requires
        strictly_ascending(store),
    ensures
        stored_count(store, start, n) <= store.len(),
        forall|j: int| 0 <= j < stored_count(store, start, n) ==> store[j] < start + n,
        stored_count(store, start, n) < store.len() ==> store[stored_count(store, start, n) as int]
            >= start + n || store[stored_count(store, start, n) as int] < start,
    decreases n,
{
    if n > 0 {
        lemma_stored_count(store, start, (n - 1) as nat);
        let c = stored_count(store, start, (n - 1) as nat);
        if c < store.len() && store[c as int] == start + n - 1 && c + 1 < store.len() {
            assert(store[c as int] < store[c + 1 as int]);
        }
    }
}

/// A walk over `n` nodes from `start` meets every position of the ascending `store` when all
/// of them lie in `[start, start + n)`.
proof fn lemma_all_met(store: Seq<u64>, start: u64, n: nat)
    requires
        strictly_ascending(store),
        forall|j: int| 0 <= j < store.len() ==> start <= #[trigger] store[j] < start + n,
    ensures
        stored_count(store, start, n) == store.len(),
{
    lemma_stored_count(store, start, n);
}

/// The first `n + 1` entries of `s` hold what the first `n` hold and `s[n]`.
proof fn lemma_take_one_more(s: Seq<u64>, n: int)
    requires
        0 <= n < s.len(),
    ensures
        forall|p: u64| #[trigger] s.take(n + 1).contains(p) <==> (s.take(n).contains(p) || p == s[n]),
{
    assert(s.take(n + 1) =~= s.take(n).push(s[n]));
    assert forall|p: u64| #[trigger] s.take(n + 1).contains(p) <==> (s.take(n).contains(p) || p
        == s[n]) by {
        if s.take(n).contains(p) {
            let k = choose|k: int| 0 <= k < n && #[trigger] s.take(n)[k] == p;
            assert(s.take(n + 1)[k] == p);
        }
        if p == s[n] {
            assert(s.take(n + 1)[n] == p);
        }
        if s.take(n + 1).contains(p) {
            let k = choose|k: int| 0 <= k < n + 1 && #[trigger] s.take(n + 1)[k] == p;
            if k < n {
                assert(s.take(n)[k] == p);
            }
        }
    }
}

impl Storage<RuntimeStorage> {
    /// A new runtime storage over an empty forest, for the block numbered `block_number`
    /// whose parent is `parent_hash`.
    pub fn new(block_number: u64, parent_hash: Digest) -> (r: Self)
        ensures
            r.nodes@ == Map::<u64, Digest>::empty(),
            r.number_of_leaves == 0,
            r.block_number == block_number,
            r.parent_hash == parent_hash,
            r.block_hashes@ == Map::<u64, Digest>::empty(),
            r.offchain@.len() == 0,
            r.well_formed(),
    {
        Storage {
            kind: RuntimeStorage,
            nodes: BTreeMap::new(),
            number_of_leaves: 0,
            block_number,
            parent_hash,
            block_hashes: BTreeMap::new(),
            offchain: Vec::new(),
        }
    }

    /// The durable digest at `pos`, which only a current peak has.
    pub fn get_elem(&self, pos: u64) -> (r: Result<Option<Node>, Error>)
        ensures
            r matches Ok(found) && if self.nodes@.contains_key(pos) {
                found == Some(Node::Hash(self.nodes@[pos]))
            } else {
                found is None
            },
    {
        match self.nodes.get(&pos) {
            Some(h) => Ok(Some(Node::Hash(*h))),
            None => Ok(None),
        }
    }
    /// Appends `elems`, the nodes that the insertion of new leaves produces, at position `pos`.
    ///
    /// Nothing is written when `elems` is empty. An append that does not start at the current
    /// size fails with `InconsistentStore` and writes nothing. Otherwise every node is written
    /// to the external store under the parent hash of this block and its position; the nodes
    /// at the new peaks get their digest in the durable map, in ascending order; the leaf count
    /// grows by the number of leaves among `elems`; and the old peaks that are no longer peaks
    /// leave the durable map.
    pub fn append(&mut self, pos: u64, elems: Vec<Node>) -> (r: Result<(), Error>)
        requires
            old(self).well_formed(),
            old(self).size_spec() + elems@.len() <= MAX_SIZE,
        ensures
            final(self).well_formed(),
            final(self).block_number == old(self).block_number,
            final(self).parent_hash == old(self).parent_hash,
            final(self).block_hashes@ == old(self).block_hashes@,
            elems@.len() == 0 || pos != old(self).size_spec() ==> {
                &&& r == (if elems@.len() == 0 {
                    Ok::<(), Error>(())
                } else {
                    Err(Error::InconsistentStore)
                })
                &&& final(self).nodes@ == old(self).nodes@
                &&& final(self).number_of_leaves == old(self).number_of_leaves
                &&& final(self).offchain@ == old(self).offchain@
            },
            elems@.len() > 0 && pos == old(self).size_spec() ==> {
                let (prune, store) = peak_diff(pos, (pos + elems@.len()) as u64);
                let met = store.take(stored_count(store, pos, elems@.len()) as int);
                &&& r is Ok
                &&& final(self).number_of_leaves == old(self).number_of_leaves + count_leaves(
                    elems@,
                )
                &&& entries_view(final(self).offchain@) == entries_view(old(self).offchain@)
                    + appended_records(old(self).parent_hash, pos, elems@)
                &&& final(self).nodes@ == old(self).nodes@.union_prefer_right(
                    new_peak_entries(met, pos, elems@),
                ).remove_keys(prune.to_set())
            },
            elems@.len() > 0 && pos == old(self).size_spec() && old(self).nodes@.dom()
                == peak_positions(pos).to_set() && (forall|i: int|
                0 <= i < peak_diff(pos, (pos + elems@.len()) as u64).1.len() ==> pos <= #[trigger] peak_diff(
                pos,
                (pos + elems@.len()) as u64,
            ).1[i]) ==> final(self).nodes@.dom() == peak_positions(
                (pos + elems@.len()) as u64,
            ).to_set(),
    {
        if elems.len() == 0 {
            return Ok(());
        }
        let leaves = self.number_of_leaves;
        let size = size(leaves);
        if pos != size {
            return Err(Error::InconsistentStore);
        }
        proof {
            lemma_popcount_le(leaves);
        }
        let new_size = size + elems.len() as u64;
        let (prune, store) = peaks_to_prune_and_store(size, new_size);

        let parent_hash = self.parent_hash;
        let mut leaf_index = leaves;
        let mut node_index = size;
        let mut cursor: usize = 0;
        let mut i: usize = 0;
        assert(elems@.take(0) =~= Seq::<Node>::empty());
        assert(appended_records(parent_hash, size, elems@.take(0)) =~= Seq::empty());
        assert(entries_view(self.offchain@) + Seq::empty() =~= entries_view(self.offchain@));
        assert(self.nodes@.union_prefer_right(new_peak_entries(store@.take(0), size, elems@))
            =~= self.nodes@);
        while i < elems.len()
            invariant
                i <= elems@.len(),
                size == old(self).size_spec(),
                leaves == old(self).number_of_leaves,
                leaves <= size,
                size + elems@.len() <= MAX_SIZE,
                node_index == size + i,
                cursor == stored_count(store@, size, i as nat),
                cursor <= store@.len(),
                leaf_index == leaves + count_leaves(elems@.take(i as int)),
                leaf_index <= leaves + i,
                parent_hash == old(self).parent_hash,
                self.number_of_leaves == old(self).number_of_leaves,
                self.block_number == old(self).block_number,
                self.parent_hash == old(self).parent_hash,
                self.block_hashes@ == old(self).block_hashes@,
                entries_view(self.offchain@) == entries_view(old(self).offchain@)
                    + appended_records(parent_hash, size, elems@.take(i as int)),
                self.nodes@ == old(self).nodes@.union_prefer_right(
                    new_peak_entries(store@.take(cursor as int), size, elems@),
                ),
            decreases elems@.len() - i,
        {
            let elem = &elems[i];
            let key = offchain_key(&parent_hash, node_index);
            let value = elem.encode();
            let ghost written = self.offchain@;
            let ghost record = (key@, value@);
            self.offchain.push((key, value));
            assert(entries_view(self.offchain@) =~= entries_view(written).push(record));
            assert(elems@.take(i + 1).drop_last() =~= elems@.take(i as int));
            assert(appended_records(parent_hash, size, elems@.take(i + 1)) =~= appended_records(
                parent_hash,
                size,
                elems@.take(i as int),
            ).push((key_of(parent_hash, node_index), elems@[i as int].encoded())));
            assert(entries_view(self.offchain@) =~= entries_view(old(self).offchain@)
                + appended_records(parent_hash, size, elems@.take(i + 1)));

            if cursor < store.len() && store[cursor] == node_index {
                let ghost before = self.nodes@;
                self.nodes.insert(node_index, elem.hash());
                proof {
                    lemma_take_one_more(store@, cursor as int);
                    assert(self.nodes@ =~= old(self).nodes@.union_prefer_right(
                        new_peak_entries(store@.take(cursor + 1), size, elems@),
                    ));
                }
                cursor = cursor + 1;
            }
            if elem.is_data() {
                leaf_index = leaf_index + 1;
            }
            node_index = node_index + 1;
            i = i + 1;
        }
        assert(elems@.take(i as int) =~= elems@);
        self.number_of_leaves = leaf_index;

        let ghost walked = self.nodes@;
        let mut j: usize = 0;
        assert(walked.remove_keys(prune@.take(0).to_set()) =~= walked);
        while j < prune.len()
            invariant
                j <= prune@.len(),
                self.nodes@ == walked.remove_keys(prune@.take(j as int).to_set()),
                self.number_of_leaves == leaf_index,
                self.block_number == old(self).block_number,
                self.parent_hash == old(self).parent_hash,
                self.block_hashes@ == old(self).block_hashes@,
                entries_view(self.offchain@) == entries_view(old(self).offchain@)
                    + appended_records(parent_hash, size, elems@),
            decreases prune@.len() - j,
        {
            self.nodes.remove(&prune[j]);
            proof {
                lemma_take_one_more(prune@, j as int);
                assert(self.nodes@ =~= walked.remove_keys(prune@.take(j + 1).to_set()));
            }
            j = j + 1;
        }
        assert(prune@.take(j as int) =~= prune@);
        proof {
            let before = peak_positions(size);
            let after = peak_positions(new_size);
            let diff = peak_diff(pos, (pos + elems@.len()) as u64);
            if old(self).nodes@.dom() == before.to_set() && (forall|i: int|
                0 <= i < diff.1.len() ==> pos <= #[trigger] diff.1[i]) {
                assert(diff.1 == store@);
                assert forall|i: int| 0 <= i < store@.len() implies size <= #[trigger] store@[i]
                    < size + elems@.len() by {
                    assert(diff.1[i] == store@[i]);
                }
                lemma_all_met(store@, size, elems@.len());
                assert(store@.take(store@.len() as int) =~= store@);
                lemma_prefix_len_bounds(before, after, 0);
                let k = common_prefix_len(before, after) as int;
                assert(before.take(k) =~= after.take(k));
                assert forall|i: int| k <= i < after.len() implies size <= after[i] by {
                    assert(after[i] == store@[i - k]);
                }
                lemma_apply_diff(before, after, k, size);
                let met_map = new_peak_entries(store@, size, elems@);
                assert(met_map.dom() =~= store@.to_set());
                assert(self.nodes@.dom() =~= before.to_set().union(store@.to_set()).difference(
                    prune@.to_set(),
                ));
                assert(self.nodes@.dom() =~= after.to_set());
            }
        }
        Ok(())
    }
}

} // verus!

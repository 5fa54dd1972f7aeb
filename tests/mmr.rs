use pallet_mmr::node::{decode, Digest, Leaf, Node};
use pallet_mmr::peaks::{peaks, peaks_to_prune_and_store};
use pallet_mmr::storage::{offchain_key, Error, OffchainStorage, RuntimeStorage, Storage};
use pallet_mmr::utils::{leaf_index_that_added_node, size};
use std::collections::BTreeMap;

fn leaf(tag: u8) -> Node {
    Node::Data(Leaf { payload: vec![tag, tag, tag], digest: [tag; 32] })
}

fn inner(pos: u64) -> Node {
    Node::Hash([200u8.wrapping_add(pos as u8); 32])
}

/// The nodes that inserting the leaf number `leaves` produces: the leaf and one inner node
/// per merge, one merge for each trailing one bit of the previous leaf count.
fn expansion(leaves: u64, start: u64) -> Vec<Node> {
    let mut out = vec![leaf(leaves as u8)];
    for k in 0..leaves.trailing_ones() as u64 {
        out.push(inner(start + 1 + k));
    }
    out
}

fn block_hash(n: u64) -> Digest {
    let mut h = [0u8; 32];
    h[0] = n as u8;
    h[1] = 0xb1;
    h
}

fn keys(s: &Storage<RuntimeStorage>) -> Vec<u64> {
    s.nodes.keys().copied().collect()
}

#[test]
fn peaks_of_small_sizes() {
    assert_eq!(peaks(0), Vec::<u64>::new());
    assert_eq!(peaks(1), vec![0]);
    assert_eq!(peaks(3), vec![2]);
    assert_eq!(peaks(4), vec![2, 3]);
    assert_eq!(peaks(7), vec![6]);
    assert_eq!(peaks(8), vec![6, 7]);
    assert_eq!(peaks(10), vec![6, 9]);
    assert_eq!(peaks(11), vec![6, 9, 10]);
    assert_eq!(peaks(15), vec![14]);
}

#[test]
fn peaks_twice_agree() {
    for n in 0..64u64 {
        assert_eq!(peaks(n), peaks(n));
    }
}

#[test]
fn diff_drops_common_prefix() {
    assert_eq!(peaks_to_prune_and_store(0, 1), (vec![], vec![0]));
    assert_eq!(peaks_to_prune_and_store(1, 3), (vec![0], vec![2]));
    assert_eq!(peaks_to_prune_and_store(3, 4), (vec![], vec![3]));
    assert_eq!(peaks_to_prune_and_store(4, 7), (vec![2, 3], vec![6]));
    assert_eq!(peaks_to_prune_and_store(8, 10), (vec![7], vec![9]));
    assert_eq!(peaks_to_prune_and_store(10, 11), (vec![], vec![10]));
}

#[test]
fn diff_applied_to_old_peaks_gives_new_peaks() {
    let sizes: Vec<u64> = (0..40u64).map(size).collect();
    for (i, &old) in sizes.iter().enumerate() {
        for &new in &sizes[i..] {
            let (prune, store) = peaks_to_prune_and_store(old, new);
            assert!(prune.iter().all(|p| !store.contains(p)));
            let mut set: Vec<u64> = peaks(old).into_iter().filter(|p| !prune.contains(p)).collect();
            set.extend(store.iter().copied());
            set.sort();
            assert_eq!(set, peaks(new));
        }
    }
}

#[test]
fn size_from_leaves() {
    assert_eq!(size(0), 0);
    assert_eq!(size(1), 1);
    assert_eq!(size(2), 3);
    assert_eq!(size(3), 4);
    assert_eq!(size(4), 7);
    assert_eq!(size(5), 8);
    assert_eq!(size(8), 15);
}

#[test]
fn leaf_that_added_each_node() {
    let expected = [0u64, 1, 1, 2, 3, 3, 3, 4, 5, 5, 6];
    for (pos, &li) in expected.iter().enumerate() {
        assert_eq!(leaf_index_that_added_node(pos as u64), li, "pos {}", pos);
    }
}

#[test]
fn node_encoding_round_trips() {
    let l = leaf(7);
    let bytes = l.encode();
    assert_eq!(bytes.len(), 1 + 32 + 3);
    assert_eq!(bytes[0], 0);
    match decode(&bytes) {
        Some(Node::Data(d)) => {
            assert_eq!(d.payload, vec![7, 7, 7]);
            assert_eq!(d.digest, [7u8; 32]);
        }
        _ => panic!("leaf did not decode"),
    }
    let h = Node::Hash([9u8; 32]);
    let bytes = h.encode();
    assert_eq!(bytes.len(), 33);
    assert_eq!(bytes[0], 1);
    assert!(matches!(decode(&bytes), Some(Node::Hash(d)) if d == [9u8; 32]));
}

#[test]
fn decode_rejects_malformed_bytes() {
    assert!(decode(&vec![0u8; 32]).is_none());
    assert!(decode(&vec![2u8; 40]).is_none());
    let mut long_hash = vec![1u8];
    long_hash.extend_from_slice(&[0u8; 33]);
    assert!(decode(&long_hash).is_none());
}

#[test]
fn digest_of_each_variant() {
    assert_eq!(leaf(4).hash(), [4u8; 32]);
    assert_eq!(Node::Hash([5u8; 32]).hash(), [5u8; 32]);
    assert!(leaf(4).is_data());
    assert!(!Node::Hash([5u8; 32]).is_data());
}

#[test]
fn offchain_key_layout() {
    let fork = [3u8; 32];
    let key = offchain_key(&fork, 0x0102);
    let mut expected = vec![12u8, b'm', b'm', b'r'];
    expected.extend_from_slice(&fork);
    expected.extend_from_slice(&[2, 1, 0, 0, 0, 0, 0, 0]);
    assert_eq!(key, expected);
    assert_ne!(offchain_key(&[4u8; 32], 0x0102), key);
}

#[test]
fn append_first_leaf() {
    let mut s = Storage::new(1, block_hash(0));
    assert_eq!(s.append(0, vec![leaf(1)]), Ok(()));
    assert_eq!(s.number_of_leaves, 1);
    assert_eq!(peaks(size(1)), vec![0]);
    assert_eq!(keys(&s), vec![0]);
    assert_eq!(s.nodes[&0], [1u8; 32]);
    assert_eq!(s.offchain.len(), 1);
    assert_eq!(s.offchain[0].0, offchain_key(&block_hash(0), 0));
    assert_eq!(s.offchain[0].1, leaf(1).encode());
}

#[test]
fn append_second_leaf_merges() {
    let mut s = Storage::new(1, block_hash(0));
    s.append(0, vec![leaf(1)]).unwrap();
    s.block_number = 2;
    s.parent_hash = block_hash(1);
    let merged = Node::Hash([42u8; 32]);
    assert_eq!(peaks_to_prune_and_store(1, 3), (vec![0], vec![2]));
    assert_eq!(s.append(1, vec![leaf(2), merged]), Ok(()));
    assert_eq!(s.number_of_leaves, 2);
    assert_eq!(keys(&s), vec![2]);
    assert_eq!(s.nodes[&2], [42u8; 32]);
    let positions: Vec<Vec<u8>> = s.offchain.iter().map(|e| e.0.clone()).collect();
    assert_eq!(
        positions,
        vec![
            offchain_key(&block_hash(0), 0),
            offchain_key(&block_hash(1), 1),
            offchain_key(&block_hash(1), 2)
        ]
    );
}

#[test]
fn append_at_wrong_position_is_rejected() {
    let mut s = Storage::new(1, block_hash(0));
    s.append(0, vec![leaf(1)]).unwrap();
    let nodes = s.nodes.clone();
    let records = s.offchain.len();
    assert_eq!(s.append(0, vec![leaf(2), inner(2)]), Err(Error::InconsistentStore));
    assert_eq!(s.append(5, vec![leaf(2), inner(2)]), Err(Error::InconsistentStore));
    assert_eq!(s.nodes, nodes);
    assert_eq!(s.number_of_leaves, 1);
    assert_eq!(s.offchain.len(), records);
}

#[test]
fn append_nothing_is_a_no_op() {
    let mut s = Storage::new(1, block_hash(0));
    s.append(0, vec![leaf(1)]).unwrap();
    assert_eq!(s.append(1, vec![]), Ok(()));
    assert_eq!(s.append(7, vec![]), Ok(()));
    assert_eq!(keys(&s), vec![0]);
    assert_eq!(s.number_of_leaves, 1);
    assert_eq!(s.offchain.len(), 1);
}

#[test]
fn durable_map_holds_exactly_the_peaks() {
    let mut s = Storage::new(1, block_hash(0));
    for n in 0..40u64 {
        s.block_number = n + 1;
        s.parent_hash = block_hash(n);
        let at = size(n);
        let elems = expansion(n, at);
        let added = elems.len() as u64;
        assert_eq!(s.append(at, elems), Ok(()));
        assert_eq!(s.number_of_leaves, n + 1);
        assert_eq!(size(n + 1), at + added);
        assert_eq!(keys(&s), peaks(size(n + 1)));
        assert_eq!(s.offchain.len() as u64, size(n + 1));
    }
}

#[test]
fn runtime_get_elem_reads_peaks_only() {
    let mut s = Storage::new(1, block_hash(0));
    s.append(0, vec![leaf(1)]).unwrap();
    s.append(1, vec![leaf(2), Node::Hash([42u8; 32])]).unwrap();
    assert!(matches!(s.get_elem(2), Ok(Some(Node::Hash(h))) if h == [42u8; 32]));
    assert!(matches!(s.get_elem(0), Ok(None)));
    assert!(matches!(s.get_elem(1), Ok(None)));
}

/// Builds a chain of `blocks` blocks, one leaf each, whose block `n` has hash `hash(n)`, and
/// returns the read-only storage at its tip.
fn chain(blocks: u64, hash: &dyn Fn(u64) -> Digest) -> Storage<OffchainStorage> {
    let mut s = Storage::new(1, hash(0));
    let mut block_hashes = BTreeMap::new();
    for n in 0..blocks {
        s.block_number = n + 1;
        s.parent_hash = hash(n);
        block_hashes.insert(n, hash(n));
        let at = size(n);
        s.append(at, expansion(n, at)).unwrap();
    }
    block_hashes.insert(blocks, hash(blocks));
    Storage {
        kind: OffchainStorage,
        nodes: s.nodes,
        number_of_leaves: s.number_of_leaves,
        block_number: blocks,
        parent_hash: hash(blocks - 1),
        block_hashes,
        offchain: s.offchain,
    }
}

#[test]
fn offchain_get_elem_recovers_every_node() {
    let s = chain(6, &block_hash);
    for n in 0..6u64 {
        let at = size(n);
        for (k, node) in expansion(n, at).into_iter().enumerate() {
            let pos = at + k as u64;
            assert_eq!(s.parent_hash_of_ancestor_that_added_node(pos), Some(block_hash(n)));
            let got = s.get_elem(pos).unwrap().expect("node present");
            assert_eq!(got.encode(), node.encode());
        }
    }
}

#[test]
fn offchain_get_elem_without_retained_ancestor() {
    let mut s = chain(4, &block_hash);
    s.block_hashes.remove(&0);
    assert!(matches!(s.get_elem(0), Ok(None)));
    assert!(s.get_elem(1).unwrap().is_some());
}

#[test]
fn forks_share_keys_only_before_divergence() {
    let fork_hash = |n: u64| if n <= 2 { block_hash(n) } else { let mut h = block_hash(n); h[2] = 0xf0; h };
    let a = chain(6, &block_hash);
    let b = chain(6, &fork_hash);
    for pos in 0..size(6) {
        let ka = a.parent_hash_of_ancestor_that_added_node(pos).unwrap();
        let kb = b.parent_hash_of_ancestor_that_added_node(pos).unwrap();
        if leaf_index_that_added_node(pos) <= 2 {
            assert_eq!(ka, kb);
        } else {
            assert_ne!(ka, kb);
        }
    }
    // A position appended after the fork on branch b is not visible through branch a's keys.
    let mut mixed = a;
    mixed.offchain = b.offchain.clone();
    let late = size(5);
    assert!(matches!(mixed.get_elem(late), Ok(None)));
    assert!(mixed.get_elem(0).unwrap().is_some());
}

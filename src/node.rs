//! Nodes of the forest and the byte form in which the external store keeps them.

use vstd::prelude::*;

verus! {

/// Digest of a node: a fixed-width hash.
pub type Digest = [u8; 32];

/// A leaf as appended by the application: its encoded payload and the digest of that payload.
#[derive(Clone, Debug)]
pub struct Leaf {
    pub payload: Vec<u8>,
    pub digest: Digest,
}

/// A node of the forest: a full leaf, or only the digest of a leaf or an inner node.
#[derive(Clone, Debug)]
pub enum Node {
    Data(Leaf),
    Hash(Digest),
}

/// Tag byte of an encoded leaf.
pub const DATA_TAG: u8 = 0;

/// Tag byte of an encoded digest.
pub const HASH_TAG: u8 = 1;

impl Node {
    /// The canonical digest of the node.
    pub open spec fn digest(&self) -> Digest {
        match self {
            Node::Data(leaf) => leaf.digest,
            Node::Hash(h) => *h,
        }
    }

    /// Whether the node is a leaf with its full content.
    pub open spec fn is_leaf(&self) -> bool {
        self is Data
    }

    /// The bytes under which the node is stored: a tag, the digest, and for a leaf its payload.
    pub open spec fn encoded(&self) -> Seq<u8> {
        match self {
            Node::Data(leaf) => seq![DATA_TAG] + leaf.digest@ + leaf.payload@,
            Node::Hash(h) => seq![HASH_TAG] + h@,
        }
    }

    /// The digest of the node.
    pub fn hash(&self) -> (r: Digest)
        ensures
            r == self.digest(),
    {
        match self {
            Node::Data(leaf) => leaf.digest,
            Node::Hash(h) => *h,
        }
    }

    /// Whether the node is a leaf.
    pub fn is_data(&self) -> (r: bool)
        ensures
            r == self.is_leaf(),
    {
        match self {
            Node::Data(_) => true,
            Node::Hash(_) => false,
        }
    }

    /// The stored byte form of the node.
    pub fn encode(&self) -> (r: Vec<u8>)
        ensures
            r@ == self.encoded(),
    {
        let mut out: Vec<u8> = Vec::new();
        let digest = self.hash();
        match self {
            Node::Data(_) => out.push(DATA_TAG),
            Node::Hash(_) => out.push(HASH_TAG),
        }
        let mut i: usize = 0;
        while i < 32
            invariant
                0 <= i <= 32,
                out@.len() == 1 + i,
                out@.skip(1) == digest@.take(i as int),
                out@[0] == if self.is_leaf() { DATA_TAG } else { HASH_TAG },
            decreases 32 - i,
        {
            out.push(digest[i]);
            i = i + 1;
            assert(out@.skip(1) =~= digest@.take(i as int));
        }
        assert(digest@.take(32) =~= digest@);
        assert(out@ =~= seq![out@[0]] + out@.skip(1));
        if let Node::Data(leaf) = self {
            let mut j: usize = 0;
            while j < leaf.payload.len()
                invariant
                    0 <= j <= leaf.payload@.len(),
                    out@ == seq![DATA_TAG] + digest@ + leaf.payload@.take(j as int),
                decreases leaf.payload@.len() - j,
            {
                out.push(leaf.payload[j]);
                j = j + 1;
                assert(out@ =~= seq![DATA_TAG] + digest@ + leaf.payload@.take(j as int));
            }
            assert(leaf.payload@.take(j as int) =~= leaf.payload@);
        } else {
            assert(out@ =~= seq![HASH_TAG] + digest@);
        }
        out
    }
}

/// Whether `b` is the byte form of some node.
pub open spec fn decodable(b: Seq<u8>) -> bool {
    &&& b.len() >= 33
    &&& (b[0] == DATA_TAG || (b[0] == HASH_TAG && b.len() == 33))
}

/// Every encoded node is decodable.
pub proof fn lemma_encoded_decodable(n: Node)
    ensures
        decodable(n.encoded()),
{
    match n {
        Node::Data(leaf) => assert(n.encoded()[0] == DATA_TAG),
        Node::Hash(h) => assert(n.encoded()[0] == HASH_TAG),
    }
}

/// Reads the 32-byte digest that starts at `start`.
fn read_hash(b: &Vec<u8>, start: usize) -> (r: Digest)
    requires
        start + 32 <= b@.len(),
    ensures
        r@ == b@.subrange(start as int, start + 32),
{
    let len = b.len();
    let mut h: Digest = [0u8; 32];
    let mut i: usize = 0;
    while i < 32
        invariant
            0 <= i <= 32,
            len == b@.len(),
            start + 32 <= b@.len(),
            forall|k: int| 0 <= k < i ==> h@[k] == b@[start + k],
        decreases 32 - i,
    {
        h[i] = b[start + i];
        i = i + 1;
    }
    assert(h@ =~= b@.subrange(start as int, start + 32));
    h
}

/// Reads a node back from its stored byte form; `None` where the bytes are no node's form.
pub fn decode(b: &Vec<u8>) -> (r: Option<Node>)
    ensures
        r is Some <==> decodable(b@),
        r matches Some(n) ==> n.encoded() == b@,
{
    if b.len() < 33 {
        return None;
    }
    let digest = read_hash(b, 1);
    if b[0] == DATA_TAG {
        let mut payload: Vec<u8> = Vec::new();
        let mut j: usize = 33;
        while j < b.len()
            invariant
                33 <= j <= b@.len(),
                payload@ == b@.subrange(33, j as int),
            decreases b@.len() - j,
        {
            payload.push(b[j]);
            j = j + 1;
            assert(payload@ =~= b@.subrange(33, j as int));
        }
        let n = Node::Data(Leaf { payload, digest });
        assert(n.encoded() =~= b@);
        Some(n)
    } else if b[0] == HASH_TAG && b.len() == 33 {
        let n = Node::Hash(digest);
        assert(n.encoded() =~= b@);
        Some(n)
    } else {
        None
    }
}

} // verus!

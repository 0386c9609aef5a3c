//! The merkle root of a list of transactions.

use crate::types::{u256_bytes, len_bytes, push_u256, push_u64, Transaction};
use vstd::prelude::*;

verus! {

/// The root of the binary tree of fingerprints over a block's transactions.
#[derive(Clone, Copy, Debug, PartialEq, Eq, Structural)]
pub struct MerkleRoot(pub crate::sha256::Hash);

/// The fingerprint of a pair of fingerprints: of the bytes of the number
/// two, then the left one, then the right one.
pub open spec fn pair_hash(left: crate::sha256::Hash, right: crate::sha256::Hash) -> crate::sha256::Hash {
    crate::sha256::Hash::of(len_bytes(2) + u256_bytes(left.0) + u256_bytes(right.0))
}

/// The fingerprints of the transactions, in order.
pub open spec fn leaf_hashes(transactions: Seq<Transaction>) -> Seq<crate::sha256::Hash> {
    Seq::new(transactions.len(), |i: int| transactions[i].spec_hash())
}

/// The level above `layer`: each two neighbours paired, a last one without
/// a neighbour paired with itself.
pub open spec fn next_layer(layer: Seq<crate::sha256::Hash>) -> Seq<crate::sha256::Hash> {
    Seq::new(
        ((layer.len() + 1) / 2) as nat,
        |i: int|
            pair_hash(
                layer[2 * i],
                if 2 * i + 1 < layer.len() {
                    layer[2 * i + 1]
                } else {
                    layer[2 * i]
                },
            ),
    )
}

/// The single fingerprint that remains when a non-empty level is paired up
/// again and again.
pub open spec fn layer_root(layer: Seq<crate::sha256::Hash>) -> crate::sha256::Hash
    decreases layer.len(),
{
    if layer.len() <= 1 {
        layer[0]
    } else {
        layer_root(next_layer(layer))
    }
}

impl MerkleRoot {
    /// The merkle root of a non-empty list of transactions.
    pub open spec fn of(transactions: Seq<Transaction>) -> MerkleRoot {
        MerkleRoot(layer_root(leaf_hashes(transactions)))
    }

    /// Computes the merkle root of the transactions of a block.
    pub fn calculate(transactions: &Vec<Transaction>) -> (r: MerkleRoot)
        requires
            transactions@.len() > 0,
        ensures
            r == MerkleRoot::of(transactions@),
    {
        let mut layer: Vec<crate::sha256::Hash> = Vec::new();
        let mut i: usize = 0;
        while i < transactions.len()
            invariant
                i <= transactions.len(),
                layer@ == leaf_hashes(transactions@).take(i as int),
            decreases transactions.len() - i,
        {
            layer.push(transactions[i].hash());
            assert(layer@ =~= leaf_hashes(transactions@).take(i + 1));
            i = i + 1;
        }
        assert(layer@ =~= leaf_hashes(transactions@));
        while layer.len() > 1
            invariant
                layer@.len() > 0,
                layer_root(layer@) == layer_root(leaf_hashes(transactions@)),
            decreases layer@.len(),
        {
            let mut above: Vec<crate::sha256::Hash> = Vec::new();
            let pairs: usize = layer.len() / 2 + layer.len() % 2;
            let mut k: usize = 0;
            while k < pairs
                invariant
                    k <= pairs,
                    pairs == (layer@.len() + 1) / 2,
                    layer@.len() <= 2 * pairs <= layer@.len() + 1,
                    layer@.len() <= usize::MAX,
                    above@ == next_layer(layer@).take(k as int),
                decreases pairs - k,
            {
                let left = layer[2 * k];
                let right = if 2 * k + 1 < layer.len() {
                    layer[2 * k + 1]
                } else {
                    layer[2 * k]
                };
                let mut bytes: Vec<u8> = Vec::new();
                push_u64(&mut bytes, 2);
                push_u256(&mut bytes, left.0);
                push_u256(&mut bytes, right.0);
                assert(bytes@ =~= len_bytes(2) + u256_bytes(left.0) + u256_bytes(right.0));
                above.push(crate::sha256::Hash::hash(&bytes));
                assert(above@ =~= next_layer(layer@).take(k + 1));
                k = k + 1;
            }
            assert(above@ =~= next_layer(layer@));
            layer = above;
        }
        MerkleRoot(layer[0])
    }
}

/// Computing the root twice gives the same root: it depends on the
/// fingerprints of the transactions, in their order, and on nothing else.
pub proof fn lemma_merkle_root_deterministic(a: Seq<Transaction>, b: Seq<Transaction>)
    requires
        a.len() == b.len(),
        forall|i: int| 0 <= i < a.len() ==> a[i].spec_hash() == b[i].spec_hash(),
    ensures
        MerkleRoot::of(a) == MerkleRoot::of(b),
{
    assert(leaf_hashes(a) =~= leaf_hashes(b));
}

/// Whether the fingerprint is free of collisions on the pairs that are
/// hashed on the way from two levels of one length to their roots: where
/// two pairs at one place have one fingerprint, they are one pair.
pub open spec fn collision_free(a: Seq<crate::sha256::Hash>, b: Seq<crate::sha256::Hash>) -> bool
    decreases a.len(),
{
    if a.len() <= 1 || a.len() != b.len() {
        true
    } else {
        &&& forall|i: int|
            0 <= i < (a.len() + 1) / 2 && #[trigger] next_layer(a)[i] == next_layer(b)[i] ==> {
                &&& a[2 * i] == b[2 * i]
                &&& 2 * i + 1 < a.len() ==> a[2 * i + 1] == b[2 * i + 1]
            }
        &&& collision_free(next_layer(a), next_layer(b))
    }
}

/// Two levels of one length with one root are one level, where the
/// fingerprint is free of collisions on the pairs hashed.
pub proof fn lemma_layers_equal(a: Seq<crate::sha256::Hash>, b: Seq<crate::sha256::Hash>)
    requires
        a.len() == b.len(),
        a.len() >= 1,
        collision_free(a, b),
        layer_root(a) == layer_root(b),
    ensures
        a == b,
    decreases a.len(),
{
    if a.len() > 1 {
        let na = next_layer(a);
        let nb = next_layer(b);
        lemma_layers_equal(na, nb);
        assert forall|j: int| 0 <= j < a.len() implies a[j] == b[j] by {
            let i = j / 2;
            assert(na[i] == nb[i]);
        }
    }
    assert(a =~= b);
}

/// A list of transactions that differs from another of the same length in
/// the fingerprint of the transaction at one place has another merkle root,
/// where the fingerprint is free of collisions on the pairs hashed.
pub proof fn lemma_merkle_root_sensitive(a: Seq<Transaction>, b: Seq<Transaction>, i: int)
    requires
        a.len() == b.len(),
        0 <= i < a.len(),
        a[i].spec_hash() != b[i].spec_hash(),
        collision_free(leaf_hashes(a), leaf_hashes(b)),
    ensures
        MerkleRoot::of(a) != MerkleRoot::of(b),
{
    if layer_root(leaf_hashes(a)) == layer_root(leaf_hashes(b)) {
        lemma_layers_equal(leaf_hashes(a), leaf_hashes(b));
        assert(leaf_hashes(a)[i] == a[i].spec_hash());
        assert(leaf_hashes(b)[i] == b[i].spec_hash());
    }
}

/// A list in which two transactions with different fingerprints change
/// places has another merkle root, where the fingerprint is free of
/// collisions on the pairs hashed.
pub proof fn lemma_merkle_root_order(t: Seq<Transaction>, i: int, j: int)
    requires
        0 <= i < t.len(),
        0 <= j < t.len(),
        i != j,
        t[i].spec_hash() != t[j].spec_hash(),
        collision_free(leaf_hashes(t), leaf_hashes(t.update(i, t[j]).update(j, t[i]))),
    ensures
        MerkleRoot::of(t.update(i, t[j]).update(j, t[i])) != MerkleRoot::of(t),
{
    let swapped = t.update(i, t[j]).update(j, t[i]);
    assert(swapped[i] == t[j]);
    lemma_merkle_root_sensitive(t, swapped, i);
}

} // verus!

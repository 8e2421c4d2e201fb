use vstd::prelude::*;

use crate::errors::Error;
use crate::hashing::{hash_pair, hash_pair_bytes};
use crate::leaf::{leaf_hash, valid_address, Leaf, LeafView};
use crate::tree::{
    build_levels, bytes_eq, bytes_views, chain_wf, combine_level, leaf_hashes,
    lemma_build_levels_wf, pad_level,
};

verus! {

// ---------------------------------------------------------------------------
// The proof walk and the verification recomputation, as specifications.
// ---------------------------------------------------------------------------

/// The position of a node's pairing partner at its level: positions pair as
/// `(2j, 2j+1)`, so the partner is found by flipping the lowest bit.
pub open spec fn sibling_position(j: int) -> int {
    if j % 2 == 0 {
        j + 1
    } else {
        j - 1
    }
}

/// One verification step: an even position is the left operand of its pair,
/// an odd position the right one.
pub open spec fn combine_step(h: Seq<u8>, sib: Seq<u8>, idx: int) -> Seq<u8> {
    if idx % 2 == 0 {
        hash_pair_bytes(h, sib)
    } else {
        hash_pair_bytes(sib, h)
    }
}

/// The ordered sibling hashes needed to recompute the root from position
/// `index` of the bottom level, bottom to top.
pub open spec fn proof_path(lv: Seq<Seq<Seq<u8>>>, index: int) -> Seq<Seq<u8>>
    decreases lv.len(),
{
    if lv.len() <= 1 {
        Seq::empty()
    } else {
        seq![lv[0][sibling_position(index)]] + proof_path(lv.drop_first(), index / 2)
    }
}

/// The verification recomputation: fold the path over the leaf hash,
/// halving the index at each step, and accept the moment the running hash
/// equals the claimed root, or reject once the path is exhausted.
pub open spec fn verify_chain(root: Seq<u8>, h: Seq<u8>, path: Seq<Seq<u8>>, idx: int) -> bool
    decreases path.len(),
{
    if h == root {
        true
    } else if path.len() == 0 {
        false
    } else {
        verify_chain(root, combine_step(h, path[0], idx), path.drop_first(), idx / 2)
    }
}

/// What the proof walk returns for a leaf claimed to sit at `index`: its
/// path when the leaf's hash is stored at that position of a tree with more
/// than one node, and the exact failure otherwise.
pub open spec fn walk_result(lv: Seq<Seq<Seq<u8>>>, leaf: LeafView, index: int) -> Result<
    Seq<Seq<u8>>,
    Error,
> {
    if !valid_address(leaf.address) {
        Err(Error::MalformedLeaf)
    } else if lv.len() <= 1 || index >= lv[0].len() || lv[0][index] != leaf_hash(leaf) {
        Err(Error::NoProof)
    } else {
        Ok(proof_path(lv, index))
    }
}

// ---------------------------------------------------------------------------
// The walk reaches the root.
// ---------------------------------------------------------------------------

/// Law: on a well-formed chain of levels, the recomputation along the proof
/// path from any bottom-level position ends at the root, so verification
/// accepts.
pub proof fn lemma_walk_reaches_root(lv: Seq<Seq<Seq<u8>>>, index: int)
    requires
        chain_wf(lv),
        0 <= index < lv[0].len(),
    ensures
        verify_chain(lv.last()[0], lv[0][index], proof_path(lv, index), index),
    decreases lv.len(),
{
    reveal(chain_wf);
    if lv.len() == 1 {
        assert(lv.last() == lv[0]);
    } else {
        let rest = lv.drop_first();
        let sib = sibling_position(index);
        let j2 = index / 2;
        assert(lv[0].len() >= 2 && lv[0].len() % 2 == 0);
        assert(0 <= sib < lv[0].len());
        let stepped = combine_step(lv[0][index], lv[0][sib], index);
        assert(stepped == combine_level(lv[0])[j2]) by {
            if index % 2 == 0 {
                assert(2 * j2 == index);
            } else {
                assert(2 * j2 == index - 1);
            }
        }
        assert(0 <= j2 < combine_level(lv[0]).len());
        assert(lv[1] == pad_level(combine_level(lv[0])));
        assert(lv[1][j2] == combine_level(lv[0])[j2]);
        assert(chain_wf(rest)) by {
            assert(rest.last() == lv.last());
            assert forall|k: int| 0 <= k < rest.len() - 1 implies (#[trigger] rest[k]).len() >= 2
                && rest[k].len() % 2 == 0 && rest[k + 1] == pad_level(combine_level(rest[k])) by {
                assert(rest[k] == lv[k + 1]);
                assert(rest[k + 1] == lv[k + 2]);
            }
        }
        assert(0 <= j2 < rest[0].len());
        lemma_walk_reaches_root(rest, j2);
        let path = proof_path(lv, index);
        assert(path == seq![lv[0][sib]] + proof_path(rest, j2));
        assert(path.len() >= 1);
        assert(path[0] == lv[0][sib]);
        assert(path.drop_first() =~= proof_path(rest, j2));
        assert(rest.last() == lv.last());
        if lv[0][index] != lv.last()[0] {
            assert(verify_chain(lv.last()[0], stepped, proof_path(rest, j2), j2));
        }
    }
}

/// One step of the walk: collecting the sibling at level `k` extends the
/// collected prefix of the proof path, and the halved position stays inside
/// the next level up.
pub proof fn lemma_path_step(
    lv: Seq<Seq<Seq<u8>>>,
    k: int,
    idx: int,
    prefix: Seq<Seq<u8>>,
    index: int,
)
    requires
        chain_wf(lv),
        0 <= k < lv.len() - 1,
        0 <= idx < lv[k].len(),
        prefix + proof_path(lv.skip(k), idx) == proof_path(lv, index),
    ensures
        0 <= sibling_position(idx) < lv[k].len(),
        0 <= idx / 2 < lv[k + 1].len(),
        prefix.push(lv[k][sibling_position(idx)]) + proof_path(lv.skip(k + 1), idx / 2)
            == proof_path(lv, index),
{
    reveal(chain_wf);
    let tail = lv.skip(k);
    assert(tail[0] == lv[k]);
    assert(tail.drop_first() =~= lv.skip(k + 1));
    assert(proof_path(tail, idx) == seq![lv[k][sibling_position(idx)]] + proof_path(
        lv.skip(k + 1),
        idx / 2,
    ));
    assert(lv[k + 1] == pad_level(combine_level(lv[k])));
    assert(idx / 2 < combine_level(lv[k]).len());
    assert(prefix.push(lv[k][sibling_position(idx)]) + proof_path(lv.skip(k + 1), idx / 2) =~= prefix
        + proof_path(tail, idx));
}

/// After the walk has crossed every level below the root, the collected
/// prefix is the whole proof path.
pub proof fn lemma_path_done(lv: Seq<Seq<Seq<u8>>>, k: int, idx: int, prefix: Seq<Seq<u8>>, index: int)
    requires
        chain_wf(lv),
        k == lv.len() - 1,
        prefix + proof_path(lv.skip(k), idx) == proof_path(lv, index),
    ensures
        prefix == proof_path(lv, index),
{
    reveal(chain_wf);
    assert(lv.skip(k).len() == 1);
    assert(proof_path(lv.skip(k), idx) =~= Seq::<Seq<u8>>::empty());
    assert(prefix =~= prefix + Seq::<Seq<u8>>::empty());
}

/// Law: for every non-empty leaf list, the proof path produced for any leaf
/// index verifies against the root of the tree built over those leaves.
pub proof fn lemma_generated_proof_verifies(leaves: Seq<LeafView>, index: int)
    requires
        leaves.len() >= 1,
        0 <= index < leaves.len(),
    ensures
        ({
            let lv = build_levels(leaf_hashes(leaves));
            verify_chain(lv.last()[0], leaf_hash(leaves[index]), proof_path(lv, index), index)
        }),
{
    lemma_build_levels_wf(leaf_hashes(leaves));
    let lv = build_levels(leaf_hashes(leaves));
    assert(lv[0] == pad_level(leaf_hashes(leaves)));
    assert(lv[0][index] == leaf_hash(leaves[index]));
    lemma_walk_reaches_root(lv, index);
}

/// Law: a single-leaf tree's root is the hash of its one leaf, and the walk
/// yields no proof for it.
pub proof fn lemma_single_leaf_tree(leaf: LeafView)
    requires
        valid_address(leaf.address),
    ensures
        build_levels(leaf_hashes(seq![leaf])) == seq![seq![leaf_hash(leaf)]],
        walk_result(build_levels(leaf_hashes(seq![leaf])), leaf, 0) == Err::<Seq<Seq<u8>>, Error>(
            Error::NoProof,
        ),
{
    let lh = leaf_hashes(seq![leaf]);
    assert(lh =~= seq![leaf_hash(leaf)]);
    assert(pad_level(lh) == lh);
    assert(build_levels(lh) =~~= seq![seq![leaf_hash(leaf)]]);
}

/// Law: with an odd leaf count, the last leaf is duplicated at the bottom
/// level; the duplicate's proof path equals the original's, and both verify
/// against the same root, one as the left and one as the right operand of
/// their shared pair.
pub proof fn lemma_duplicate_leaf_proof(leaves: Seq<LeafView>)
    requires
        leaves.len() >= 3,
        leaves.len() % 2 == 1,
    ensures
        ({
            let lv = build_levels(leaf_hashes(leaves));
            let n = leaves.len() as int;
            &&& lv[0].len() == n + 1
            &&& lv[0][n] == lv[0][n - 1]
            &&& proof_path(lv, n) == proof_path(lv, n - 1)
            &&& verify_chain(lv.last()[0], lv[0][n - 1], proof_path(lv, n - 1), n - 1)
            &&& verify_chain(lv.last()[0], lv[0][n], proof_path(lv, n), n)
        }),
{
    reveal(chain_wf);
    let lh = leaf_hashes(leaves);
    let n = leaves.len() as int;
    lemma_build_levels_wf(lh);
    let lv = build_levels(lh);
    assert(lv[0] == pad_level(lh));
    assert(lv[0].len() == n + 1);
    assert(lv[0][n] == lv[0][n - 1]);
    if lv.len() == 1 {
        assert(lv.last() == lv[0]);
        assert(false);
    }
    assert(sibling_position(n) == n - 1);
    assert(sibling_position(n - 1) == n);
    assert(n / 2 == (n - 1) / 2);
    assert(proof_path(lv, n) =~= proof_path(lv, n - 1));
    lemma_walk_reaches_root(lv, n - 1);
    lemma_walk_reaches_root(lv, n);
}

// ---------------------------------------------------------------------------
// Inclusion proofs and the verifier.
// ---------------------------------------------------------------------------

/// An inclusion proof handed to the sink: the root it commits to, and the
/// ordered sibling hashes from the leaf's level up to the root.
#[derive(Clone, Debug)]
pub struct Proof {
    pub root: Vec<u8>,
    pub path: Vec<Vec<u8>>,
}

/// Recompute the root from a leaf, an ordered sibling path and the leaf's
/// index, and compare with the claimed root. Accepts exactly when the leaf's
/// address is well formed, every path element is a 32-byte node hash, and
/// the recomputation meets the root.
pub fn verify_proof(merkle_root: Vec<u8>, leaf: Leaf, hashes: Vec<Vec<u8>>, index: usize) -> (r:
    bool)
    ensures
        r == ({
            &&& valid_address(leaf@.address)
            &&& forall|i: int| 0 <= i < hashes@.len() ==> (#[trigger] hashes@[i])@.len() == 32
            &&& verify_chain(merkle_root@, leaf_hash(leaf@), bytes_views(hashes@), index as int)
        }),
{
    let lh = match Leaf::hash_leaf(&leaf) {
        Ok(h) => h,
        Err(_) => {
            return false;
        },
    };
    let mut i: usize = 0;
    while i < hashes.len()
        invariant
            i <= hashes@.len(),
            forall|j: int| 0 <= j < i ==> (#[trigger] hashes@[j])@.len() == 32,
        decreases hashes@.len() - i,
    {
        if hashes[i].len() != 32 {
            return false;
        }
        i += 1;
    }
    let mut current = lh;
    let mut idx = index;
    let mut k: usize = 0;
    proof {
        assert(bytes_views(hashes@).skip(0) =~= bytes_views(hashes@));
    }
    while k < hashes.len()
        invariant
            k <= hashes@.len(),
            current@.len() == 32,
            valid_address(leaf@.address),
            forall|j: int| 0 <= j < hashes@.len() ==> (#[trigger] hashes@[j])@.len() == 32,
            verify_chain(merkle_root@, leaf_hash(leaf@), bytes_views(hashes@), index as int)
                == verify_chain(
                merkle_root@,
                current@,
                bytes_views(hashes@).skip(k as int),
                idx as int,
            ),
        decreases hashes@.len() - k,
    {
        if bytes_eq(&current, &merkle_root) {
            return true;
        }
        let next = if idx % 2 == 0 {
            hash_pair(&current, &hashes[k])
        } else {
            hash_pair(&hashes[k], &current)
        };
        proof {
            let tail = bytes_views(hashes@).skip(k as int);
            assert(tail.len() == hashes@.len() - k);
            assert(tail[0] == hashes@[k as int]@);
            assert(tail.drop_first() =~= bytes_views(hashes@).skip(k as int + 1));
        }
        current = next;
        idx = idx / 2;
        k += 1;
    }
    proof {
        assert(bytes_views(hashes@).skip(k as int) =~= Seq::<Seq<u8>>::empty());
    }
    bytes_eq(&current, &merkle_root)
}

} // verus!

use vstd::prelude::*;

use crate::errors::Error;
use crate::hashing::{hash_leaf_bytes, hash_leaf_raw, hash_pair, hash_pair_bytes, zero_bytes};
use crate::leaf::{leaf_hash, valid_address, Leaf, LeafView};
use crate::proofs::{
    lemma_path_done, lemma_path_step, lemma_walk_reaches_root, proof_path, verify_chain,
    walk_result, Proof,
};

verus! {

// ---------------------------------------------------------------------------
// Sequence views of the executable data.
// ---------------------------------------------------------------------------

/// Views of a vector of byte vectors.
pub open spec fn bytes_views(v: Seq<Vec<u8>>) -> Seq<Seq<u8>> {
    Seq::new(v.len(), |i: int| v[i]@)
}

/// Views of a vector of levels.
pub open spec fn level_views(v: Seq<Vec<Vec<u8>>>) -> Seq<Seq<Seq<u8>>> {
    Seq::new(v.len(), |i: int| bytes_views(v[i]@))
}

/// Views of a vector of leaves.
pub open spec fn leaf_views(v: Seq<Leaf>) -> Seq<LeafView> {
    Seq::new(v.len(), |i: int| v[i]@)
}

/// The leaf hashes, in input order.
pub open spec fn leaf_hashes(leaves: Seq<LeafView>) -> Seq<Seq<u8>> {
    Seq::new(leaves.len(), |i: int| leaf_hash(leaves[i]))
}

/// Every leaf has a well-formed address.
pub open spec fn all_valid(leaves: Seq<LeafView>) -> bool {
    forall|i: int| 0 <= i < leaves.len() ==> valid_address(#[trigger] leaves[i].address)
}

// ---------------------------------------------------------------------------
// The level-by-level construction.
// ---------------------------------------------------------------------------

/// Duplicate the last node of an odd-width level (other than a lone root),
/// so that pairing is total. The duplicate takes the next position, which is
/// odd, making it the right operand of its pair.
pub open spec fn pad_level(l: Seq<Seq<u8>>) -> Seq<Seq<u8>> {
    if l.len() > 1 && l.len() % 2 == 1 {
        l.push(l.last())
    } else {
        l
    }
}

/// Hash consecutive pairs `(2j, 2j+1)` of an even-width level into the next
/// level up.
pub open spec fn combine_level(l: Seq<Seq<u8>>) -> Seq<Seq<u8>> {
    Seq::new(l.len() / 2, |j: int| hash_pair_bytes(l[2 * j], l[2 * j + 1]))
}

/// All levels of the tree over the given leaf hashes, bottom level first.
/// Each stored level is already padded; levels are combined upward until a
/// single node, the root, remains.
pub open spec fn build_levels(l: Seq<Seq<u8>>) -> Seq<Seq<Seq<u8>>>
    decreases l.len(),
{
    let p = pad_level(l);
    if p.len() <= 1 {
        seq![p]
    } else {
        seq![p] + build_levels(combine_level(p))
    }
}

/// Structural well-formedness of a chain of levels: every level below the
/// root is even-width and at least a pair wide, each level is the padded
/// combination of the one below it, and the top level is the lone root.
/// Opaque: each level mentions the one below it, so an exposed quantifier
/// would let the solver unfold the chain without bound.
#[verifier::opaque]
pub open spec fn chain_wf(lv: Seq<Seq<Seq<u8>>>) -> bool {
    &&& lv.len() >= 1
    &&& lv.last().len() == 1
    &&& forall|k: int| 0 <= k < lv.len() - 1 ==> (#[trigger] lv[k]).len() >= 2
    &&& forall|k: int| 0 <= k < lv.len() - 1 ==> (#[trigger] lv[k]).len() % 2 == 0
    &&& forall|k: int| 0 <= k < lv.len() - 1 ==> lv[k + 1] == pad_level(
        combine_level(#[trigger] lv[k]),
    )
}

/// Every stored node hash is 32 bytes wide.
pub open spec fn all_len32(lv: Seq<Seq<Seq<u8>>>) -> bool {
    forall|k: int, j: int|
        0 <= k < lv.len() && 0 <= j < lv[k].len() ==> (#[trigger] lv[k][j]).len() == 32
}

/// Padding is idempotent, so building from a padded level builds the same
/// chain.
pub proof fn lemma_build_levels_pad(l: Seq<Seq<u8>>)
    ensures
        build_levels(pad_level(l)) == build_levels(l),
{
    assert(pad_level(pad_level(l)) == pad_level(l));
}

/// The chain built over a non-empty level is structurally well formed and
/// starts with that level, padded.
pub proof fn lemma_build_levels_wf(l: Seq<Seq<u8>>)
    requires
        l.len() >= 1,
    ensures
        chain_wf(build_levels(l)),
        build_levels(l)[0] == pad_level(l),
    decreases l.len(),
{
    reveal(chain_wf);
    let p = pad_level(l);
    let lv = build_levels(l);
    if p.len() <= 1 {
        assert(lv.last() == p);
    } else {
        let rest = build_levels(combine_level(p));
        lemma_build_levels_wf(combine_level(p));
        assert(lv.last() == rest.last());
        assert(lv[0] == p);
        assert(lv[1] == rest[0]);
        assert(rest[0] == pad_level(combine_level(p)));
        assert forall|k: int| 0 <= k < lv.len() - 1 implies (#[trigger] lv[k]).len() >= 2
            && lv[k].len() % 2 == 0 && lv[k + 1] == pad_level(combine_level(lv[k])) by {
            if k > 0 {
                assert(lv[k] == rest[k - 1]);
                assert(lv[k + 1] == rest[k]);
            }
        }
    }
}

// ---------------------------------------------------------------------------
// Small verified byte-vector helpers.
// ---------------------------------------------------------------------------

pub(crate) fn clone_bytes(v: &Vec<u8>) -> (r: Vec<u8>)
    ensures
        r@ == v@,
{
    let mut r: Vec<u8> = Vec::new();
    let mut i: usize = 0;
    while i < v.len()
        invariant
            i <= v@.len(),
            r@ == v@.take(i as int),
        decreases v@.len() - i,
    {
        let b = v[i];
        r.push(b);
        proof {
            assert(r@ =~= v@.take(i + 1));
        }
        i += 1;
    }
    proof {
        assert(r@ =~= v@);
    }
    r
}

pub(crate) fn bytes_eq(a: &Vec<u8>, b: &Vec<u8>) -> (r: bool)
    ensures
        r == (a@ == b@),
{
    if a.len() != b.len() {
        proof {
            assert(a@ != b@);
        }
        return false;
    }
    let mut i: usize = 0;
    while i < a.len()
        invariant
            i <= a@.len(),
            a@.len() == b@.len(),
            forall|j: int| 0 <= j < i ==> a@[j] == b@[j],
        decreases a@.len() - i,
    {
        if a[i] != b[i] {
            proof {
                assert(a@ != b@);
            }
            return false;
        }
        i += 1;
    }
    proof {
        assert(a@ =~= b@);
    }
    true
}

// ---------------------------------------------------------------------------
// The tree.
// ---------------------------------------------------------------------------

/// A built Merkle tree: its root hash, and every level of node hashes,
/// bottom level (the padded leaf hashes) first. The levels store the tree
/// positionally, so a sibling is found by flipping the lowest bit of a
/// node's position, and hash collisions between distinct leaves cannot
/// corrupt proof reconstruction.
#[derive(Clone, Debug)]
pub struct Tree {
    root: Vec<u8>,
    levels: Vec<Vec<Vec<u8>>>,
}

impl Tree {
    /// The chain of levels, as sequences.
    pub closed spec fn levels_view(&self) -> Seq<Seq<Seq<u8>>> {
        level_views(self.levels@)
    }

    /// The root hash, as a sequence.
    pub closed spec fn spec_root(&self) -> Seq<u8> {
        self.root@
    }

    /// A well-formed tree: its levels are exactly the chain built over its
    /// own bottom level, all stored hashes are 32 bytes, and the stored root
    /// is the lone node of the top level.
    pub open spec fn wf(&self) -> bool {
        &&& self.levels_view().len() >= 1
        &&& self.levels_view()[0].len() >= 1
        &&& self.levels_view() == build_levels(self.levels_view()[0])
        &&& all_len32(self.levels_view())
        &&& self.spec_root() == self.levels_view().last()[0]
    }

    /// A degenerate placeholder tree: the single hash of the all-zero
    /// address with amount zero.
    pub fn spawn() -> (t: Tree)
        ensures
            t.wf(),
            t.levels_view() == seq![seq![hash_leaf_bytes(zero_bytes(20), 0)]],
            t.spec_root() == hash_leaf_bytes(zero_bytes(20), 0),
    {
        let mut addr: Vec<u8> = Vec::new();
        let mut i: usize = 0;
        while i < 20
            invariant
                i <= 20,
                addr@.len() == i,
                forall|j: int| 0 <= j < i ==> addr@[j] == 0u8,
            decreases 20 - i,
        {
            addr.push(0u8);
            i += 1;
        }
        proof {
            assert(addr@ =~= zero_bytes(20));
        }
        let h = hash_leaf_raw(&addr, 0);
        let root = clone_bytes(&h);
        let mut level: Vec<Vec<u8>> = Vec::new();
        level.push(h);
        let mut levels: Vec<Vec<Vec<u8>>> = Vec::new();
        levels.push(level);
        let t = Tree { root, levels };
        proof {
            assert(t.levels_view() =~~= seq![seq![hash_leaf_bytes(zero_bytes(20), 0)]]);
            assert(t.levels_view() =~~= build_levels(t.levels_view()[0]));
        }
        t
    }

    /// Build the tree over the given leaves. The input order fixes each
    /// leaf's index, which decides its left/right role at every level.
    /// Consumes the placeholder it is called on (`Tree::spawn().new(..)`)
    /// and returns the freshly built tree.
    pub fn new(self, leafs: &Vec<Leaf>) -> (r: Result<Tree, Error>)
        ensures
            match r {
                Ok(t) => {
                    &&& leafs@.len() >= 1
                    &&& all_valid(leaf_views(leafs@))
                    &&& t.wf()
                    &&& t.levels_view() == build_levels(leaf_hashes(leaf_views(leafs@)))
                    &&& t.spec_root() == build_levels(leaf_hashes(leaf_views(leafs@))).last()[0]
                },
                Err(e) => {
                    &&& (e == Error::InvalidInput <==> leafs@.len() == 0)
                    &&& (e == Error::MalformedLeaf ==> !all_valid(leaf_views(leafs@)))
                    &&& e != Error::NoProof
                },
            },
            r is Ok <==> (leafs@.len() >= 1 && all_valid(leaf_views(leafs@))),
    {
        if leafs.len() == 0 {
            return Err(Error::InvalidInput);
        }
        let ghost lh = leaf_hashes(leaf_views(leafs@));

        // Hash every leaf, preserving input order.
        let mut level0: Vec<Vec<u8>> = Vec::new();
        let mut i: usize = 0;
        while i < leafs.len()
            invariant
                i <= leafs@.len(),
                level0@.len() == i,
                forall|j: int| 0 <= j < i ==> valid_address(#[trigger] leaf_views(leafs@)[j].address),
                forall|j: int|
                    0 <= j < i ==> (#[trigger] level0@[j])@ == leaf_hash(leaf_views(leafs@)[j]),
                forall|j: int| 0 <= j < i ==> (#[trigger] level0@[j])@.len() == 32,
            decreases leafs@.len() - i,
        {
            let h = match Leaf::hash_leaf(&leafs[i]) {
                Ok(h) => h,
                Err(e) => {
                    proof {
                        assert(leaf_views(leafs@)[i as int].address == leafs@[i as int]@.address);
                        assert(!valid_address(leaf_views(leafs@)[i as int].address));
                    }
                    return Err(e);
                },
            };
            level0.push(h);
            i += 1;
        }
        proof {
            assert(bytes_views(level0@) =~= lh);
        }

        // Pad the bottom level if it is odd and wider than one node.
        if level0.len() > 1 && level0.len() % 2 == 1 {
            let last = clone_bytes(&level0[level0.len() - 1]);
            level0.push(last);
        }
        proof {
            assert(bytes_views(level0@) =~= pad_level(lh));
            lemma_build_levels_pad(lh);
        }

        // Combine levels upward until a single node remains.
        let mut levels: Vec<Vec<Vec<u8>>> = Vec::new();
        let mut cur: Vec<Vec<u8>> = level0;
        while cur.len() > 1
            invariant
                cur@.len() >= 1,
                bytes_views(cur@) == pad_level(bytes_views(cur@)),
                forall|j: int| 0 <= j < cur@.len() ==> (#[trigger] cur@[j])@.len() == 32,
                level_views(levels@) + build_levels(bytes_views(cur@)) == build_levels(lh),
                all_len32(level_views(levels@)),
            decreases cur@.len(),
        {
            let ghost prev = bytes_views(cur@);
            let mut next: Vec<Vec<u8>> = Vec::new();
            let mut j: usize = 0;
            while j < cur.len() / 2
                invariant
                    j <= cur@.len() / 2,
                    cur@.len() >= 2,
                    cur@.len() % 2 == 0,
                    forall|t: int| 0 <= t < cur@.len() ==> (#[trigger] cur@[t])@.len() == 32,
                    next@.len() == j,
                    forall|t: int|
                        0 <= t < j ==> (#[trigger] next@[t])@ == hash_pair_bytes(
                            cur@[2 * t]@,
                            cur@[2 * t + 1]@,
                        ),
                    forall|t: int| 0 <= t < j ==> (#[trigger] next@[t])@.len() == 32,
                decreases cur@.len() / 2 - j,
            {
                let h = hash_pair(&cur[2 * j], &cur[2 * j + 1]);
                next.push(h);
                j += 1;
            }
            proof {
                assert(bytes_views(next@) =~= combine_level(prev));
            }
            if next.len() > 1 && next.len() % 2 == 1 {
                let last = clone_bytes(&next[next.len() - 1]);
                next.push(last);
            }
            proof {
                assert(bytes_views(next@) =~= pad_level(combine_level(prev)));
                lemma_build_levels_pad(combine_level(prev));
            }
            let ghost old_levels = levels@;
            levels.push(cur);
            cur = next;
            proof {
                assert(level_views(levels@) =~~= level_views(old_levels).push(prev));
                assert(level_views(levels@) + build_levels(bytes_views(cur@)) =~~= level_views(
                    old_levels,
                ) + (seq![prev] + build_levels(combine_level(prev))));
                assert(seq![prev] + build_levels(combine_level(prev)) == build_levels(prev));
            }
        }

        // The lone remaining node is the root.
        let root = clone_bytes(&cur[0]);
        let ghost old_levels = levels@;
        let ghost top = bytes_views(cur@);
        levels.push(cur);
        let t = Tree { root, levels };
        proof {
            assert(build_levels(top) == seq![top]);
            assert(t.levels_view() =~~= level_views(old_levels).push(top));
            assert(t.levels_view() =~~= build_levels(lh));
            lemma_build_levels_wf(lh);
            assert(t.levels_view()[0] == pad_level(lh));
            lemma_build_levels_pad(lh);
        }
        Ok(t)
    }

    /// Hand out the root hash.
    pub fn get_root(self) -> (r: Vec<u8>)
        ensures
            r@ == self.spec_root(),
    {
        self.root
    }

    /// Walk from the leaf's position to the root, collecting the sibling
    /// hash at every level. Yields `NoProof` when the tree is a single node
    /// or the leaf's hash is not stored at the claimed position, and
    /// `MalformedLeaf` when the address does not parse.
    pub fn generate_proof(&self, leaf: &Leaf, index: usize) -> (r: Result<Vec<Vec<u8>>, Error>)
        requires
            self.wf(),
        ensures
            match r {
                Ok(path) => {
                    &&& walk_result(self.levels_view(), leaf@, index as int) == Ok::<
                        Seq<Seq<u8>>,
                        Error,
                    >(bytes_views(path@))
                    &&& bytes_views(path@) == proof_path(self.levels_view(), index as int)
                    &&& path@.len() == self.levels_view().len() - 1
                    &&& forall|i: int| 0 <= i < path@.len() ==> (#[trigger] path@[i])@.len() == 32
                    &&& verify_chain(
                        self.spec_root(),
                        leaf_hash(leaf@),
                        bytes_views(path@),
                        index as int,
                    )
                },
                Err(e) => walk_result(self.levels_view(), leaf@, index as int) == Err::<
                    Seq<Seq<u8>>,
                    Error,
                >(e),
            },
    {
        let lh = match Leaf::hash_leaf(leaf) {
            Ok(h) => h,
            Err(e) => {
                return Err(e);
            },
        };
        if self.levels.len() == 1 {
            return Err(Error::NoProof);
        }
        if index >= self.levels[0].len() {
            return Err(Error::NoProof);
        }
        if !bytes_eq(&self.levels[0][index], &lh) {
            return Err(Error::NoProof);
        }
        let ghost lv = self.levels_view();
        proof {
            lemma_build_levels_wf(lv[0]);
            assert(lv.skip(0) =~= lv);
        }
        let mut path: Vec<Vec<u8>> = Vec::new();
        let mut idx: usize = index;
        let mut k: usize = 0;
        while k < self.levels.len() - 1
            invariant
                chain_wf(lv),
                all_len32(lv),
                lv == self.levels_view(),
                self.spec_root() == lv.last()[0],
                lv.len() == self.levels@.len(),
                k < lv.len(),
                path@.len() == k,
                (idx as int) < lv[k as int].len(),
                bytes_views(path@) + proof_path(lv.skip(k as int), idx as int) == proof_path(
                    lv,
                    index as int,
                ),
                forall|i: int| 0 <= i < path@.len() ==> (#[trigger] path@[i])@.len() == 32,
            decreases lv.len() - k,
        {
            proof {
                lemma_path_step(lv, k as int, idx as int, bytes_views(path@), index as int);
            }
            let sib: usize = if idx % 2 == 0 {
                idx + 1
            } else {
                idx - 1
            };
            let ghost old_path = path@;
            let element = clone_bytes(&self.levels[k][sib]);
            path.push(element);
            proof {
                assert(bytes_views(path@) =~= bytes_views(old_path).push(
                    lv[k as int][sib as int],
                ));
            }
            idx = idx / 2;
            k += 1;
        }
        proof {
            lemma_path_done(lv, k as int, idx as int, bytes_views(path@), index as int);
            lemma_walk_reaches_root(lv, index as int);
        }
        Ok(path)
    }

    /// Walk every leaf of the list in order. Each entry is that leaf's
    /// inclusion proof against this tree's root, or the failure the walk
    /// reports for it; one failing leaf does not discard the others.
    pub fn generate_proofs(&self, leafs: &Vec<Leaf>) -> (r: Vec<Result<Proof, Error>>)
        requires
            self.wf(),
        ensures
            r@.len() == leafs@.len(),
            forall|i: int|
                0 <= i < leafs@.len() ==> batch_entry_ok(
                    #[trigger] r@[i],
                    self.levels_view(),
                    self.spec_root(),
                    leafs@[i]@,
                    i,
                ),
    {
        let mut out: Vec<Result<Proof, Error>> = Vec::new();
        let mut i: usize = 0;
        while i < leafs.len()
            invariant
                self.wf(),
                i <= leafs@.len(),
                out@.len() == i,
                forall|j: int|
                    0 <= j < i ==> batch_entry_ok(
                        #[trigger] out@[j],
                        self.levels_view(),
                        self.spec_root(),
                        leafs@[j]@,
                        j,
                    ),
            decreases leafs@.len() - i,
        {
            match self.generate_proof(&leafs[i], i) {
                Ok(path) => {
                    let root = clone_bytes(&self.root);
                    out.push(Ok(Proof { root, path }));
                },
                Err(e) => {
                    out.push(Err(e));
                },
            }
            i += 1;
        }
        out
    }
}

/// One batch entry is correct: a proof carrying the tree's root and exactly
/// the walk's path for that leaf and index, or the walk's exact failure.
pub open spec fn batch_entry_ok(
    entry: Result<Proof, Error>,
    lv: Seq<Seq<Seq<u8>>>,
    root: Seq<u8>,
    leaf: LeafView,
    index: int,
) -> bool {
    match entry {
        Ok(p) => walk_result(lv, leaf, index) == Ok::<Seq<Seq<u8>>, Error>(bytes_views(p.path@))
            && p.root@ == root,
        Err(e) => walk_result(lv, leaf, index) == Err::<Seq<Seq<u8>>, Error>(e),
    }
}

} // verus!

use vstd::prelude::*;

verus! {

/// Failure signals of the Merkle core.
///
/// `InvalidInput`: the leaf list handed to the tree builder is empty.
/// `MalformedLeaf`: a leaf address does not parse as a 0x-prefixed
/// 40-hex-digit value.
/// `NoProof`: the requested leaf has no inclusion proof in the tree
/// (single-leaf tree, or the leaf is not at the given position).
#[derive(Clone, Copy, Debug, PartialEq, Eq, Structural)]
pub enum Error {
    InvalidInput,
    MalformedLeaf,
    NoProof,
}

} // verus!

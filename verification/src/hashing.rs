use vstd::prelude::*;

verus! {

// ---------------------------------------------------------------------------
// Byte-level model of the ABI encodings that feed every hash in this crate.
//
// Leaves are hashed as the ABI tuple (address, uint256); internal nodes as the
// ABI tuple (bytes, bytes) with two 32-byte operands. Both layouts are fixed
// and stated here byte for byte, so that the on-chain encoding contract is
// part of the specification rather than hidden behind an opaque call.
// ---------------------------------------------------------------------------

/// `n` zero bytes.
pub open spec fn zero_bytes(n: nat) -> Seq<u8> {
    Seq::new(n, |i: int| 0u8)
}

/// A 32-byte ABI word holding `n` in big-endian form.
pub open spec fn abi_word(n: u32) -> Seq<u8> {
    zero_bytes(28) + seq![
        ((n >> 24) & 0xff) as u8,
        ((n >> 16) & 0xff) as u8,
        ((n >> 8) & 0xff) as u8,
        (n & 0xff) as u8,
    ]
}

/// ABI tuple encoding of `(address, uint256)` for a 20-byte address and a
/// 32-bit amount: one word with the address right-aligned, one word with the
/// amount right-aligned. 64 bytes in all.
pub open spec fn abi_encode_leaf(addr: Seq<u8>, amount: u32) -> Seq<u8> {
    zero_bytes(12) + addr + abi_word(amount)
}

/// ABI tuple encoding of `(bytes, bytes)` where both operands are exactly
/// 32 bytes: two head words holding the tail offsets (0x40 and 0x80), then
/// each operand as a length word followed by its data. 192 bytes in all.
pub open spec fn abi_encode_pair(a: Seq<u8>, b: Seq<u8>) -> Seq<u8> {
    abi_word(64) + abi_word(128) + abi_word(32) + a + abi_word(32) + b
}

/// The keccak256 digest of `input`. The digest itself is not modelled; it is
/// a fixed function of the input bytes alone, computed by the outside crate.
pub uninterp spec fn keccak256_of(input: Seq<u8>) -> Seq<u8>;

/// Hash of a leaf record: keccak256 over the ABI encoding of
/// `(address, uint256)`.
pub open spec fn hash_leaf_bytes(addr: Seq<u8>, amount: u32) -> Seq<u8> {
    keccak256_of(abi_encode_leaf(addr, amount))
}

/// Hash of two sibling nodes: keccak256 over the ABI encoding of
/// `(bytes, bytes)`. Order-sensitive: the operands are laid out left to
/// right in the pre-image.
pub open spec fn hash_pair_bytes(a: Seq<u8>, b: Seq<u8>) -> Seq<u8> {
    keccak256_of(abi_encode_pair(a, b))
}

// ---------------------------------------------------------------------------
// Trusted calls into the outside crate.
// ---------------------------------------------------------------------------

/// Relies on ethers::utils::keccak256: the Keccak-256 digest, 32 bytes,
/// a function of the input bytes alone.
#[verifier::external_body]
fn keccak256_call(input: &Vec<u8>) -> (r: Vec<u8>)
    ensures
        r@ == keccak256_of(input@),
        r@.len() == 32,
{
    ethers::utils::keccak256(input.as_slice()).to_vec()
}

/// Relies on ethers::abi::encode of `(Token::Address, Token::Uint)`: one
/// 32-byte word with the 20 address bytes right-aligned, then one 32-byte
/// word with the amount in big-endian form right-aligned.
#[verifier::external_body]
fn abi_encode_leaf_call(addr: &Vec<u8>, amount: u32) -> (r: Vec<u8>)
    requires
        addr@.len() == 20,
    ensures
        r@ == abi_encode_leaf(addr@, amount),
{
    let a = ethers::abi::Token::Address(ethers::types::H160::from_slice(addr.as_slice()));
    let m = ethers::abi::Token::Uint(ethers::types::U256::from(amount));
    ethers::abi::encode(&[a, m])
}

/// Relies on ethers::abi::encode of `(Token::Bytes, Token::Bytes)` with two
/// 32-byte operands: head words 0x40 and 0x80, then each operand as a length
/// word (32) followed by its 32 data bytes.
#[verifier::external_body]
fn abi_encode_pair_call(a: &Vec<u8>, b: &Vec<u8>) -> (r: Vec<u8>)
    requires
        a@.len() == 32,
        b@.len() == 32,
    ensures
        r@ == abi_encode_pair(a@, b@),
{
    let left = ethers::abi::Token::Bytes(a.clone());
    let right = ethers::abi::Token::Bytes(b.clone());
    ethers::abi::encode(&[left, right])
}

// ---------------------------------------------------------------------------
// Verified hashing entry points.
// ---------------------------------------------------------------------------

/// Hash two 32-byte sibling node hashes into their parent's hash.
pub fn hash_pair(a: &Vec<u8>, b: &Vec<u8>) -> (r: Vec<u8>)
    requires
        a@.len() == 32,
        b@.len() == 32,
    ensures
        r@ == hash_pair_bytes(a@, b@),
        r@.len() == 32,
{
    let encoded = abi_encode_pair_call(a, b);
    keccak256_call(&encoded)
}

/// Hash a 20-byte address and an amount into the leaf's hash.
pub fn hash_leaf_raw(addr: &Vec<u8>, amount: u32) -> (r: Vec<u8>)
    requires
        addr@.len() == 20,
    ensures
        r@ == hash_leaf_bytes(addr@, amount),
        r@.len() == 32,
{
    let encoded = abi_encode_leaf_call(addr, amount);
    keccak256_call(&encoded)
}

// ---------------------------------------------------------------------------
// Order sensitivity of the pair encoding.
// ---------------------------------------------------------------------------

/// Law: the pair encoding is order-sensitive. Swapping two distinct 32-byte
/// operands changes the hash pre-image, so the left/right role of a sibling
/// is committed to by the encoding itself.
pub proof fn lemma_pair_encoding_order_sensitive(a: Seq<u8>, b: Seq<u8>)
    requires
        a.len() == 32,
        b.len() == 32,
        a != b,
    ensures
        abi_encode_pair(a, b) != abi_encode_pair(b, a),
{
    if forall|i: int| 0 <= i < 32 ==> a[i] == b[i] {
        assert(a =~= b);
    }
    let i = choose|i: int| 0 <= i < 32 && a[i] != b[i];
    assert(abi_encode_pair(a, b)[96 + i] == a[i]);
    assert(abi_encode_pair(b, a)[96 + i] == b[i]);
}

} // verus!

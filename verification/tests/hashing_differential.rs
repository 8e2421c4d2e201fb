use std::str::FromStr;

use ethers::abi::{self, Token};
use ethers::types::{H160, U256};
use ethers::utils::keccak256;

use sol_merkle::{hash_pair, Leaf};

// These tests recompute each hash directly through the outside crate and
// hold the library's result to it, so a wrapper that mangled or passed
// through its input would be caught.

#[test]
fn leaf_hash_matches_direct_abi_encoding() {
    let address = "0x7c2c195cd6d34b8f845992d380aadb2730bb9c6f";
    let amount: u32 = 1234;
    let leaf = Leaf::new(String::from(address), amount);
    let got = Leaf::hash_leaf(&leaf).expect("leaf should hash");

    let tokens = [
        Token::Address(H160::from_str(address).expect("address should parse")),
        Token::Uint(U256::from(amount)),
    ];
    let expected = keccak256(abi::encode(&tokens)).to_vec();
    assert_eq!(got, expected);
}

#[test]
fn pair_hash_matches_direct_abi_encoding() {
    let a: Vec<u8> = (0u8..32).collect();
    let b: Vec<u8> = (100u8..132).collect();
    let got = hash_pair(&a, &b);

    let tokens = [Token::Bytes(a.clone()), Token::Bytes(b.clone())];
    let expected = keccak256(abi::encode(&tokens)).to_vec();
    assert_eq!(got, expected);
}

#[test]
fn pair_hash_is_not_plain_concatenation_hash() {
    // The pair pre-image is the length-prefixed ABI tuple, not the raw
    // 64-byte concatenation used by some other Merkle conventions.
    let a = vec![0x01u8; 32];
    let b = vec![0x02u8; 32];
    let mut concat = a.clone();
    concat.extend_from_slice(&b);
    assert_ne!(hash_pair(&a, &b), keccak256(concat).to_vec());
}

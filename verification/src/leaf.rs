use vstd::prelude::*;

use crate::errors::Error;
use crate::hashing::{hash_leaf_bytes, hash_leaf_raw};

verus! {

// ---------------------------------------------------------------------------
// Addresses: 0x-prefixed, 40 hex digits, 20 bytes once decoded.
// ---------------------------------------------------------------------------

/// Value of a hex digit, or -1 for any other character.
pub open spec fn hex_digit_value(c: char) -> int {
    if '0' <= c && c <= '9' {
        c as int - '0' as int
    } else if 'a' <= c && c <= 'f' {
        10 + c as int - 'a' as int
    } else if 'A' <= c && c <= 'F' {
        10 + c as int - 'A' as int
    } else {
        -1
    }
}

pub open spec fn is_hex_digit(c: char) -> bool {
    hex_digit_value(c) >= 0
}

/// A well-formed address string: `0x` followed by exactly 40 hex digits.
pub open spec fn valid_address(s: Seq<char>) -> bool {
    &&& s.len() == 42
    &&& s[0] == '0'
    &&& s[1] == 'x'
    &&& forall|i: int| 2 <= i < 42 ==> is_hex_digit(#[trigger] s[i])
}

/// The 20 bytes a well-formed address string decodes to.
pub open spec fn address_bytes(s: Seq<char>) -> Seq<u8> {
    Seq::new(20, |i: int| (hex_digit_value(s[2 + 2 * i]) * 16 + hex_digit_value(s[3 + 2 * i])) as u8)
}

/// Decode one hex digit.
fn hex_digit(c: char) -> (r: Option<u8>)
    ensures
        match r {
            Some(v) => is_hex_digit(c) && v as int == hex_digit_value(c) && v < 16,
            None => !is_hex_digit(c),
        },
{
    let v = c as u32;
    if 48 <= v && v <= 57 {
        Some((v - 48) as u8)
    } else if 97 <= v && v <= 102 {
        Some((v - 87) as u8)
    } else if 65 <= v && v <= 70 {
        Some((v - 55) as u8)
    } else {
        None
    }
}

/// Decode an address string into its 20 bytes, or report a malformed leaf.
pub fn parse_address(s: &String) -> (r: Result<Vec<u8>, Error>)
    ensures
        match r {
            Ok(bytes) => valid_address(s@) && bytes@ == address_bytes(s@) && bytes@.len() == 20,
            Err(e) => e == Error::MalformedLeaf && !valid_address(s@),
        },
{
    let slice = s.as_str();
    if slice.unicode_len() != 42 {
        return Err(Error::MalformedLeaf);
    }
    if slice.get_char(0) != '0' || slice.get_char(1) != 'x' {
        return Err(Error::MalformedLeaf);
    }
    let mut bytes: Vec<u8> = Vec::new();
    let mut i: usize = 0;
    while i < 20
        invariant
            i <= 20,
            slice@ == s@,
            s@.len() == 42,
            s@[0] == '0',
            s@[1] == 'x',
            bytes@.len() == i,
            forall|j: int| 2 <= j < 2 + 2 * i ==> is_hex_digit(#[trigger] s@[j]),
            forall|j: int| 0 <= j < i ==>
                #[trigger] bytes@[j] as int
                    == hex_digit_value(s@[2 + 2 * j]) * 16 + hex_digit_value(s@[3 + 2 * j]),
        decreases 20 - i,
    {
        let hi = match hex_digit(slice.get_char(2 + 2 * i)) {
            Some(v) => v,
            None => {
                return Err(Error::MalformedLeaf);
            },
        };
        let lo = match hex_digit(slice.get_char(3 + 2 * i)) {
            Some(v) => v,
            None => {
                return Err(Error::MalformedLeaf);
            },
        };
        bytes.push(hi * 16 + lo);
        i += 1;
    }
    proof {
        assert(valid_address(s@));
        assert(bytes@ =~= address_bytes(s@));
    }
    Ok(bytes)
}

// ---------------------------------------------------------------------------
// Leaf records.
// ---------------------------------------------------------------------------

/// The mathematical content of a leaf: its address string and its amount.
pub struct LeafView {
    pub address: Seq<char>,
    pub amount: u32,
}

/// An allowlist entry: an address rendered as a hex string, and an amount.
/// Immutable once constructed; its identity in the tree is its hash.
#[derive(Clone, Debug)]
pub struct Leaf {
    address: String,
    amount: u32,
}

impl View for Leaf {
    type V = LeafView;

    closed spec fn view(&self) -> LeafView {
        LeafView { address: self.address@, amount: self.amount }
    }
}

/// Hash of a leaf, as a function of its view: keccak256 over the ABI
/// encoding of its decoded address and its amount.
pub open spec fn leaf_hash(l: LeafView) -> Seq<u8> {
    hash_leaf_bytes(address_bytes(l.address), l.amount)
}

impl Leaf {
    pub fn new(address: String, amount: u32) -> (l: Leaf)
        ensures
            l@.address == address@,
            l@.amount == amount,
    {
        Self { address, amount }
    }

    /// Hash a leaf record, or report that its address is malformed.
    pub fn hash_leaf(input: &Leaf) -> (r: Result<Vec<u8>, Error>)
        ensures
            match r {
                Ok(h) => valid_address(input@.address) && h@ == leaf_hash(input@) && h@.len() == 32,
                Err(e) => e == Error::MalformedLeaf && !valid_address(input@.address),
            },
    {
        let addr = match parse_address(&input.address) {
            Ok(a) => a,
            Err(e) => {
                return Err(e);
            },
        };
        Ok(hash_leaf_raw(&addr, input.amount))
    }
}

} // verus!

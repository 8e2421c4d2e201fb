use sol_merkle::{hash_pair, verify_proof, Error, Leaf, Tree};

fn addr(last_byte: &str) -> String {
    let mut s = String::from("0x");
    for _ in 0..19 {
        s.push_str("aa");
    }
    s.push_str(last_byte);
    s
}

fn sample_leaves(n: usize) -> Vec<Leaf> {
    let suffixes = ["01", "02", "03", "04", "05", "06", "07"];
    let mut leaves = Vec::new();
    for i in 0..n {
        leaves.push(Leaf::new(addr(suffixes[i]), (10 * (i as u32 + 1)) as u32));
    }
    leaves
}

fn build(leaves: &Vec<Leaf>) -> Tree {
    Tree::spawn().new(leaves).expect("tree should build")
}

#[test]
fn four_leaves_all_proofs_verify() {
    let leaves = sample_leaves(4);
    let tree = build(&leaves);
    let root = tree.clone().get_root();
    for i in 0..4 {
        let path = tree.generate_proof(&leaves[i], i).expect("proof expected");
        assert_eq!(path.len(), 2);
        assert!(verify_proof(
            root.clone(),
            Leaf::new(addr(["01", "02", "03", "04"][i]), 10 * (i as u32 + 1)),
            path,
            i
        ));
    }
}

#[test]
fn hash_pair_is_order_sensitive() {
    let a = vec![0x11u8; 32];
    let b = vec![0x22u8; 32];
    assert_ne!(hash_pair(&a, &b), hash_pair(&b, &a));
}

#[test]
fn swapped_sibling_order_fails_verification() {
    // With two leaves the single proof step uses the index parity to pick
    // the operand order; the wrong parity must not reproduce the root.
    let leaves = sample_leaves(2);
    let tree = build(&leaves);
    let root = tree.clone().get_root();
    let path = tree.generate_proof(&leaves[0], 0).expect("proof expected");
    assert!(verify_proof(root.clone(), Leaf::new(addr("01"), 10), path.clone(), 0));
    assert!(!verify_proof(root, Leaf::new(addr("01"), 10), path, 1));
}

#[test]
fn single_leaf_tree_root_is_leaf_hash_and_no_proof() {
    let leaves = vec![Leaf::new(addr("01"), 7)];
    let tree = build(&leaves);
    let expected = Leaf::hash_leaf(&leaves[0]).expect("leaf should hash");
    assert_eq!(tree.clone().get_root(), expected);
    assert_eq!(tree.generate_proof(&leaves[0], 0), Err(Error::NoProof));
}

#[test]
fn odd_leaf_count_duplicate_shares_proof() {
    // Three leaves: the last is duplicated at the bottom level, so position 3
    // holds the same hash as position 2, the two proof paths coincide, and
    // both positions verify against the same root.
    let leaves = sample_leaves(3);
    let tree = build(&leaves);
    let root = tree.clone().get_root();
    let original = tree.generate_proof(&leaves[2], 2).expect("proof expected");
    let duplicate = tree.generate_proof(&leaves[2], 3).expect("proof expected");
    assert_eq!(original, duplicate);
    assert!(verify_proof(root.clone(), Leaf::new(addr("03"), 30), original, 2));
    assert!(verify_proof(root, Leaf::new(addr("03"), 30), duplicate, 3));
}

#[test]
fn three_leaf_example_is_stable_and_tamper_evident() {
    let leaves = sample_leaves(3);
    let first = build(&leaves).get_root();
    let second = build(&leaves).get_root();
    assert_eq!(first, second);

    let tree = build(&leaves);
    for i in 0..3 {
        let path = tree.generate_proof(&leaves[i], i).expect("proof expected");
        assert!(verify_proof(
            first.clone(),
            Leaf::new(addr(["01", "02", "03"][i]), 10 * (i as u32 + 1)),
            path,
            i
        ));
    }

    // The same proof and root must reject a leaf whose amount was changed.
    let path = tree.generate_proof(&leaves[1], 1).expect("proof expected");
    assert!(!verify_proof(first, Leaf::new(addr("02"), 21), path, 1));
}

#[test]
fn flipping_any_bit_fails_verification() {
    let leaves = sample_leaves(3);
    let tree = build(&leaves);
    let root = tree.clone().get_root();
    let path = tree.generate_proof(&leaves[0], 0).expect("proof expected");
    assert!(verify_proof(root.clone(), Leaf::new(addr("01"), 10), path.clone(), 0));

    for element in 0..path.len() {
        for byte in 0..32 {
            for bit in 0..8 {
                let mut tampered = path.clone();
                tampered[element][byte] ^= 1u8 << bit;
                assert!(
                    !verify_proof(root.clone(), Leaf::new(addr("01"), 10), tampered, 0),
                    "flipped bit {} of byte {} in element {} still verified",
                    bit,
                    byte,
                    element
                );
            }
        }
    }
    for byte in 0..32 {
        for bit in 0..8 {
            let mut bad_root = root.clone();
            bad_root[byte] ^= 1u8 << bit;
            assert!(
                !verify_proof(bad_root, Leaf::new(addr("01"), 10), path.clone(), 0),
                "flipped bit {} of root byte {} still verified",
                bit,
                byte
            );
        }
    }
}

#[test]
fn batch_matches_per_leaf_walks() {
    let leaves = sample_leaves(5);
    let tree = build(&leaves);
    let root = tree.clone().get_root();
    let batch = tree.generate_proofs(&leaves);
    assert_eq!(batch.len(), 5);
    for i in 0..5 {
        let single = tree.generate_proof(&leaves[i], i).expect("proof expected");
        let entry = batch[i].as_ref().expect("batch entry expected");
        assert_eq!(entry.root, root);
        assert_eq!(entry.path, single);
    }
}

#[test]
fn empty_leaf_list_is_invalid_input() {
    let leaves: Vec<Leaf> = Vec::new();
    assert!(matches!(Tree::spawn().new(&leaves), Err(Error::InvalidInput)));
}

#[test]
fn malformed_addresses_are_rejected() {
    for bad in [
        "hello",
        "",
        "0x1234",
        "aaaaaaaaaaaaaaaaaaaaaaaaaaaaaaaaaaaaaaaaaa",
        "0xaaaaaaaaaaaaaaaaaaaaaaaaaaaaaaaaaaaaaag1",
        "0xaaaaaaaaaaaaaaaaaaaaaaaaaaaaaaaaaaaaaaa",
        "0xaaaaaaaaaaaaaaaaaaaaaaaaaaaaaaaaaaaaaaa01",
    ] {
        let leaves = vec![Leaf::new(String::from(bad), 1)];
        assert!(
            matches!(Tree::spawn().new(&leaves), Err(Error::MalformedLeaf)),
            "address {:?} was not rejected",
            bad
        );
        assert!(matches!(Leaf::hash_leaf(&leaves[0]), Err(Error::MalformedLeaf)));
    }
}

#[test]
fn upper_and_lower_case_hex_agree() {
    let lower = Leaf::new(String::from("0xabcdefabcdefabcdefabcdefabcdefabcdefabcd"), 5);
    let upper = Leaf::new(String::from("0xABCDEFABCDEFABCDEFABCDEFABCDEFABCDEFABCD"), 5);
    assert_eq!(
        Leaf::hash_leaf(&lower).expect("leaf should hash"),
        Leaf::hash_leaf(&upper).expect("leaf should hash")
    );
}

#[test]
fn wrong_index_or_foreign_leaf_yields_no_proof() {
    let leaves = sample_leaves(4);
    let tree = build(&leaves);
    // index out of range
    assert_eq!(tree.generate_proof(&leaves[0], 9), Err(Error::NoProof));
    // a leaf that is not at the claimed position
    assert_eq!(tree.generate_proof(&leaves[1], 0), Err(Error::NoProof));
    // a leaf that is not in the tree at all
    let foreign = Leaf::new(addr("07"), 999);
    assert_eq!(tree.generate_proof(&foreign, 0), Err(Error::NoProof));
}

#[test]
fn empty_path_verifies_only_the_root_itself() {
    let leaf = Leaf::new(addr("01"), 7);
    let own_hash = Leaf::hash_leaf(&leaf).expect("leaf should hash");
    assert!(verify_proof(own_hash.clone(), Leaf::new(addr("01"), 7), Vec::new(), 0));
    let other = Leaf::hash_leaf(&Leaf::new(addr("02"), 7)).expect("leaf should hash");
    assert!(!verify_proof(other, Leaf::new(addr("01"), 7), Vec::new(), 0));
}

#[test]
fn malformed_leaf_never_verifies() {
    let leaves = sample_leaves(2);
    let tree = build(&leaves);
    let root = tree.clone().get_root();
    let path = tree.generate_proof(&leaves[0], 0).expect("proof expected");
    let bad = Leaf::new(String::from("not-an-address"), 10);
    assert!(!verify_proof(root, bad, path, 0));
}

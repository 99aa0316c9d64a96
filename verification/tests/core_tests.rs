use veilocity::account::{AccountSecret, PrivateAccount};
use veilocity::error::{CoreError};
use veilocity::merkle::{MAX_LEAVES, MerkleTree, TREE_DEPTH};
use veilocity::poseidon::{
    FieldElement,
    PoseidonHasher,
    bytes_to_field,
    field_to_bytes,
    field_to_hex,
    hex_to_field,
    u128_to_field,
    u64_to_field,
};

#[test]
fn test_hash2_deterministic() {
    let mut hasher = PoseidonHasher::new();
    let a = u64_to_field(1);
    let b = u64_to_field(2);

    let hash1 = hasher.hash2(&a, &b);
    let hash2 = hasher.hash2(&a, &b);

    assert_eq!(hash1, hash2);
}

#[test]
fn test_hash2_different_inputs() {
    let mut hasher = PoseidonHasher::new();
    let a = u64_to_field(1);
    let b = u64_to_field(2);
    let c = u64_to_field(3);

    let hash1 = hasher.hash2(&a, &b);
    let hash2 = hasher.hash2(&a, &c);

    assert_ne!(hash1, hash2);
}

#[test]
fn test_derive_pubkey() {
    let mut hasher = PoseidonHasher::new();
    let secret = u64_to_field(12345);

    let pubkey = hasher.derive_pubkey(&secret);

    assert_ne!(pubkey, secret);
    assert_ne!(pubkey, u64_to_field(0));
}

#[test]
fn test_compute_leaf() {
    let mut hasher = PoseidonHasher::new();
    let pubkey = u64_to_field(100);
    let balance = u128_to_field(1_000_000_000_000_000_000u128);
    let nonce = u64_to_field(0);

    let leaf = hasher.compute_leaf(&pubkey, &balance, &nonce);

    assert_ne!(leaf, u64_to_field(0));
}

#[test]
fn test_field_bytes_roundtrip() {
    let original = u64_to_field(123456789);
    let bytes = field_to_bytes(&original);
    let recovered = bytes_to_field(&bytes);
    assert_eq!(original, recovered);
}

#[test]
fn test_field_hex_roundtrip() {
    let original = u64_to_field(987654321);
    let hex_str = field_to_hex(&original);
    let recovered = hex_to_field(&hex_str).unwrap();
    assert_eq!(original, recovered);
}

#[test]
fn poseidon_test_nullifier_uniqueness() {
    let mut hasher = PoseidonHasher::new();
    let secret = u64_to_field(12345);

    let null1 = hasher.compute_nullifier(&secret, &u64_to_field(0), &u64_to_field(0));
    let null2 = hasher.compute_nullifier(&secret, &u64_to_field(0), &u64_to_field(1));
    let null3 = hasher.compute_nullifier(&secret, &u64_to_field(1), &u64_to_field(0));

    assert_ne!(null1, null2);
    assert_ne!(null1, null3);
    assert_ne!(null2, null3);
}

#[test]
fn hash_of_two_ones_is_the_circom_value() {
    let mut hasher = PoseidonHasher::new();
    let one = u64_to_field(1);
    let hash = hasher.hash2(&one, &one);
    let expected: [u8; 32] = [
        0, 122, 243, 70, 226, 211, 4, 39, 158, 121, 224, 169, 243, 2, 63, 119, 18, 148, 167, 138,
        203, 112, 231, 63, 144, 175, 226, 124, 173, 64, 30, 129,
    ];
    assert_eq!(field_to_bytes(&hash), expected);
}

#[test]
fn hash_of_reduced_bytes_is_the_circom_value() {
    let mut hasher = PoseidonHasher::new();
    let a = bytes_to_field(&[1u8; 32]);
    let b = bytes_to_field(&[2u8; 32]);
    let hash = hasher.hash2(&a, &b);
    let expected: [u8; 32] = [
        13, 84, 225, 147, 143, 138, 140, 28, 125, 235, 94, 3, 85, 242, 99, 25, 32, 123, 132, 254,
        156, 162, 206, 27, 38, 231, 53, 200, 41, 130, 25, 144,
    ];
    assert_eq!(field_to_bytes(&hash), expected);
}

#[test]
fn every_arity_is_deterministic() {
    let mut first = PoseidonHasher::new();
    let mut second = PoseidonHasher::default();
    let a = u64_to_field(7);
    let b = u64_to_field(8);
    let c = u64_to_field(9);
    let d = u64_to_field(10);
    assert_eq!(first.hash1(&a), second.hash1(&a));
    assert_eq!(first.hash2(&a, &b), second.hash2(&a, &b));
    assert_eq!(first.hash3(&a, &b, &c), second.hash3(&a, &b, &c));
    assert_eq!(first.hash4(&a, &b, &c, &d), second.hash4(&a, &b, &c, &d));
    assert_eq!(first.hash4(&a, &b, &c, &d), first.hash4(&a, &b, &c, &d));
}

#[test]
fn arities_are_separate_domains() {
    let mut hasher = PoseidonHasher::new();
    let s = u64_to_field(42);
    let zero = FieldElement::zero();
    let h1 = hasher.hash1(&s);
    let h2 = hasher.hash2(&s, &zero);
    let h3 = hasher.hash3(&s, &zero, &zero);
    let h4 = hasher.hash4(&s, &zero, &zero, &zero);
    assert_ne!(h1, h2);
    assert_ne!(h2, h3);
    assert_ne!(h1, h3);
    assert_ne!(h3, h4);
}

#[test]
fn derivations_have_their_shapes() {
    let mut hasher = PoseidonHasher::new();
    let s = u64_to_field(5);
    let x = u64_to_field(6);
    let y = u64_to_field(7);
    let pubkey = hasher.derive_pubkey(&s);
    assert_eq!(pubkey, hasher.hash1(&s));
    let commitment = hasher.compute_deposit_commitment(&s, &x);
    assert_eq!(commitment, hasher.hash2(&s, &x));
    let leaf = hasher.compute_leaf(&s, &x, &y);
    assert_eq!(leaf, hasher.hash3(&s, &x, &y));
    let nullifier = hasher.compute_nullifier(&s, &x, &y);
    assert_eq!(nullifier, hasher.hash3(&s, &x, &y));
}

#[test]
fn integers_embed_big_endian() {
    let mut expected = [0u8; 32];
    expected[30] = 1;
    expected[31] = 2;
    assert_eq!(field_to_bytes(&u64_to_field(258)), expected);
    assert_eq!(field_to_bytes(&u128_to_field(258)), expected);

    let mut wide = [0u8; 32];
    wide[16] = 0x80;
    assert_eq!(field_to_bytes(&u128_to_field(1u128 << 127)), wide);
    assert_eq!(field_to_bytes(&FieldElement::zero()), [0u8; 32]);
}

#[test]
fn bytes_are_reduced_modulo_the_field_order() {
    // The field order itself reads as zero, and the order plus one as one.
    let order: [u8; 32] = [
        0x30, 0x64, 0x4e, 0x72, 0xe1, 0x31, 0xa0, 0x29, 0xb8, 0x50, 0x45, 0xb6, 0x81, 0x81, 0x58,
        0x5d, 0x28, 0x33, 0xe8, 0x48, 0x79, 0xb9, 0x70, 0x91, 0x43, 0xe1, 0xf5, 0x93, 0xf0, 0x00,
        0x00, 0x01,
    ];
    assert_eq!(bytes_to_field(&order), FieldElement::zero());
    let mut plus_one = order;
    plus_one[31] = 2;
    assert_eq!(bytes_to_field(&plus_one), u64_to_field(1));
    let mut minus_one = order;
    minus_one[31] = 0;
    assert_eq!(field_to_bytes(&bytes_to_field(&minus_one)), minus_one);
    let reduced = field_to_bytes(&bytes_to_field(&[0xffu8; 32]));
    assert_ne!(reduced, [0xffu8; 32]);
    assert!(reduced[0] <= 0x30);
}

#[test]
fn hex_form_is_prefixed_lowercase_and_padded() {
    assert_eq!(
        field_to_hex(&u64_to_field(0xabcdef)),
        "0x0000000000000000000000000000000000000000000000000000000000abcdef"
    );
    assert_eq!(field_to_hex(&u64_to_field(0xabcdef)).len(), 66);
}

#[test]
fn hex_is_read_with_and_without_prefix_in_either_case() {
    let digits = "0000000000000000000000000000000000000000000000000000000000ABCdef";
    assert_eq!(hex_to_field(digits).unwrap(), u64_to_field(0xabcdef));
    let prefixed = format!("0x{}", digits);
    assert_eq!(hex_to_field(&prefixed).unwrap(), u64_to_field(0xabcdef));
}

#[test]
fn malformed_hex_is_refused() {
    assert!(matches!(hex_to_field("0x12"), Err(CoreError::InvalidFieldElement)));
    assert!(matches!(hex_to_field(""), Err(CoreError::InvalidFieldElement)));
    assert!(matches!(hex_to_field("zz"), Err(CoreError::InvalidFieldElement)));
    let odd = "0x000000000000000000000000000000000000000000000000000000000000001";
    assert!(matches!(hex_to_field(odd), Err(CoreError::InvalidFieldElement)));
    let long = "0x00000000000000000000000000000000000000000000000000000000000000001";
    assert!(matches!(hex_to_field(long), Err(CoreError::InvalidFieldElement)));
    let twice = "0x0x0000000000000000000000000000000000000000000000000000000000000001";
    assert!(matches!(hex_to_field(twice), Err(CoreError::InvalidFieldElement)));
}

#[test]
fn same_compares_values() {
    let a = u64_to_field(77);
    let b = u128_to_field(77);
    let c = u64_to_field(78);
    assert!(a.same(&b));
    assert!(!a.same(&c));
    assert!(a == b);
    assert!(a != c);
}

#[test]
fn test_empty_tree() {
    let tree = MerkleTree::new();
    assert_eq!(tree.leaf_count(), 0);
    assert_ne!(tree.root(), u64_to_field(0));
}

#[test]
fn test_insert_and_proof() {
    let mut tree = MerkleTree::new();

    let leaf = u64_to_field(12345);
    let index = tree.insert(leaf).unwrap();

    assert_eq!(index, 0);
    assert_eq!(tree.leaf_count(), 1);

    let proof = tree.get_proof(index);
    assert_eq!(proof.len(), TREE_DEPTH);

    let root = tree.root();
    assert!(tree.verify_proof(leaf, index, &proof, root));
}

#[test]
fn test_multiple_inserts() {
    let mut tree = MerkleTree::new();

    for i in 0..10 {
        let leaf = u64_to_field(i as u64);
        let index = tree.insert(leaf).unwrap();
        assert_eq!(index, i);
    }

    // Verify all proofs
    for i in 0..10 {
        let leaf = u64_to_field(i as u64);
        let proof = tree.get_proof(i);
        let root = tree.root();
        assert!(tree.verify_proof(leaf, i, &proof, root));
    }
}

#[test]
fn test_update_leaf() {
    let mut tree = MerkleTree::new();

    let leaf1 = u64_to_field(100);
    let index = tree.insert(leaf1).unwrap();
    let root1 = tree.root();

    let leaf2 = u64_to_field(200);
    tree.update_leaf(index, leaf2).unwrap();
    let root2 = tree.root();

    assert_ne!(root1, root2);

    let proof = tree.get_proof(index);
    assert!(tree.verify_proof(leaf2, index, &proof, root2));
    assert!(!tree.verify_proof(leaf1, index, &proof, root2));
}

#[test]
fn test_invalid_proof() {
    let mut tree = MerkleTree::new();

    let leaf = u64_to_field(12345);
    tree.insert(leaf).unwrap();

    let proof = tree.get_proof(0);
    let root = tree.root();

    // Wrong leaf
    let wrong_leaf = u64_to_field(99999);
    assert!(!tree.verify_proof(wrong_leaf, 0, &proof, root));

    // Wrong index
    assert!(!tree.verify_proof(leaf, 1, &proof, root));
}

#[test]
fn test_root_changes_on_insert() {
    let mut tree = MerkleTree::new();
    let root0 = tree.root();

    tree.insert(u64_to_field(1)).unwrap();
    let root1 = tree.root();
    assert_ne!(root0, root1);

    tree.insert(u64_to_field(2)).unwrap();
    let root2 = tree.root();
    assert_ne!(root1, root2);
}

#[test]
fn empty_hashes_chain_from_the_hash_of_two_zeros() {
    let tree = MerkleTree::default();
    let mut hasher = PoseidonHasher::new();
    let zero = FieldElement::zero();
    let mut expected = hasher.hash2(&zero, &zero);
    for level in 0..=TREE_DEPTH {
        assert_eq!(tree.empty_hash(level), expected);
        expected = hasher.hash2(&expected, &expected);
    }
    assert_eq!(tree.root(), tree.empty_hash(TREE_DEPTH));
    assert_eq!(MAX_LEAVES, 1u64 << TREE_DEPTH);
}

#[test]
fn root_is_the_fold_of_the_path_with_even_children_left() {
    let mut tree = MerkleTree::new();
    let mut hasher = PoseidonHasher::new();
    let a = u64_to_field(11);
    let b = u64_to_field(22);
    tree.insert(a).unwrap();
    tree.insert(b).unwrap();

    let mut node = hasher.hash2(&a, &b);
    for level in 1..TREE_DEPTH {
        let empty = tree.empty_hash(level);
        node = hasher.hash2(&node, &empty);
    }
    assert_eq!(tree.root(), node);

    // The proof of position 1 starts with the leaf to its left.
    let proof = tree.get_proof(1);
    assert_eq!(proof[0], a);
    for level in 1..TREE_DEPTH {
        assert_eq!(proof[level], tree.empty_hash(level));
    }
}

#[test]
fn proof_round_trip_holds_for_every_inserted_leaf_and_beyond() {
    let mut tree = MerkleTree::new();
    let leaves: Vec<FieldElement> = (0..7u64).map(|i| u64_to_field(1000 + i)).collect();
    for leaf in &leaves {
        tree.insert(*leaf).unwrap();
    }
    let root = tree.root();
    for (i, leaf) in leaves.iter().enumerate() {
        let proof = tree.get_proof(i as u64);
        assert!(MerkleTree::verify_proof_static(
            &mut PoseidonHasher::new(),
            *leaf,
            i as u64,
            &proof,
            root
        ));
    }
    // A position that was never written holds the empty leaf.
    let beyond = tree.get_proof(500);
    let empty = tree.empty_hash(0);
    assert!(tree.verify_proof(empty, 500, &beyond, root));
    assert_eq!(tree.get_leaf(500), None);
    assert_eq!(tree.get_leaf(3), Some(leaves[3]));
}

#[test]
fn a_path_of_the_wrong_length_is_not_a_proof() {
    let mut tree = MerkleTree::new();
    let leaf = u64_to_field(5);
    tree.insert(leaf).unwrap();
    let root = tree.root();
    let mut proof = tree.get_proof(0);
    proof.pop();
    assert!(!tree.verify_proof(leaf, 0, &proof, root));
    let mut long = tree.get_proof(0);
    long.push(u64_to_field(0));
    assert!(!tree.verify_proof(leaf, 0, &long, root));
}

#[test]
fn updates_with_different_values_give_different_roots() {
    let mut first = MerkleTree::new();
    let mut second = MerkleTree::new();
    for i in 0..4u64 {
        first.insert(u64_to_field(i)).unwrap();
        second.insert(u64_to_field(i)).unwrap();
    }
    first.update_leaf(2, u64_to_field(700)).unwrap();
    second.update_leaf(2, u64_to_field(701)).unwrap();
    assert_ne!(first.root(), second.root());
    second.update_leaf(2, u64_to_field(700)).unwrap();
    assert_eq!(first.root(), second.root());
}

#[test]
fn a_cleared_tree_has_the_empty_root() {
    let empty_root = MerkleTree::new().root();
    let mut tree = MerkleTree::new();
    for i in 0..5u64 {
        tree.insert(u64_to_field(900 + i)).unwrap();
    }
    assert_ne!(tree.root(), empty_root);
    let empty_leaf = tree.empty_hash(0);
    for i in 0..5u64 {
        tree.update_leaf(i, empty_leaf).unwrap();
    }
    assert_eq!(tree.root(), empty_root);
    assert_eq!(tree.leaf_count(), 5);
}

#[test]
fn update_before_insert_is_permitted() {
    let mut tree = MerkleTree::new();
    let leaf = u64_to_field(31);
    tree.update_leaf(9, leaf).unwrap();
    assert_eq!(tree.leaf_count(), 0);
    assert_eq!(tree.get_leaf(9), Some(leaf));
    let proof = tree.get_proof(9);
    let root = tree.root();
    assert!(tree.verify_proof(leaf, 9, &proof, root));
    // The last position of the tree can be written too.
    tree.update_leaf(MAX_LEAVES - 1, leaf).unwrap();
    let proof = tree.get_proof(MAX_LEAVES - 1);
    let root = tree.root();
    assert!(tree.verify_proof(leaf, MAX_LEAVES - 1, &proof, root));
}

#[test]
fn test_account_creation() {
    let mut hasher = PoseidonHasher::new();
    let secret = AccountSecret::generate();
    let account = PrivateAccount::new(&mut hasher, secret.secret(), 0);

    assert_eq!(account.balance, 0);
    assert_eq!(account.nonce, 0);
    assert_eq!(account.index, 0);
    assert_ne!(account.pubkey, [0u8; 32]);
}

#[test]
fn test_credit_debit() {
    let mut hasher = PoseidonHasher::new();
    let secret = AccountSecret::generate();
    let mut account = PrivateAccount::new(&mut hasher, secret.secret(), 0);

    // Credit
    account.credit(1_000_000_000_000_000_000); // 1 MNT
    assert_eq!(account.balance, 1_000_000_000_000_000_000);
    assert_eq!(account.nonce, 0); // Credit doesn't increment nonce

    // Debit
    assert!(account.debit(500_000_000_000_000_000)); // 0.5 MNT
    assert_eq!(account.balance, 500_000_000_000_000_000);
    assert_eq!(account.nonce, 1); // Debit increments nonce

    // Insufficient balance
    assert!(!account.debit(1_000_000_000_000_000_000)); // Can't debit 1 MNT
    assert_eq!(account.balance, 500_000_000_000_000_000); // Balance unchanged
    assert_eq!(account.nonce, 1); // Nonce unchanged
}

#[test]
fn test_leaf_computation() {
    let mut hasher = PoseidonHasher::new();
    let secret = AccountSecret::generate();
    let mut account = PrivateAccount::new(&mut hasher, secret.secret(), 0);

    let leaf1 = account.compute_leaf(&mut hasher);

    account.credit(1_000_000_000_000_000_000);
    let leaf2 = account.compute_leaf(&mut hasher);

    assert_ne!(leaf1, leaf2); // Leaf changes when balance changes
}

#[test]
fn account_test_nullifier_uniqueness() {
    let mut hasher = PoseidonHasher::new();
    let secret = AccountSecret::generate();

    let null1 = secret.compute_nullifier(&mut hasher, 0, 0);
    let null2 = secret.compute_nullifier(&mut hasher, 0, 1);
    let null3 = secret.compute_nullifier(&mut hasher, 1, 0);

    assert_ne!(null1, null2);
    assert_ne!(null1, null3);
    assert_ne!(null2, null3);
}

#[test]
fn test_secret_pubkey_consistency() {
    let mut hasher = PoseidonHasher::new();
    let secret = AccountSecret::generate();

    let pubkey1 = secret.derive_pubkey(&mut hasher);
    let pubkey2 = secret.derive_pubkey(&mut hasher);

    assert_eq!(pubkey1, pubkey2);

    let account = PrivateAccount::new(&mut hasher, secret.secret(), 0);
    assert_eq!(pubkey1, account.pubkey_field());
}

#[test]
fn credit_then_debit_restores_the_balance_and_advances_the_nonce() {
    let mut hasher = PoseidonHasher::new();
    let secret = AccountSecret::from_bytes(&[3u8; 32]);
    let mut account = PrivateAccount::with_balance(&mut hasher, secret.secret(), 4, 55);
    account.credit(45);
    assert_eq!(account.balance, 100);
    assert!(account.debit(45));
    assert_eq!(account.balance, 55);
    assert_eq!(account.nonce, 1);
    assert_eq!(account.index, 4);
}

#[test]
fn credit_saturates() {
    let mut hasher = PoseidonHasher::new();
    let secret = AccountSecret::from_bytes(&[3u8; 32]);
    let mut account = PrivateAccount::with_balance(&mut hasher, secret.secret(), 0, u128::MAX - 1);
    account.credit(5);
    assert_eq!(account.balance, u128::MAX);
    assert_eq!(account.nonce, 0);
    assert!(account.has_balance(u128::MAX));
    assert!(account.debit(5));
    assert_eq!(account.balance, u128::MAX - 5);
}

#[test]
fn debit_of_the_whole_balance_leaves_an_empty_note() {
    let mut hasher = PoseidonHasher::new();
    let secret = AccountSecret::from_bytes(&[9u8; 32]);
    let mut account = PrivateAccount::with_balance(&mut hasher, secret.secret(), 2, 10);
    assert!(account.has_balance(10));
    assert!(!account.has_balance(11));
    assert!(account.debit(10));
    assert_eq!(account.balance, 0);
    assert_eq!(account.nonce, 1);
    assert!(account.debit(0));
    assert_eq!(account.nonce, 2);
}

#[test]
fn leaf_is_the_hash_of_pubkey_balance_and_nonce() {
    let mut hasher = PoseidonHasher::new();
    let secret = AccountSecret::from_bytes(&[7u8; 32]);
    let mut account = PrivateAccount::with_balance(&mut hasher, secret.secret(), 3, 10);
    assert!(account.debit(3));
    let pubkey = secret.derive_pubkey(&mut hasher);
    let expected = hasher.hash3(&pubkey, &u128_to_field(7), &u64_to_field(1));
    assert_eq!(account.compute_leaf(&mut hasher), expected);
    assert_eq!(account.pubkey, field_to_bytes(&pubkey));
    assert_eq!(account.balance_field(), u128_to_field(7));
    assert_eq!(account.nonce_field(), u64_to_field(1));
    assert_eq!(account.index_field(), u64_to_field(3));
}

#[test]
fn derivations_of_a_secret_follow_the_protocol() {
    let mut hasher = PoseidonHasher::new();
    let bytes = field_to_bytes(&u64_to_field(42));
    let secret = AccountSecret::from_bytes(&bytes);
    assert_eq!(*secret.secret(), u64_to_field(42));
    assert_eq!(*secret.as_bytes(), bytes);
    let s = u64_to_field(42);
    assert_eq!(secret.derive_pubkey(&mut hasher), hasher.hash1(&s));
    assert_eq!(
        secret.compute_nullifier(&mut hasher, 5, 6),
        hasher.hash3(&s, &u64_to_field(5), &u64_to_field(6))
    );
    assert_eq!(
        secret.compute_deposit_commitment(&mut hasher, 1_000_000_000_000_000_000),
        hasher.hash2(&s, &u128_to_field(1_000_000_000_000_000_000))
    );
}

#[test]
fn generated_secrets_differ() {
    let a = AccountSecret::generate();
    let b = AccountSecret::generate();
    assert_ne!(a.as_bytes(), b.as_bytes());
}

#[test]
fn repeated_debits_give_distinct_nullifiers() {
    let mut hasher = PoseidonHasher::new();
    let secret = AccountSecret::from_bytes(&[5u8; 32]);
    let mut account = PrivateAccount::with_balance(&mut hasher, secret.secret(), 1, 100);
    let first = secret.compute_nullifier(&mut hasher, account.index, account.nonce);
    assert!(account.debit(1));
    let second = secret.compute_nullifier(&mut hasher, account.index, account.nonce);
    assert!(account.debit(1));
    let third = secret.compute_nullifier(&mut hasher, account.index, account.nonce);
    assert_ne!(first, second);
    assert_ne!(second, third);
    assert_ne!(first, third);
}

#[test]
fn hashes_of_ones_are_the_circom_values() {
    let mut hasher = PoseidonHasher::new();
    let one = u64_to_field(1);
    let h1: [u8; 32] = [
        41, 23, 97, 0, 234, 169, 98, 189, 193, 254, 108, 101, 77, 106, 60, 19, 14, 150, 164, 209,
        22, 139, 51, 132, 139, 137, 125, 197, 2, 130, 1, 51,
    ];
    let h2: [u8; 32] = [
        0, 122, 243, 70, 226, 211, 4, 39, 158, 121, 224, 169, 243, 2, 63, 119, 18, 148, 167, 138,
        203, 112, 231, 63, 144, 175, 226, 124, 173, 64, 30, 129,
    ];
    let h3: [u8; 32] = [
        2, 192, 6, 110, 16, 167, 42, 189, 43, 51, 195, 178, 20, 203, 62, 129, 188, 177, 182, 227,
        9, 97, 205, 35, 194, 2, 177, 134, 115, 191, 37, 67,
    ];
    let h4: [u8; 32] = [
        8, 44, 156, 55, 10, 13, 36, 244, 65, 111, 188, 65, 74, 55, 104, 31, 120, 68, 45, 39, 216,
        99, 133, 153, 28, 23, 214, 252, 12, 75, 125, 113,
    ];
    assert_eq!(field_to_bytes(&hasher.hash1(&one)), h1);
    assert_eq!(field_to_bytes(&hasher.hash2(&one, &one)), h2);
    assert_eq!(field_to_bytes(&hasher.hash3(&one, &one, &one)), h3);
    assert_eq!(field_to_bytes(&hasher.hash4(&one, &one, &one, &one)), h4);

    // The derivations of the protocol on the same inputs.
    assert_eq!(field_to_bytes(&hasher.derive_pubkey(&one)), h1);
    assert_eq!(field_to_bytes(&hasher.compute_deposit_commitment(&one, &one)), h2);
    assert_eq!(field_to_bytes(&hasher.compute_leaf(&one, &one, &one)), h3);
    assert_eq!(field_to_bytes(&hasher.compute_nullifier(&one, &one, &one)), h3);
    let secret = AccountSecret::from_bytes(&field_to_bytes(&one));
    assert_eq!(field_to_bytes(&secret.compute_nullifier(&mut hasher, 1, 1)), h3);
    assert_eq!(field_to_bytes(&secret.compute_deposit_commitment(&mut hasher, 1)), h2);
    assert_eq!(
        field_to_hex(&hasher.hash1(&one)),
        "0x29176100eaa962bdc1fe6c654d6a3c130e96a4d1168b33848b897dc502820133"
    );
}

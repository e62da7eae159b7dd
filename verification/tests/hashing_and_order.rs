use blockchain::block::Block;
use blockchain::hashing::{meets_difficulty, sha256};
use blockchain::transaction::{Rel, Transaction};

#[test]
fn sha256_matches_a_known_digest() {
    // SHA-256 of the ASCII bytes "abc".
    let digest = sha256(&vec![0x61, 0x62, 0x63]);
    let expected: Vec<u8> = vec![
        0xba, 0x78, 0x16, 0xbf, 0x8f, 0x01, 0xcf, 0xea, 0x41, 0x41, 0x40, 0xde, 0x5d, 0xae, 0x22,
        0x23, 0xb0, 0x03, 0x61, 0xa3, 0x96, 0x17, 0x7a, 0x9c, 0xb4, 0x10, 0xff, 0x61, 0xf2, 0x00,
        0x15, 0xad,
    ];
    assert_eq!(digest, expected);
}

#[test]
fn difficulty_predicate_counts_leading_zero_bits() {
    let digest = vec![0x00, 0xff];
    assert!(meets_difficulty(&digest, 0));
    assert!(meets_difficulty(&digest, 8));
    assert!(!meets_difficulty(&digest, 9));
    assert!(!meets_difficulty(&digest, 17));
    let digest2 = vec![0x7f];
    assert!(meets_difficulty(&digest2, 1));
    assert!(!meets_difficulty(&digest2, 2));
}

#[test]
fn block_encoding_is_the_canonical_field_layout() {
    let block = Block {
        index: 1,
        timestamp: 2,
        transactions: Vec::new(),
        nonce: 3,
        previous_hash: vec![0xaa],
    };
    let expected: Vec<u8> = vec![
        0, 0, 0, 0, 0, 0, 0, 1, // index
        0, 0, 0, 0, 0, 0, 0, 2, // timestamp
        0, 0, 0, 0, 0, 0, 0, 0, // transaction count
        0, 0, 0, 0, 0, 0, 0, 3, // nonce
        0, 0, 0, 0, 0, 0, 0, 1, // previous-hash length
        0xaa,
    ];
    assert_eq!(block.encode(), expected);
    assert_eq!(block.hash(), sha256(&expected));
}

#[test]
fn transaction_encoding_length_prefixes_both_parties() {
    let block = Block {
        index: 0,
        timestamp: 0,
        transactions: vec![Transaction {
            sender: "A".to_string(),
            recipient: "B".to_string(),
            amount: 10,
        }],
        nonce: 0,
        previous_hash: Vec::new(),
    };
    let mut expected: Vec<u8> = Vec::new();
    expected.extend_from_slice(&[0, 0, 0, 0, 0, 0, 0, 0]); // index
    expected.extend_from_slice(&[0, 0, 0, 0, 0, 0, 0, 0]); // timestamp
    expected.extend_from_slice(&[0, 0, 0, 0, 0, 0, 0, 1]); // transaction count
    expected.extend_from_slice(&[0, 0, 0, 0, 0, 0, 0, 1]); // sender length
    expected.push(0x41); // "A"
    expected.extend_from_slice(&[0, 0, 0, 0, 0, 0, 0, 1]); // recipient length
    expected.push(0x42); // "B"
    expected.extend_from_slice(&[0, 0, 0, 0, 0, 0, 0, 10]); // amount
    expected.extend_from_slice(&[0, 0, 0, 0, 0, 0, 0, 0]); // nonce
    expected.extend_from_slice(&[0, 0, 0, 0, 0, 0, 0, 0]); // previous-hash length
    assert_eq!(block.encode(), expected);
}

#[test]
fn hash_changes_with_any_field() {
    let block = Block {
        index: 1,
        timestamp: 2,
        transactions: Vec::new(),
        nonce: 3,
        previous_hash: vec![0xaa],
    };
    let mut other = block.duplicate();
    other.nonce = 4;
    assert_ne!(block.hash(), other.hash());
    assert_eq!(block.hash(), block.duplicate().hash());
}

#[test]
fn transaction_order_is_lexicographic_then_by_amount() {
    let a = Transaction { sender: "A".to_string(), recipient: "Z".to_string(), amount: 99 };
    let b = Transaction { sender: "B".to_string(), recipient: "A".to_string(), amount: 1 };
    assert!(matches!(a.compare(&b), Rel::Less));
    assert!(matches!(b.compare(&a), Rel::Greater));
    let c = Transaction { sender: "A".to_string(), recipient: "Z".to_string(), amount: 100 };
    assert!(matches!(a.compare(&c), Rel::Less));
    let d = Transaction { sender: "A".to_string(), recipient: "Z".to_string(), amount: 99 };
    assert!(matches!(a.compare(&d), Rel::Equal));
    let e = Transaction { sender: "AB".to_string(), recipient: "A".to_string(), amount: 1 };
    assert!(matches!(a.compare(&e), Rel::Less));
}

use minichain::hashing::{calculate_hash, find_proof, meets_target};
use minichain::keys::{generate_key_pair, validate_key};
use minichain::types::Transaction;

fn sample_tx(id: &str, sender: &str, recipient: &str, amount: u64) -> Transaction {
    Transaction {
        id: id.to_string(),
        sender: sender.to_string(),
        recipient: recipient.to_string(),
        amount,
        block_hash: None,
    }
}

#[test]
fn hash_is_deterministic() {
    let txs = vec![sample_tx("t1", "a", "b", 5), sample_tx("t2", "b", "c", 7)];
    let txs2 = vec![sample_tx("t1", "a", "b", 5), sample_tx("t2", "b", "c", 7)];
    let h1 = calculate_hash(3, "prevhash", &txs, 99);
    let h2 = calculate_hash(3, "prevhash", &txs2, 99);
    assert_eq!(h1, h2);
    assert_eq!(h1.len(), 64);
}

#[test]
fn hash_changes_with_any_field() {
    let txs = vec![sample_tx("t1", "a", "b", 5), sample_tx("t2", "b", "c", 7)];
    let base = calculate_hash(3, "prevhash", &txs, 99);

    assert_ne!(base, calculate_hash(4, "prevhash", &txs, 99));
    assert_ne!(base, calculate_hash(3, "otherhash", &txs, 99));
    assert_ne!(base, calculate_hash(3, "prevhash", &txs, 100));

    let reordered = vec![sample_tx("t2", "b", "c", 7), sample_tx("t1", "a", "b", 5)];
    assert_ne!(base, calculate_hash(3, "prevhash", &reordered, 99));

    let changed_amount = vec![sample_tx("t1", "a", "b", 6), sample_tx("t2", "b", "c", 7)];
    assert_ne!(base, calculate_hash(3, "prevhash", &changed_amount, 99));
}

#[test]
fn digest_matches_known_value() {
    // SHA-256("abc"), hex-encoded: the classic test vector. This fails if the
    // digest or the hex encoding were anything but the real thing.
    assert!(validate_key(
        "abc",
        "ba7816bf8f01cfea414140de5dae2223b00361a396177a9cb410ff61f20015ad"
    ));
    assert!(!validate_key("abc", "ba7816bf"));
    assert!(!validate_key(
        "abd",
        "ba7816bf8f01cfea414140de5dae2223b00361a396177a9cb410ff61f20015ad"
    ));
}

#[test]
fn generated_key_pair_validates() {
    let kp = generate_key_pair();
    assert_eq!(kp.private_key.len(), 32);
    assert_eq!(kp.public_key.len(), 64);
    assert!(validate_key(&kp.private_key, &kp.public_key));
    assert!(!validate_key(&kp.private_key, &kp.private_key));
}

#[test]
fn generated_tokens_are_alphanumeric() {
    let kp = generate_key_pair();
    assert!(kp.private_key.chars().all(|c| c.is_ascii_alphanumeric()));
    let address = minichain::keys::generate_random_address();
    assert_eq!(address.len(), 64);
    assert!(address.chars().all(|c| c.is_ascii_alphanumeric()));
    let id = minichain::keys::generate_transaction_id();
    assert_eq!(id.len(), 16);
    assert!(id.chars().all(|c| c.is_ascii_alphanumeric()));
}

#[test]
fn meets_target_checks_leading_zeros() {
    assert!(meets_target("0000abcd", 4));
    assert!(meets_target("0000abcd", 0));
    assert!(!meets_target("0100abcd", 2));
    assert!(meets_target("0100abcd", 1));
}

#[test]
fn find_proof_returns_first_solution() {
    let txs: Vec<Transaction> = Vec::new();
    // Difficulty zero: every digest qualifies, so the first proof is zero.
    assert_eq!(find_proof("prev", &txs, 0), Some(0));

    // Difficulty one: the returned proof works and no smaller one does.
    let p = find_proof("prev", &txs, 1).unwrap();
    let h = calculate_hash(0, "prev", &txs, p);
    assert!(h.starts_with("0"));
    for q in 0..p {
        assert!(!calculate_hash(0, "prev", &txs, q).starts_with("0"));
    }
}

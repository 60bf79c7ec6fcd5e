use vstd::prelude::*;
use vstd::string::*;

use crate::hashing::{hex_encode, sha256_bytes, sha256_hex_chars};
use crate::rng::{all_alphanumeric, random_token};
use crate::types::KeyPair;

verus! {

/// Generates a fresh key pair: a random 32-character alphanumeric private key
/// and, as the public key, the hex-encoded digest of the private key.
pub fn generate_key_pair() -> (kp: KeyPair)
    ensures
        kp.private_key@.len() == 32,
        all_alphanumeric(kp.private_key@),
        kp.public_key@ == sha256_hex_chars(kp.private_key@),
{
    let private_key = random_token(32);
    let digest = sha256_bytes(private_key.as_str().as_bytes());
    let public_key = hex_encode(digest.as_slice());
    KeyPair { private_key, public_key }
}

/// Checks a key pair: the public key must be exactly the hex-encoded digest
/// of the private key.
pub fn validate_key(private_key: &str, public_key: &str) -> (r: bool)
    ensures
        r == (sha256_hex_chars(private_key@) == public_key@),
{
    let digest = sha256_bytes(private_key.as_bytes());
    let expected = hex_encode(digest.as_slice());
    let given = public_key.to_owned();
    let ok = expected == given;
    proof {
        assert(ok ==> sha256_hex_chars(private_key@) =~= public_key@);
    }
    ok
}

/// Generates a random 64-character alphanumeric address, standing in for a
/// real public key where only an identity string is needed.
pub fn generate_random_address() -> (r: String)
    ensures
        r@.len() == 64,
        all_alphanumeric(r@),
{
    random_token(64)
}

/// Generates a random 16-character alphanumeric transaction id.
pub fn generate_transaction_id() -> (r: String)
    ensures
        r@.len() == 16,
        all_alphanumeric(r@),
{
    random_token(16)
}

} // verus!

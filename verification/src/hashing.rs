use vstd::prelude::*;
use vstd::string::*;
use vstd::utf8::encode_utf8;
use sha2::Digest;

use crate::types::{Transaction, TxView, tx_views};

verus! {

/// The decimal digit `d` (below ten) as a character.
pub open spec fn digit_char(d: nat) -> char {
    if d == 0 {
        '0'
    } else if d == 1 {
        '1'
    } else if d == 2 {
        '2'
    } else if d == 3 {
        '3'
    } else if d == 4 {
        '4'
    } else if d == 5 {
        '5'
    } else if d == 6 {
        '6'
    } else if d == 7 {
        '7'
    } else if d == 8 {
        '8'
    } else {
        '9'
    }
}

/// The decimal representation of `n`, most significant digit first.
pub open spec fn dec_chars(n: nat) -> Seq<char>
    decreases n,
{
    if n < 10 {
        seq![digit_char(n)]
    } else {
        dec_chars(n / 10) + seq![digit_char(n % 10)]
    }
}

/// The serialization of one transaction inside a block digest preimage.
/// The sealed-in block hash is deliberately left out: it is assigned only
/// after the containing block's hash is fixed.
pub open spec fn tx_chars(t: TxView) -> Seq<char> {
    t.id + "|"@ + t.sender + "|"@ + t.recipient + "|"@ + dec_chars(t.amount as nat) + ";"@
}

/// The order-sensitive serialization of a transaction batch.
pub open spec fn txs_chars(s: Seq<TxView>) -> Seq<char>
    decreases s.len(),
{
    if s.len() == 0 {
        Seq::empty()
    } else {
        txs_chars(s.drop_last()) + tx_chars(s.last())
    }
}

/// The exact text hashed for a block: index, predecessor hash, serialized
/// transactions, proof, and a fixed domain-separation tag.
pub open spec fn preimage_chars(
    index: u64,
    previous_hash: Seq<char>,
    txs: Seq<TxView>,
    proof: u64,
) -> Seq<char> {
    dec_chars(index as nat) + previous_hash + txs_chars(txs) + dec_chars(proof as nat) + "CHAIN"@
}

/// The SHA-256 digest of a byte sequence. Its value is fixed by the outside
/// hash function; only its length and determinism are relied on here.
pub uninterp spec fn sha256_of(bytes: Seq<u8>) -> Seq<u8>;

/// The lowercase hexadecimal digit for a value below sixteen.
pub open spec fn hex_digit(v: u8) -> char {
    if v == 0 {
        '0'
    } else if v == 1 {
        '1'
    } else if v == 2 {
        '2'
    } else if v == 3 {
        '3'
    } else if v == 4 {
        '4'
    } else if v == 5 {
        '5'
    } else if v == 6 {
        '6'
    } else if v == 7 {
        '7'
    } else if v == 8 {
        '8'
    } else if v == 9 {
        '9'
    } else if v == 10 {
        'a'
    } else if v == 11 {
        'b'
    } else if v == 12 {
        'c'
    } else if v == 13 {
        'd'
    } else if v == 14 {
        'e'
    } else {
        'f'
    }
}

/// Lowercase hexadecimal encoding: two digits per byte, high nibble first.
pub open spec fn hex_of(bytes: Seq<u8>) -> Seq<char> {
    Seq::new(
        bytes.len() * 2,
        |i: int|
            if i % 2 == 0 {
                hex_digit((bytes[i / 2] / 16) as u8)
            } else {
                hex_digit((bytes[i / 2] % 16) as u8)
            },
    )
}

/// The hex-encoded SHA-256 digest of a character sequence (hashed as UTF-8).
pub open spec fn sha256_hex_chars(s: Seq<char>) -> Seq<char> {
    hex_of(sha256_of(encode_utf8(s)))
}

/// The hash of a block with the given fields: the hex-encoded digest of the
/// block's preimage text.
pub open spec fn block_hash_chars(
    index: u64,
    previous_hash: Seq<char>,
    txs: Seq<TxView>,
    proof: u64,
) -> Seq<char> {
    sha256_hex_chars(preimage_chars(index, previous_hash, txs, proof))
}

/// A digest meets difficulty `k` when its first `k` characters are '0'.
pub open spec fn meets_difficulty(h: Seq<char>, k: nat) -> bool {
    h.len() >= k && forall|i: int| 0 <= i < k ==> h[i] == '0'
}

/// The proof-of-work predicate: `proof` solves the puzzle for the given
/// predecessor hash and batch at the given difficulty. The puzzle digest is
/// computed with index zero, as the search is independent of the block index.
pub open spec fn pow_ok(
    previous_hash: Seq<char>,
    txs: Seq<TxView>,
    proof: u64,
    difficulty: nat,
) -> bool {
    meets_difficulty(block_hash_chars(0, previous_hash, txs, proof), difficulty)
}

/// Law: the block digest is a pure function of its inputs — equal fields
/// always produce the same hash, so a committed block's hash can be
/// reproduced from its stored fields alone.
pub proof fn lemma_hash_deterministic(
    index1: u64,
    prev1: Seq<char>,
    txs1: Seq<TxView>,
    proof1: u64,
    index2: u64,
    prev2: Seq<char>,
    txs2: Seq<TxView>,
    proof2: u64,
)
    requires
        index1 == index2,
        prev1 == prev2,
        txs1 == txs2,
        proof1 == proof2,
    ensures
        block_hash_chars(index1, prev1, txs1, proof1) == block_hash_chars(
            index2,
            prev2,
            txs2,
            proof2,
        ),
{
}

/// Relies on sha2's `Sha256` (through the `Digest` trait): the digest is 32
/// bytes long and depends on the input bytes alone.
#[verifier::external_body]
pub(crate) fn sha256_bytes(data: &[u8]) -> (r: Vec<u8>)
    ensures
        r@ == sha256_of(data@),
        r@.len() == 32,
{
    sha2::Sha256::digest(data).to_vec()
}

/// Relies on `hex::encode`: lowercase hexadecimal, two digits per input byte,
/// high nibble first.
#[verifier::external_body]
pub(crate) fn hex_encode(data: &[u8]) -> (r: String)
    ensures
        r@ == hex_of(data@),
{
    hex::encode(data)
}

/// Appends the single decimal digit `d` to `s`.
fn append_digit(s: &mut String, d: u64)
    requires
        d < 10,
    ensures
        final(s)@ == old(s)@ + seq![digit_char(d as nat)],
{
    if d == 0 {
        s.append("0");
        proof {
            reveal_strlit("0");
            assert(final(s)@ =~= old(s)@ + seq![digit_char(d as nat)]);
        }
    } else if d == 1 {
        s.append("1");
        proof {
            reveal_strlit("1");
            assert(final(s)@ =~= old(s)@ + seq![digit_char(d as nat)]);
        }
    } else if d == 2 {
        s.append("2");
        proof {
            reveal_strlit("2");
            assert(final(s)@ =~= old(s)@ + seq![digit_char(d as nat)]);
        }
    } else if d == 3 {
        s.append("3");
        proof {
            reveal_strlit("3");
            assert(final(s)@ =~= old(s)@ + seq![digit_char(d as nat)]);
        }
    } else if d == 4 {
        s.append("4");
        proof {
            reveal_strlit("4");
            assert(final(s)@ =~= old(s)@ + seq![digit_char(d as nat)]);
        }
    } else if d == 5 {
        s.append("5");
        proof {
            reveal_strlit("5");
            assert(final(s)@ =~= old(s)@ + seq![digit_char(d as nat)]);
        }
    } else if d == 6 {
        s.append("6");
        proof {
            reveal_strlit("6");
            assert(final(s)@ =~= old(s)@ + seq![digit_char(d as nat)]);
        }
    } else if d == 7 {
        s.append("7");
        proof {
            reveal_strlit("7");
            assert(final(s)@ =~= old(s)@ + seq![digit_char(d as nat)]);
        }
    } else if d == 8 {
        s.append("8");
        proof {
            reveal_strlit("8");
            assert(final(s)@ =~= old(s)@ + seq![digit_char(d as nat)]);
        }
    } else {
        s.append("9");
        proof {
            reveal_strlit("9");
            assert(final(s)@ =~= old(s)@ + seq![digit_char(d as nat)]);
        }
    }
}

/// Appends the decimal representation of `n` to `s`.
fn push_decimal(s: &mut String, n: u64)
    ensures
        final(s)@ == old(s)@ + dec_chars(n as nat),
    decreases n,
{
    if n >= 10 {
        push_decimal(s, n / 10);
        append_digit(s, n % 10);
        proof {
            assert(final(s)@ =~= old(s)@ + dec_chars(n as nat));
        }
    } else {
        append_digit(s, n);
    }
}

/// Appends the serialization of one transaction to `s`.
fn push_tx(s: &mut String, t: &Transaction)
    ensures
        final(s)@ == old(s)@ + tx_chars(t@),
{
    s.append(t.id.as_str());
    s.append("|");
    s.append(t.sender.as_str());
    s.append("|");
    s.append(t.recipient.as_str());
    s.append("|");
    push_decimal(s, t.amount);
    s.append(";");
    proof {
        assert(final(s)@ =~= old(s)@ + tx_chars(t@));
    }
}

/// Computes the digest of a block's fields: a deterministic function of the
/// index, the predecessor hash, the ordered transaction batch and the proof.
pub fn calculate_hash(
    index: u64,
    previous_hash: &str,
    transactions: &Vec<Transaction>,
    proof: u64,
) -> (r: String)
    ensures
        r@ == block_hash_chars(index, previous_hash@, tx_views(transactions@), proof),
        r@.len() == 64,
{
    let ghost all_views: Seq<TxView> = tx_views(transactions@);
    let mut s = String::new();
    push_decimal(&mut s, index);
    s.append(previous_hash);
    let mut i: usize = 0;
    while i < transactions.len()
        invariant
            i <= transactions.len(),
            all_views == tx_views(transactions@),
            all_views.len() == transactions@.len(),
            s@ == dec_chars(index as nat) + previous_hash@ + txs_chars(all_views.take(i as int)),
        decreases transactions.len() - i,
    {
        push_tx(&mut s, &transactions[i]);
        proof {
            assert(all_views.take(i + 1).drop_last() =~= all_views.take(i as int));
            assert(all_views.take(i + 1).last() == transactions@[i as int]@);
            assert(s@ =~= dec_chars(index as nat) + previous_hash@ + txs_chars(
                all_views.take(i + 1),
            ));
        }
        i = i + 1;
    }
    proof {
        assert(all_views.take(transactions@.len() as int) =~= all_views);
    }
    push_decimal(&mut s, proof);
    s.append("CHAIN");
    proof {
        assert(s@ =~= preimage_chars(index, previous_hash@, all_views, proof));
    }
    let digest = sha256_bytes(s.as_str().as_bytes());
    let r = hex_encode(digest.as_slice());
    r
}

/// Tests whether the first `difficulty` characters of `h` are '0'.
pub fn meets_target(h: &str, difficulty: usize) -> (r: bool)
    requires
        h@.len() >= difficulty,
    ensures
        r == meets_difficulty(h@, difficulty as nat),
{
    let mut i: usize = 0;
    while i < difficulty
        invariant
            i <= difficulty,
            h@.len() >= difficulty,
            forall|j: int| 0 <= j < i ==> h@[j] == '0',
        decreases difficulty - i,
    {
        if h.get_char(i) != '0' {
            return false;
        }
        i = i + 1;
    }
    true
}

/// Brute-force proof-of-work search: tries proof values from zero upward and
/// returns the first one whose puzzle digest meets the difficulty. Returns
/// `None` only if no 64-bit proof value solves the puzzle.
pub fn find_proof(previous_hash: &str, transactions: &Vec<Transaction>, difficulty: usize) -> (r:
    Option<u64>)
    requires
        difficulty <= 64,
    ensures
        match r {
            Some(p) => pow_ok(previous_hash@, tx_views(transactions@), p, difficulty as nat)
                && forall|q: u64|
                q < p ==> !pow_ok(previous_hash@, tx_views(transactions@), q, difficulty as nat),
            None => forall|q: u64|
                !pow_ok(previous_hash@, tx_views(transactions@), q, difficulty as nat),
        },
{
    let mut proof: u64 = 0;
    loop
        invariant
            difficulty <= 64,
            forall|q: u64|
                q < proof ==> !pow_ok(previous_hash@, tx_views(transactions@), q, difficulty as nat),
        decreases u64::MAX - proof,
    {
        let h = calculate_hash(0, previous_hash, transactions, proof);
        if meets_target(h.as_str(), difficulty) {
            return Some(proof);
        }
        if proof == u64::MAX {
            return None;
        }
        proof = proof + 1;
    }
}

} // verus!

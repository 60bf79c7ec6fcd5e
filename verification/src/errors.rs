use vstd::prelude::*;

verus! {

/// The error kinds that the ledger and the transaction entry points surface.
///
/// Lookup misses (an unknown transaction id or block index) are represented as
/// `None` results, not as errors; a mining cycle that finds no validator to
/// reward skips the payout without failing.
#[derive(Clone, Copy, Debug, PartialEq, Eq, Structural)]
pub enum ChainError {
    /// A debit would make the address's balance negative; nothing was changed.
    InsufficientFunds,
    /// A credit would push the address's balance past `u64::MAX`; nothing was changed.
    BalanceOverflow,
    /// A submitted transaction carried an empty id.
    EmptyTransactionId,
    /// A block handed to the chain store does not extend the committed chain.
    InvalidBlock,
    /// The proof-of-work search ran out of candidate proof values.
    ProofSearchExhausted,
}

impl ChainError {
    /// A short human-readable description of the error.
    pub fn message(&self) -> (r: &'static str)
        ensures
            self is InsufficientFunds ==> r@ == "insufficient funds"@,
            self is BalanceOverflow ==> r@ == "balance overflow"@,
            self is EmptyTransactionId ==> r@ == "empty transaction id"@,
            self is InvalidBlock ==> r@ == "invalid block"@,
            self is ProofSearchExhausted ==> r@ == "proof search exhausted"@,
    {
        match self {
            ChainError::InsufficientFunds => "insufficient funds",
            ChainError::BalanceOverflow => "balance overflow",
            ChainError::EmptyTransactionId => "empty transaction id",
            ChainError::InvalidBlock => "invalid block",
            ChainError::ProofSearchExhausted => "proof search exhausted",
        }
    }
}

} // verus!

use minichain::errors::ChainError;
use minichain::ledger::Ledger;

#[test]
fn balance_starts_at_zero() {
    let ledger = Ledger::new();
    assert_eq!(ledger.balance_of("nobody"), 0);
}

#[test]
fn credit_and_debit_sequence_never_goes_negative() {
    let mut ledger = Ledger::new();
    assert_eq!(ledger.credit_or_debit("alice", 100), Ok(()));
    assert_eq!(ledger.balance_of("alice"), 100);

    // A debit past the balance is refused and changes nothing.
    assert_eq!(
        ledger.credit_or_debit("alice", -150),
        Err(ChainError::InsufficientFunds)
    );
    assert_eq!(ledger.balance_of("alice"), 100);

    assert_eq!(ledger.credit_or_debit("alice", -100), Ok(()));
    assert_eq!(ledger.balance_of("alice"), 0);

    assert_eq!(
        ledger.credit_or_debit("alice", -1),
        Err(ChainError::InsufficientFunds)
    );
    assert_eq!(ledger.balance_of("alice"), 0);
}

#[test]
fn debit_on_unknown_address_is_insufficient() {
    let mut ledger = Ledger::new();
    assert_eq!(
        ledger.credit_or_debit("ghost", -1),
        Err(ChainError::InsufficientFunds)
    );
    assert_eq!(ledger.balance_of("ghost"), 0);
}

#[test]
fn credit_past_max_is_refused() {
    let mut ledger = Ledger::new();
    assert_eq!(ledger.credit("rich", u64::MAX), Ok(()));
    assert_eq!(
        ledger.credit("rich", 1),
        Err(ChainError::BalanceOverflow)
    );
    assert_eq!(ledger.balance_of("rich"), u64::MAX);
}

#[test]
fn unsigned_credit_and_debit() {
    let mut ledger = Ledger::new();
    assert_eq!(ledger.credit("bob", 7), Ok(()));
    assert_eq!(ledger.debit("bob", 3), Ok(()));
    assert_eq!(ledger.balance_of("bob"), 4);
    assert_eq!(ledger.debit("bob", 5), Err(ChainError::InsufficientFunds));
    assert_eq!(ledger.balance_of("bob"), 4);
}

#[test]
fn balance_of_is_idempotent() {
    let mut ledger = Ledger::new();
    ledger.credit_or_debit("carol", 42).unwrap();
    let first = ledger.balance_of("carol");
    let second = ledger.balance_of("carol");
    let third = ledger.balance_of("carol");
    assert_eq!(first, 42);
    assert_eq!(first, second);
    assert_eq!(second, third);
}

#[test]
fn balances_are_kept_per_address() {
    let mut ledger = Ledger::new();
    ledger.credit_or_debit("a", 1).unwrap();
    ledger.credit_or_debit("b", 2).unwrap();
    ledger.credit_or_debit("c", 3).unwrap();
    assert_eq!(ledger.balance_of("a"), 1);
    assert_eq!(ledger.balance_of("b"), 2);
    assert_eq!(ledger.balance_of("c"), 3);
    ledger.credit_or_debit("b", -2).unwrap();
    assert_eq!(ledger.balance_of("a"), 1);
    assert_eq!(ledger.balance_of("b"), 0);
    assert_eq!(ledger.balance_of("c"), 3);
}

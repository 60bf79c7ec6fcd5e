use vstd::prelude::*;
use vstd::string::*;

use crate::errors::ChainError;

verus! {

/// One address's balance entry.
#[derive(Debug, Clone)]
pub struct BalanceEntry {
    pub address: String,
    pub balance: u64,
}

/// The balance an address holds under a balance map: zero for an absent address.
pub open spec fn balance_in(m: Map<Seq<char>, u64>, address: Seq<char>) -> u64 {
    if m.dom().contains(address) {
        m[address]
    } else {
        0
    }
}

/// The sole owner of the address-to-balance map. All credits and debits pass
/// through `credit_or_debit`, which enforces that no balance ever goes
/// negative; `balance_of` reads without modifying anything.
#[derive(Debug)]
pub struct Ledger {
    entries: Vec<BalanceEntry>,
}

/// The map an entry list denotes: later entries shadow earlier ones, though a
/// well-formed ledger never holds two entries for one address.
pub open spec fn entries_map(s: Seq<BalanceEntry>) -> Map<Seq<char>, u64>
    decreases s.len(),
{
    if s.len() == 0 {
        Map::empty()
    } else {
        entries_map(s.drop_last()).insert(s.last().address@, s.last().balance)
    }
}

impl View for Ledger {
    type V = Map<Seq<char>, u64>;

    closed spec fn view(&self) -> Map<Seq<char>, u64> {
        entries_map(self.entries@)
    }
}

/// No two entries name the same address.
pub open spec fn entries_distinct(s: Seq<BalanceEntry>) -> bool {
    forall|i: int, j: int| 0 <= i < j < s.len() ==> s[i].address@ != s[j].address@
}

proof fn lemma_entries_map_domain(s: Seq<BalanceEntry>, address: Seq<char>)
    ensures
        entries_map(s).dom().contains(address) <==> exists|i: int|
            0 <= i < s.len() && s[i].address@ == address,
    decreases s.len(),
{
    if s.len() > 0 {
        lemma_entries_map_domain(s.drop_last(), address);
        if entries_map(s).dom().contains(address) {
            if s.last().address@ != address {
                let i = choose|i: int|
                    0 <= i < s.drop_last().len() && s.drop_last()[i].address@ == address;
                assert(s[i].address@ == address);
            }
        }
        if exists|i: int| 0 <= i < s.len() && s[i].address@ == address {
            let i = choose|i: int| 0 <= i < s.len() && s[i].address@ == address;
            if i < s.len() - 1 {
                assert(s.drop_last()[i].address@ == address);
            }
        }
    }
}

proof fn lemma_entries_map_value(s: Seq<BalanceEntry>, i: int)
    requires
        entries_distinct(s),
        0 <= i < s.len(),
    ensures
        entries_map(s).dom().contains(s[i].address@),
        entries_map(s)[s[i].address@] == s[i].balance,
    decreases s.len(),
{
    lemma_entries_map_domain(s, s[i].address@);
    if i < s.len() - 1 {
        assert(s.drop_last()[i] == s[i]);
        lemma_entries_map_value(s.drop_last(), i);
        assert(s.last().address@ != s[i].address@);
    }
}

/// Updating one entry's balance updates the denoted map at that address alone.
proof fn lemma_entries_map_update(s: Seq<BalanceEntry>, i: int, e: BalanceEntry)
    requires
        entries_distinct(s),
        0 <= i < s.len(),
        e.address@ == s[i].address@,
    ensures
        entries_map(s.update(i, e)) =~= entries_map(s).insert(e.address@, e.balance),
    decreases s.len(),
{
    let t = s.update(i, e);
    assert(t.len() == s.len());
    if i == s.len() - 1 {
        assert(t.drop_last() =~= s.drop_last());
        assert(t.last() == e);
    } else {
        assert(t.drop_last() =~= s.drop_last().update(i, e));
        assert(s.drop_last()[i] == s[i]);
        lemma_entries_map_update(s.drop_last(), i, e);
        assert(t.last() == s.last());
        assert(s.last().address@ != e.address@);
        assert(entries_map(t) =~= entries_map(s).insert(e.address@, e.balance));
    }
}

impl Ledger {
    /// Whether the ledger's internal entry list is well formed.
    pub closed spec fn wf(&self) -> bool {
        entries_distinct(self.entries@)
    }

    /// Creates an empty ledger: every address has balance zero.
    pub fn new() -> (l: Ledger)
        ensures
            l.wf(),
            l@ == Map::<Seq<char>, u64>::empty(),
    {
        Ledger { entries: Vec::new() }
    }

    /// Finds the position of an address's entry, if it has one.
    fn find_index(&self, address: &String) -> (r: Option<usize>)
        requires
            self.wf(),
        ensures
            match r {
                Some(i) => i < self.entries@.len() && self.entries@[i as int].address@ == address@,
                None => !self@.dom().contains(address@),
            },
    {
        let mut i: usize = 0;
        while i < self.entries.len()
            invariant
                i <= self.entries@.len(),
                forall|j: int| 0 <= j < i ==> self.entries@[j].address@ != address@,
            decreases self.entries@.len() - i,
        {
            if self.entries[i].address == *address {
                return Some(i);
            }
            i = i + 1;
        }
        proof {
            lemma_entries_map_domain(self.entries@, address@);
        }
        None
    }

    /// Returns the balance held by `address`: zero for an unknown address.
    /// The result is a function of the ledger state alone, so repeated calls
    /// with no intervening writes always return the same value.
    pub fn balance_of(&self, address: &str) -> (r: u64)
        requires
            self.wf(),
        ensures
            r == balance_in(self@, address@),
    {
        let key = address.to_owned();
        match self.find_index(&key) {
            Some(i) => {
                proof {
                    lemma_entries_map_value(self.entries@, i as int);
                }
                self.entries[i].balance
            },
            None => 0,
        }
    }

    /// Atomically applies the signed `amount` to the balance of `address`.
    ///
    /// Fails with `InsufficientFunds` exactly when the result would be
    /// negative and with `BalanceOverflow` exactly when it would exceed
    /// `u64::MAX`; on failure the ledger is unchanged. On success the one
    /// balance is updated and every other address is untouched.
    pub fn credit_or_debit(&mut self, address: &str, amount: i64) -> (r: Result<(), ChainError>)
        requires
            old(self).wf(),
        ensures
            final(self).wf(),
            ({
                let b = balance_in(old(self)@, address@) as int;
                match r {
                    Ok(()) => 0 <= b + amount <= u64::MAX && final(self)@ == old(self)@.insert(
                        address@,
                        (b + amount) as u64,
                    ),
                    Err(ChainError::InsufficientFunds) => b + amount < 0 && final(self)@ == old(
                        self,
                    )@,
                    Err(ChainError::BalanceOverflow) => b + amount > u64::MAX && final(self)@
                        == old(self)@,
                    Err(_) => false,
                }
            }),
    {
        let key = address.to_owned();
        let found = self.find_index(&key);
        let current: u64 = match found {
            Some(i) => {
                proof {
                    lemma_entries_map_value(self.entries@, i as int);
                }
                self.entries[i].balance
            },
            None => 0,
        };
        let next: i128 = current as i128 + amount as i128;
        if next < 0 {
            return Err(ChainError::InsufficientFunds);
        }
        if next > u64::MAX as i128 {
            return Err(ChainError::BalanceOverflow);
        }
        let updated: u64 = next as u64;
        self.store(key, found, updated);
        Ok(())
    }

    /// Adds `amount` to the balance of `address`. Fails with
    /// `BalanceOverflow` exactly when the result would exceed `u64::MAX`,
    /// leaving the ledger unchanged.
    pub fn credit(&mut self, address: &str, amount: u64) -> (r: Result<(), ChainError>)
        requires
            old(self).wf(),
        ensures
            final(self).wf(),
            ({
                let b = balance_in(old(self)@, address@) as int;
                match r {
                    Ok(()) => b + amount <= u64::MAX && final(self)@ == old(self)@.insert(
                        address@,
                        (b + amount) as u64,
                    ),
                    Err(e) => e == ChainError::BalanceOverflow && b + amount > u64::MAX
                        && final(self)@ == old(self)@,
                }
            }),
    {
        let key = address.to_owned();
        let found = self.find_index(&key);
        let current: u64 = match found {
            Some(i) => {
                proof {
                    lemma_entries_map_value(self.entries@, i as int);
                }
                self.entries[i].balance
            },
            None => 0,
        };
        if amount > u64::MAX - current {
            return Err(ChainError::BalanceOverflow);
        }
        let updated: u64 = current + amount;
        self.store(key, found, updated);
        Ok(())
    }

    /// Subtracts `amount` from the balance of `address`. Fails with
    /// `InsufficientFunds` exactly when the balance is smaller than `amount`,
    /// leaving the ledger unchanged.
    pub fn debit(&mut self, address: &str, amount: u64) -> (r: Result<(), ChainError>)
        requires
            old(self).wf(),
        ensures
            final(self).wf(),
            ({
                let b = balance_in(old(self)@, address@) as int;
                match r {
                    Ok(()) => b >= amount && final(self)@ == old(self)@.insert(
                        address@,
                        (b - amount) as u64,
                    ),
                    Err(e) => e == ChainError::InsufficientFunds && b < amount && final(self)@
                        == old(self)@,
                }
            }),
    {
        let key = address.to_owned();
        let found = self.find_index(&key);
        let current: u64 = match found {
            Some(i) => {
                proof {
                    lemma_entries_map_value(self.entries@, i as int);
                }
                self.entries[i].balance
            },
            None => 0,
        };
        if current < amount {
            return Err(ChainError::InsufficientFunds);
        }
        let updated: u64 = current - amount;
        self.store(key, found, updated);
        Ok(())
    }

    /// Writes a balance at the position `find_index` reported for `key`.
    fn store(&mut self, key: String, found: Option<usize>, value: u64)
        requires
            old(self).wf(),
            match found {
                Some(i) => i < old(self).entries@.len() && old(self).entries@[i as int].address@
                    == key@,
                None => !old(self)@.dom().contains(key@),
            },
        ensures
            final(self).wf(),
            final(self)@ == old(self)@.insert(key@, value),
    {
        match found {
            Some(i) => {
                let entry = BalanceEntry { address: key, balance: value };
                proof {
                    lemma_entries_map_update(self.entries@, i as int, entry);
                }
                self.entries[i] = entry;
            },
            None => {
                proof {
                    lemma_entries_map_domain(self.entries@, key@);
                    assert(self.entries@.push(
                        BalanceEntry { address: key, balance: value },
                    ).drop_last() =~= self.entries@);
                }
                self.entries.push(BalanceEntry { address: key, balance: value });
                proof {
                    assert(entries_distinct(self.entries@));
                }
            },
        }
    }

    /// Law: a balance is an unsigned quantity, so whatever sequence of
    /// credits and debits produced a ledger, no address's balance is ever
    /// negative.
    pub proof fn lemma_balance_never_negative(m: Map<Seq<char>, u64>, address: Seq<char>)
        ensures
            balance_in(m, address) >= 0,
    {
    }
}

} // verus!

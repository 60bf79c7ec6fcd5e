use vstd::prelude::*;
use vstd::string::*;
use vstd::arithmetic::mul::lemma_mul_inequality;

use crate::rng::random_below;
use crate::types::{Validator, ValidatorView};

verus! {

/// The combined stake of the first `i` validators.
pub open spec fn stake_prefix(s: Seq<ValidatorView>, i: int) -> int
    decreases i,
{
    if i <= 0 {
        0
    } else {
        stake_prefix(s, i - 1) + s[i - 1].stake
    }
}

/// The combined stake of all validators.
pub open spec fn total_stake_of(s: Seq<ValidatorView>) -> int {
    stake_prefix(s, s.len() as int)
}

/// Roll `r` selects validator `i`: `r` falls in the stake interval that the
/// scan of the inverse-CDF sampling algorithm assigns to `i`.
pub open spec fn selected_at(s: Seq<ValidatorView>, r: int, i: int) -> bool {
    &&& 0 <= i < s.len()
    &&& stake_prefix(s, i) <= r
    &&& r < stake_prefix(s, i) + s[i].stake
}

proof fn lemma_stake_prefix_nonneg(s: Seq<ValidatorView>, i: int)
    ensures
        stake_prefix(s, i) >= 0,
    decreases i,
{
    if i > 0 {
        lemma_stake_prefix_nonneg(s, i - 1);
    }
}

proof fn lemma_stake_prefix_monotone(s: Seq<ValidatorView>, i: int, j: int)
    requires
        i <= j,
    ensures
        stake_prefix(s, i) <= stake_prefix(s, j),
    decreases j - i,
{
    if i < j {
        lemma_stake_prefix_monotone(s, i, j - 1);
    }
}

proof fn lemma_stake_prefix_bound(s: Seq<ValidatorView>, i: int)
    requires
        i >= 0,
    ensures
        stake_prefix(s, i) <= i * (u64::MAX as int),
    decreases i,
{
    if i > 0 {
        lemma_stake_prefix_bound(s, i - 1);
        assert((i - 1) * (u64::MAX as int) + (u64::MAX as int) == i * (u64::MAX as int))
            by (nonlinear_arith);
    }
}

/// A registry of staked validators supporting stake-weighted random
/// selection: each validator is chosen with probability `stake / total`.
#[derive(Debug)]
pub struct PoS {
    validators: Vec<Validator>,
}

/// The views of a validator list, in order.
pub open spec fn validator_views(s: Seq<Validator>) -> Seq<ValidatorView> {
    s.map_values(|v: Validator| v@)
}

impl View for PoS {
    type V = Seq<ValidatorView>;

    closed spec fn view(&self) -> Seq<ValidatorView> {
        validator_views(self.validators@)
    }
}

impl PoS {
    /// Addresses are distinct and every stake is positive.
    pub open spec fn wf(&self) -> bool {
        &&& forall|i: int, j: int|
            0 <= i < j < self@.len() ==> self@[i].address != self@[j].address
        &&& forall|i: int| 0 <= i < self@.len() ==> #[trigger] self@[i].stake >= 1
    }

    /// Creates an empty registry.
    pub fn new() -> (p: PoS)
        ensures
            p.wf(),
            p@ == Seq::<ValidatorView>::empty(),
    {
        let p = PoS { validators: Vec::new() };
        proof {
            assert(p@ =~= Seq::<ValidatorView>::empty());
        }
        p
    }

    /// The number of registered validators.
    pub fn len(&self) -> (r: usize)
        ensures
            r == self@.len(),
    {
        self.validators.len()
    }

    /// The validator at a position, for read-only inspection.
    pub fn validator_at(&self, i: usize) -> (r: Validator)
        requires
            i < self@.len(),
        ensures
            r@ == self@[i as int],
    {
        self.validators[i].duplicate()
    }

    /// Finds the position of a validator by address.
    fn find_index(&self, address: &String) -> (r: Option<usize>)
        requires
            self.wf(),
        ensures
            match r {
                Some(i) => i < self@.len() && self@[i as int].address == address@,
                None => forall|j: int| 0 <= j < self@.len() ==> self@[j].address != address@,
            },
    {
        let mut i: usize = 0;
        while i < self.validators.len()
            invariant
                i <= self@.len(),
                self@.len() == self.validators@.len(),
                forall|j: int| 0 <= j < i ==> self@[j].address != address@,
            decreases self@.len() - i,
        {
            if self.validators[i].address == *address {
                return Some(i);
            }
            i = i + 1;
        }
        None
    }

    /// Registers a validator with a positive stake. Adding an address that is
    /// already registered replaces its stake: the operation is idempotent by
    /// address.
    pub fn add_validator(&mut self, address: String, stake: u64)
        requires
            old(self).wf(),
            stake >= 1,
        ensures
            final(self).wf(),
            ({
                let vv = ValidatorView { address: address@, stake: stake };
                let prev = old(self)@;
                let cur = final(self)@;
                if exists|j: int| 0 <= j < prev.len() && prev[j].address == address@ {
                    exists|j: int|
                        0 <= j < prev.len() && prev[j].address == address@ && cur == prev.update(
                            j,
                            vv,
                        )
                } else {
                    cur == prev.push(vv)
                }
            }),
    {
        let v = Validator { address, stake };
        let found = self.find_index(&v.address);
        match found {
            Some(i) => {
                self.validators[i] = v;
                proof {
                    assert(final(self)@ =~= old(self)@.update(
                        i as int,
                        ValidatorView { address: final(self)@[i as int].address, stake: stake },
                    ));
                }
            },
            None => {
                self.validators.push(v);
                proof {
                    assert(final(self)@ =~= old(self)@.push(
                        ValidatorView { address: final(self)@.last().address, stake: stake },
                    ));
                }
            },
        }
    }

    /// Removes the validator with the given address; returns whether one was
    /// present and removed.
    pub fn remove_validator(&mut self, address: &str) -> (r: bool)
        requires
            old(self).wf(),
        ensures
            final(self).wf(),
            r <==> exists|j: int|
                0 <= j < old(self)@.len() && old(self)@[j].address == address@,
            r ==> exists|j: int|
                0 <= j < old(self)@.len() && old(self)@[j].address == address@ && final(self)@
                    == old(self)@.remove(j),
            !r ==> final(self)@ == old(self)@,
    {
        let key = address.to_owned();
        let found = self.find_index(&key);
        match found {
            Some(i) => {
                self.validators.remove(i);
                proof {
                    assert(final(self)@ =~= old(self)@.remove(i as int));
                }
                true
            },
            None => false,
        }
    }

    /// The combined stake of all registered validators.
    pub fn total_stake(&self) -> (r: u128)
        ensures
            r == total_stake_of(self@),
    {
        let mut sum: u128 = 0;
        let mut i: usize = 0;
        while i < self.validators.len()
            invariant
                i <= self@.len(),
                self@.len() == self.validators@.len(),
                sum == stake_prefix(self@, i as int),
                sum <= i * (u64::MAX as int),
            decreases self@.len() - i,
        {
            let st = self.validators[i].stake;
            proof {
                assert((i as int) * (u64::MAX as int) + (u64::MAX as int) == (i as int + 1) * (
                u64::MAX as int)) by (nonlinear_arith);
                lemma_mul_inequality(i as int + 1, usize::MAX as int + 1, u64::MAX as int);
            }
            sum = sum + st as u128;
            i = i + 1;
        }
        sum
    }

    /// The deterministic scan of stake-weighted selection: given a roll below
    /// the total stake, returns the first validator whose cumulative stake
    /// exceeds the roll. The chosen index is exactly the one whose stake
    /// interval contains the roll.
    pub fn select_with_roll(&self, roll: u128) -> (r: Option<Validator>)
        requires
            self.wf(),
            roll < total_stake_of(self@),
        ensures
            r matches Some(v) && exists|i: int| selected_at(self@, roll as int, i) && v@ == self@[i],
    {
        let ghost s = self@;
        let mut cum: u128 = 0;
        let mut i: usize = 0;
        proof {
            lemma_stake_prefix_nonneg(s, s.len() as int);
        }
        while i < self.validators.len()
            invariant
                self.wf(),
                s == self@,
                i <= s.len(),
                s.len() == self.validators@.len(),
                roll < total_stake_of(s),
                cum == stake_prefix(s, i as int),
                cum <= roll,
            decreases s.len() - i,
        {
            let st = self.validators[i].stake;
            proof {
                lemma_stake_prefix_monotone(s, i as int + 1, s.len() as int);
                lemma_stake_prefix_bound(s, s.len() as int);
                lemma_mul_inequality(s.len() as int, u64::MAX as int, u64::MAX as int);
            }
            let next = cum + st as u128;
            if roll < next {
                let v = self.validators[i].duplicate();
                proof {
                    assert(selected_at(s, roll as int, i as int));
                }
                return Some(v);
            }
            cum = next;
            i = i + 1;
        }
        proof {
            assert(cum == total_stake_of(s));
            assert(false);
        }
        None
    }

    /// Stake-weighted random choice: draws a uniform roll below the total
    /// stake and scans for the owning validator. Returns `None` exactly when
    /// the registry is empty; otherwise the result is one of the registered
    /// validators, the one whose stake interval contains the roll.
    pub fn select_validator(&self) -> (r: Option<Validator>)
        requires
            self.wf(),
        ensures
            r is None <==> self@.len() == 0,
            r matches Some(v) ==> exists|i: int| 0 <= i < self@.len() && v@ == self@[i],
    {
        if self.validators.len() == 0 {
            proof {
                assert(self@.len() == 0);
            }
            return None;
        }
        proof {
            lemma_total_at_least_len(self@);
        }
        let total = self.total_stake();
        let roll = random_below(total);
        let picked = self.select_with_roll(roll);
        picked
    }
}

/// With every stake positive, the total stake is at least the number of
/// validators.
proof fn lemma_total_prefix_at_least(s: Seq<ValidatorView>, i: int)
    requires
        0 <= i <= s.len(),
        forall|k: int| 0 <= k < s.len() ==> #[trigger] s[k].stake >= 1,
    ensures
        stake_prefix(s, i) >= i,
    decreases i,
{
    if i > 0 {
        lemma_total_prefix_at_least(s, i - 1);
    }
}

proof fn lemma_total_at_least_len(s: Seq<ValidatorView>)
    requires
        forall|k: int| 0 <= k < s.len() ==> #[trigger] s[k].stake >= 1,
    ensures
        total_stake_of(s) >= s.len(),
{
    lemma_total_prefix_at_least(s, s.len() as int);
}

/// Law: the stake intervals partition the roll space. Every roll below the
/// total stake selects exactly one validator, and the rolls that select
/// validator `i` are exactly those in `[stake_prefix(i), stake_prefix(i+1))`
/// — an interval of width `stake(i)`. Under a uniform roll each validator is
/// therefore selected with probability `stake / total`.
pub proof fn lemma_selection_partition(s: Seq<ValidatorView>, r: int)
    requires
        0 <= r < total_stake_of(s),
    ensures
        exists|i: int| selected_at(s, r, i),
        forall|i: int, j: int| selected_at(s, r, i) && selected_at(s, r, j) ==> i == j,
        forall|i: int|
            0 <= i < s.len() ==> (selected_at(s, r, i) <==> stake_prefix(s, i) <= r < stake_prefix(
                s,
                i + 1,
            )),
{
    lemma_selection_exists(s, r, s.len() as int);
    assert forall|i: int, j: int| selected_at(s, r, i) && selected_at(s, r, j) implies i == j by {
        if i < j {
            lemma_stake_prefix_monotone(s, i + 1, j);
        }
        if j < i {
            lemma_stake_prefix_monotone(s, j + 1, i);
        }
    }
}

proof fn lemma_selection_exists(s: Seq<ValidatorView>, r: int, n: int)
    requires
        0 <= n <= s.len(),
        0 <= r < stake_prefix(s, n),
    ensures
        exists|i: int| selected_at(s, r, i),
    decreases n,
{
    if n > 0 {
        if r < stake_prefix(s, n - 1) {
            lemma_selection_exists(s, r, n - 1);
        } else {
            assert(selected_at(s, r, n - 1));
        }
    }
}

} // verus!

//! Account balances in micro-units, and their sum.

use crate::types::{Address, LedgerError};
use vstd::hash_map::StringHashMap;
use vstd::prelude::*;

verus! {

/// What an address holds in a balance map: its entry, or nothing.
pub open spec fn balance_of(m: Map<Seq<char>, u64>, addr: Seq<char>) -> nat {
    if m.dom().contains(addr) {
        m[addr] as nat
    } else {
        0
    }
}

/// The sum of all balances in a finite map.
pub open spec fn total_of(m: Map<Seq<char>, u64>) -> nat
    decreases m.dom().len(),
    when m.dom().finite()
{
    if m.dom().len() == 0 {
        0
    } else {
        let a = m.dom().choose();
        m[a] as nat + total_of(m.remove(a))
    }
}

/// The map after `addr` is set to hold `value`.
pub open spec fn with_balance(m: Map<Seq<char>, u64>, addr: Seq<char>, value: int) -> Map<
    Seq<char>,
    u64,
> {
    m.insert(addr, value as u64)
}

/// The sum splits into any one entry and the rest.
pub proof fn lemma_total_split(m: Map<Seq<char>, u64>, addr: Seq<char>)
    requires
        m.dom().finite(),
        m.dom().contains(addr),
    ensures
        total_of(m) == m[addr] as nat + total_of(m.remove(addr)),
    decreases m.dom().len(),
{
    assert(m.dom().len() != 0) by {
        if m.dom().len() == 0 {
            m.dom().lemma_len0_is_empty();
        }
    }
    let a = m.dom().choose();
    assert(m.dom().contains(a)) by {
        if m.dom().len() == 0 {
            m.dom().lemma_len0_is_empty();
        }
    }
    if a != addr {
        let rest = m.remove(a);
        assert(rest.dom() =~= m.dom().remove(a));
        lemma_total_split(rest, addr);
        let other = m.remove(addr);
        assert(other.dom() =~= m.dom().remove(addr));
        lemma_total_split(other, a);
        assert(rest.remove(addr) =~= other.remove(a));
    }
}

/// No single balance exceeds the sum.
pub proof fn lemma_balance_within_total(m: Map<Seq<char>, u64>, addr: Seq<char>)
    requires
        m.dom().finite(),
    ensures
        balance_of(m, addr) <= total_of(m),
{
    if m.dom().contains(addr) {
        lemma_total_split(m, addr);
    }
}

/// Setting one balance changes the sum by the difference.
pub proof fn lemma_total_after_set(m: Map<Seq<char>, u64>, addr: Seq<char>, value: u64)
    requires
        m.dom().finite(),
    ensures
        total_of(m.insert(addr, value)) + balance_of(m, addr) == total_of(m) + value,
{
    let after = m.insert(addr, value);
    lemma_total_split(after, addr);
    if m.dom().contains(addr) {
        lemma_total_split(m, addr);
        assert(after.remove(addr) =~= m.remove(addr));
    } else {
        assert(after.remove(addr) =~= m);
    }
}

/// Balances by address. An address without an entry holds nothing.
pub struct BalanceTracker {
    entries: StringHashMap<u64>,
}

impl View for BalanceTracker {
    type V = Map<Seq<char>, u64>;

    closed spec fn view(&self) -> Map<Seq<char>, u64> {
        self.entries@
    }
}

impl BalanceTracker {
    /// The entries are finitely many.
    pub open spec fn wf(&self) -> bool {
        self@.dom().finite()
    }

    /// The sum of all balances.
    pub open spec fn total(&self) -> nat {
        total_of(self@)
    }

    /// A tracker in which every address holds nothing.
    pub fn new() -> (b: BalanceTracker)
        ensures
            b.wf(),
            b@ == Map::<Seq<char>, u64>::empty(),
            b.total() == 0,
    {
        let b = BalanceTracker { entries: StringHashMap::new() };
        proof {
            assert(b@.dom() =~= Set::<Seq<char>>::empty());
        }
        b
    }

    /// What an address holds.
    pub fn balance(&self, addr: &Address) -> (amount: u64)
        ensures
            amount == balance_of(self@, addr@),
    {
        match self.entries.get(addr.as_str()) {
            Some(held) => *held,
            None => 0,
        }
    }

    /// Adds `amount` to what `addr` holds.
    pub fn credit(&mut self, addr: &Address, amount: u64)
        requires
            old(self).wf(),
            old(self).total() + amount <= u64::MAX,
        ensures
            final(self).wf(),
            final(self)@ == with_balance(old(self)@, addr@, balance_of(old(self)@, addr@) + amount),
            final(self).total() == old(self).total() + amount,
    {
        let held = self.balance(addr);
        proof {
            lemma_balance_within_total(self@, addr@);
            lemma_total_after_set(self@, addr@, (held + amount) as u64);
        }
        self.entries.insert(addr.0.clone(), held + amount);
    }

    /// Takes `amount` from what `addr` holds, unless it holds less; then
    /// nothing changes.
    pub fn debit(&mut self, addr: &Address, amount: u64) -> (r: Result<(), LedgerError>)
        requires
            old(self).wf(),
        ensures
            final(self).wf(),
            r is Ok <==> amount <= balance_of(old(self)@, addr@),
            r is Ok ==> final(self)@ == with_balance(
                old(self)@,
                addr@,
                balance_of(old(self)@, addr@) - amount,
            ) && final(self).total() + amount == old(self).total(),
            r is Err ==> final(self)@ == old(self)@ && r == Err::<(), LedgerError>(
                LedgerError::InsufficientBalance {
                    needed: amount,
                    available: balance_of(old(self)@, addr@) as u64,
                },
            ),
    {
        let held = self.balance(addr);
        if held < amount {
            return Err(LedgerError::InsufficientBalance { needed: amount, available: held });
        }
        proof {
            lemma_total_after_set(self@, addr@, (held - amount) as u64);
        }
        self.entries.insert(addr.0.clone(), held - amount);
        Ok(())
    }

    /// Moves `amount` from one address to another, unless the sender holds
    /// less; then nothing changes.
    pub fn transfer(&mut self, from: &Address, to: &Address, amount: u64) -> (r: Result<
        (),
        LedgerError,
    >)
        requires
            old(self).wf(),
            old(self).total() <= u64::MAX,
        ensures
            final(self).wf(),
            final(self)@ == moved(old(self)@, from@, to@, amount),
            final(self).total() == old(self).total(),
            r is Ok <==> amount <= balance_of(old(self)@, from@),
            r is Err ==> r == Err::<(), LedgerError>(
                LedgerError::InsufficientBalance {
                    needed: amount,
                    available: balance_of(old(self)@, from@) as u64,
                },
            ),
    {
        match self.debit(from, amount) {
            Ok(()) => {
                self.credit(to, amount);
                Ok(())
            },
            Err(e) => Err(e),
        }
    }
}

/// The map after `amount` moved from `from` to `to`; unchanged where
/// `from` holds less.
pub open spec fn moved(m: Map<Seq<char>, u64>, from: Seq<char>, to: Seq<char>, amount: u64) -> Map<
    Seq<char>,
    u64,
> {
    if amount <= balance_of(m, from) {
        let debited = with_balance(m, from, balance_of(m, from) - amount);
        with_balance(debited, to, balance_of(debited, to) + amount)
    } else {
        m
    }
}

} // verus!

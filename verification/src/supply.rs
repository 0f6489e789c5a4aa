//! Supply accounting: how much was ever minted and burned, under a cap.

use crate::types::LedgerError;
use vstd::prelude::*;

verus! {

/// The cap that a ledger starts with, in micro-units: one hundred million
/// whole tokens.
pub const DEFAULT_SUPPLY_CAP: u64 = 100_000_000_000_000;

/// Totals of minted and burned micro-units and the cap on minting.
#[derive(Debug)]
pub struct SupplyTracker {
    total_minted: u64,
    total_burned: u64,
    cap: u64,
}

impl SupplyTracker {
    /// Never more burned than minted, never more minted than the cap, which
    /// is a 64-bit number.
    pub open spec fn wf(&self) -> bool {
        self.burned() <= self.minted() <= self.limit() <= u64::MAX
    }

    /// Micro-units minted so far.
    pub closed spec fn minted(&self) -> nat {
        self.total_minted as nat
    }

    /// Micro-units burned so far.
    pub closed spec fn burned(&self) -> nat {
        self.total_burned as nat
    }

    /// The most that may ever be minted.
    pub closed spec fn limit(&self) -> nat {
        self.cap as nat
    }

    /// A tracker with nothing minted under the given cap.
    pub fn new(cap: u64) -> (s: SupplyTracker)
        ensures
            s.wf(),
            s.minted() == 0,
            s.burned() == 0,
            s.limit() == cap,
    {
        SupplyTracker { total_minted: 0, total_burned: 0, cap }
    }

    /// A tracker with nothing minted under the default cap.
    pub fn default_config() -> (s: SupplyTracker)
        ensures
            s.wf(),
            s.minted() == 0,
            s.burned() == 0,
            s.limit() == DEFAULT_SUPPLY_CAP,
    {
        SupplyTracker::new(DEFAULT_SUPPLY_CAP)
    }

    /// Records a mint, unless it would pass the cap; then nothing changes.
    pub fn mint(&mut self, amount: u64) -> (r: Result<(), LedgerError>)
        requires
            old(self).wf(),
        ensures
            final(self).wf(),
            final(self).limit() == old(self).limit(),
            final(self).burned() == old(self).burned(),
            r is Ok <==> old(self).minted() + amount <= old(self).limit(),
            r is Ok ==> final(self).minted() == old(self).minted() + amount,
            r is Err ==> r == Err::<(), LedgerError>(LedgerError::SupplyCapExceeded)
                && final(self).minted() == old(self).minted(),
    {
        if amount > self.cap - self.total_minted {
            return Err(LedgerError::SupplyCapExceeded);
        }
        self.total_minted = self.total_minted + amount;
        Ok(())
    }

    /// Records a burn of micro-units that are in circulation.
    pub fn burn(&mut self, amount: u64)
        requires
            old(self).wf(),
            amount <= old(self).minted() - old(self).burned(),
        ensures
            final(self).wf(),
            final(self).limit() == old(self).limit(),
            final(self).minted() == old(self).minted(),
            final(self).burned() == old(self).burned() + amount,
    {
        self.total_burned = self.total_burned + amount;
    }

    /// Micro-units minted so far.
    pub fn total_minted(&self) -> (n: u64)
        ensures
            n == self.minted(),
    {
        self.total_minted
    }

    /// Micro-units burned so far.
    pub fn total_burned(&self) -> (n: u64)
        ensures
            n == self.burned(),
    {
        self.total_burned
    }

    /// The cap on minting.
    pub fn cap(&self) -> (n: u64)
        ensures
            n == self.limit(),
    {
        self.cap
    }

    /// Micro-units in circulation: minted less burned.
    pub fn circulating(&self) -> (n: u64)
        requires
            self.wf(),
        ensures
            n == self.minted() - self.burned(),
    {
        self.total_minted - self.total_burned
    }
}

} // verus!

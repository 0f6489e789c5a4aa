//! The append-only ledger: a log of transactions and the balances, supply
//! and seen identifiers that replaying the log gives.

use crate::balance::{
    balance_of, lemma_balance_within_total, lemma_total_after_set, moved, total_of, with_balance,
    BalanceTracker,
};
use crate::codec::json_parses;
use crate::row::{lemma_row_round_trip, read_back, stored};
use crate::merkle::{hashes, MerkleTree};
use crate::supply::{SupplyTracker, DEFAULT_SUPPLY_CAP};
use crate::transaction::{malformed_reason, metadata_reason, Transaction, TransactionView};
use crate::types::{system_text, Address, ErrorKind, LedgerError, TransactionType};
use vstd::hash_set::StringHashSet;
use vstd::prelude::*;

verus! {

/// Balances and supply totals as mathematical values.
pub struct Books {
    pub balances: Map<Seq<char>, u64>,
    pub minted: nat,
    pub burned: nat,
}

/// The books of a ledger without transactions.
pub open spec fn empty_books() -> Books {
    Books { balances: Map::empty(), minted: 0, burned: 0 }
}

/// Whether a transaction creates its amount: every mint does, and so does
/// any transfer, fee or reward that the system address sends.
pub open spec fn draws_on_supply(t: TransactionView) -> bool {
    t.tx_type == TransactionType::Mint || (t.tx_type != TransactionType::Burn && t.from
        == system_text())
}

/// The books after one transaction, or why it cannot be applied.
///
/// A transaction that draws on the supply mints its amount and credits
/// the recipient; it fails where the total minted would pass `cap`. A
/// burn debits the sender and counts the amount as burned. Anything else
/// moves the amount from sender to recipient. A debit of more than the
/// sender holds fails.
pub open spec fn effect(b: Books, cap: nat, t: TransactionView) -> Result<Books, ErrorKind> {
    if draws_on_supply(t) {
        if b.minted + t.amount > cap {
            Err(ErrorKind::SupplyCapExceeded)
        } else {
            Ok(
                Books {
                    balances: with_balance(
                        b.balances,
                        t.to,
                        balance_of(b.balances, t.to) + t.amount,
                    ),
                    minted: (b.minted + t.amount) as nat,
                    burned: b.burned,
                },
            )
        }
    } else if balance_of(b.balances, t.from) < t.amount {
        Err(ErrorKind::InsufficientBalance)
    } else if t.tx_type == TransactionType::Burn {
        Ok(
            Books {
                balances: with_balance(
                    b.balances,
                    t.from,
                    balance_of(b.balances, t.from) - t.amount,
                ),
                minted: b.minted,
                burned: (b.burned + t.amount) as nat,
            },
        )
    } else {
        Ok(
            Books {
                balances: moved(b.balances, t.from, t.to, t.amount),
                minted: b.minted,
                burned: b.burned,
            },
        )
    }
}

/// The books after all transactions of a log, applied in order from the
/// empty books; the first failure, if one fails.
pub open spec fn replayed(log: Seq<TransactionView>, cap: nat) -> Result<Books, ErrorKind>
    decreases log.len(),
{
    if log.len() == 0 {
        Ok(empty_books())
    } else {
        match replayed(log.drop_last(), cap) {
            Ok(b) => effect(b, cap, log.last()),
            Err(e) => Err(e),
        }
    }
}

/// The identifiers that occur in a log.
pub open spec fn ids_of(log: Seq<TransactionView>) -> Set<Seq<char>> {
    Set::new(|id: Seq<char>| exists|i: int| 0 <= i < log.len() && (#[trigger] log[i]).tx_id == id)
}

/// A vector of transactions as mathematical values.
pub open spec fn views(log: Seq<Transaction>) -> Seq<TransactionView> {
    Seq::new(log.len(), |i: int| log[i]@)
}

/// A ledger as mathematical values.
pub struct LedgerView {
    pub log: Seq<TransactionView>,
    pub books: Books,
    pub cap: nat,
    pub ids: Set<Seq<char>>,
}

/// What appending a transaction to a ledger gives: the next ledger, or
/// the reason for refusing. The sender is authenticated first, then the
/// metadata must be JSON, then the identifier must be new, then the
/// effect must apply.
pub open spec fn append_outcome(l: LedgerView, t: TransactionView) -> Result<
    LedgerView,
    ErrorKind,
> {
    match t.origin_fault() {
        Some(k) => Err(k),
        None => {
            if !json_parses(t.metadata) {
                Err(ErrorKind::InvalidTransaction)
            } else if l.ids.contains(t.tx_id) {
                Err(ErrorKind::DuplicateTransaction)
            } else {
                match effect(l.books, l.cap, t) {
                    Err(k) => Err(k),
                    Ok(b) => Ok(
                        LedgerView {
                            log: l.log.push(t),
                            books: b,
                            cap: l.cap,
                            ids: l.ids.insert(t.tx_id),
                        },
                    ),
                }
            }
        },
    }
}

/// What is said of a transaction that is refused as malformed: what is
/// wrong with the sender's key or signature, else that the metadata is
/// not JSON.
pub open spec fn refusal_reason(t: TransactionView) -> Seq<char> {
    if t.origin_fault() is Some {
        malformed_reason(t)
    } else {
        metadata_reason()
    }
}

/// The identifiers of a log with one more transaction are those of the
/// log and the new one.
pub proof fn lemma_ids_of_push(log: Seq<TransactionView>, t: TransactionView)
    ensures
        ids_of(log.push(t)) == ids_of(log).insert(t.tx_id),
{
    let longer = log.push(t);
    assert forall|id: Seq<char>| ids_of(longer).contains(id) <==> ids_of(log).insert(
        t.tx_id,
    ).contains(id) by {
        if ids_of(longer).contains(id) {
            let i = choose|i: int| 0 <= i < longer.len() && (#[trigger] longer[i]).tx_id == id;
            if i < log.len() {
                assert(log[i].tx_id == id);
            }
        }
        if ids_of(log).contains(id) {
            let i = choose|i: int| 0 <= i < log.len() && (#[trigger] log[i]).tx_id == id;
            assert(longer[i].tx_id == id);
        }
        if id == t.tx_id {
            assert(longer[log.len() as int].tx_id == id);
        }
    }
    assert(ids_of(longer) =~= ids_of(log).insert(t.tx_id));
}

/// The ledger: the log in insertion order, and the state that replaying
/// it gives.
pub struct Ledger {
    log: Vec<Transaction>,
    balances: BalanceTracker,
    supply: SupplyTracker,
    tx_ids: StringHashSet,
}

impl View for Ledger {
    type V = LedgerView;

    closed spec fn view(&self) -> LedgerView {
        LedgerView {
            log: views(self.log@),
            books: books_of(&self.balances, &self.supply),
            cap: self.supply.limit(),
            ids: self.tx_ids@,
        }
    }
}

/// The books that a balance tracker and a supply tracker hold together.
pub open spec fn books_of(balances: &BalanceTracker, supply: &SupplyTracker) -> Books {
    Books { balances: balances@, minted: supply.minted(), burned: supply.burned() }
}

/// The two trackers are valid and the balances sum to what circulates.
pub open spec fn balanced(balances: &BalanceTracker, supply: &SupplyTracker) -> bool {
    &&& balances.wf()
    &&& supply.wf()
    &&& balances.total() + supply.burned() == supply.minted()
}

/// A copy of a transaction with the same contents.
pub fn duplicate(tx: &Transaction) -> (copy: Transaction)
    ensures
        copy@ == tx@,
{
    Transaction {
        tx_id: tx.tx_id.clone(),
        tx_type: tx.tx_type,
        from: Address(tx.from.0.clone()),
        to: Address(tx.to.0.clone()),
        amount: tx.amount,
        metadata: tx.metadata.clone(),
        timestamp: tx.timestamp,
        signature: tx.signature.clone(),
        pubkey: tx.pubkey.clone(),
    }
}

impl Ledger {
    /// The state is the replay of the log: balances sum to what
    /// circulates, the seen identifiers are those of the log, and the
    /// books are what the log's transactions give in order.
    pub closed spec fn wf(&self) -> bool {
        &&& balanced(&self.balances, &self.supply)
        &&& self.tx_ids@ == ids_of(views(self.log@))
        &&& replayed(views(self.log@), self.supply.limit()) == Ok::<Books, ErrorKind>(
            books_of(&self.balances, &self.supply),
        )
    }

    /// An empty ledger under the given supply cap.
    pub fn with_supply_cap(cap: u64) -> (ledger: Ledger)
        ensures
            ledger.wf(),
            ledger@.log == Seq::<TransactionView>::empty(),
            ledger@.books == empty_books(),
            ledger@.cap == cap,
            ledger@.ids == Set::<Seq<char>>::empty(),
    {
        let ledger = Ledger {
            log: Vec::new(),
            balances: BalanceTracker::new(),
            supply: SupplyTracker::new(cap),
            tx_ids: StringHashSet::new(),
        };
        proof {
            assert(views(ledger.log@) =~= Seq::<TransactionView>::empty());
            assert(ids_of(views(ledger.log@)) =~= Set::<Seq<char>>::empty());
        }
        ledger
    }

    /// An empty ledger under the default supply cap, held in memory only.
    pub fn in_memory() -> (r: Result<Ledger, LedgerError>)
        ensures
            r is Ok,
            r.unwrap().wf(),
            r.unwrap()@.log == Seq::<TransactionView>::empty(),
            r.unwrap()@.books == empty_books(),
            r.unwrap()@.cap == DEFAULT_SUPPLY_CAP,
            r.unwrap()@.ids == Set::<Seq<char>>::empty(),
    {
        Ok(Ledger::with_supply_cap(DEFAULT_SUPPLY_CAP))
    }

    /// Rebuilds a ledger from persisted transactions, given in insertion
    /// order, under the default supply cap. Transactions that do not
    /// replay are reported as corrupt.
    pub fn open(rows: Vec<Transaction>) -> (r: Result<Ledger, LedgerError>)
        ensures
            r is Ok <==> replayed(views(rows@), DEFAULT_SUPPLY_CAP as nat) is Ok,
            r is Ok ==> r.unwrap().wf() && r.unwrap()@.log == views(rows@) && r.unwrap()@.cap
                == DEFAULT_SUPPLY_CAP,
            r is Ok ==> replayed(views(rows@), DEFAULT_SUPPLY_CAP as nat) == Ok::<Books, ErrorKind>(
                r.unwrap()@.books,
            ) && r.unwrap()@.ids == ids_of(views(rows@)),
            r matches Err(e) ==> e == LedgerError::Corrupt,
    {
        let mut ledger = Ledger::with_supply_cap(DEFAULT_SUPPLY_CAP);
        assert(ledger@.log + views(rows@) =~= views(rows@));
        match ledger.replay(&rows) {
            Ok(()) => Ok(ledger),
            Err(_) => Err(LedgerError::Corrupt),
        }
    }

    /// Replays transactions, in order, on top of this ledger, without
    /// authenticating them again. Stops at the first that does not apply;
    /// those before it stay applied, so that after a failure the log is the
    /// old log followed by the rows before the failing one. In either case
    /// the books and the seen identifiers are those of the log.
    pub fn replay(&mut self, rows: &Vec<Transaction>) -> (r: Result<(), LedgerError>)
        requires
            old(self).wf(),
        ensures
            final(self).wf(),
            final(self)@.cap == old(self)@.cap,
            replayed(final(self)@.log, final(self)@.cap) == Ok::<Books, ErrorKind>(
                final(self)@.books,
            ),
            final(self)@.ids == ids_of(final(self)@.log),
            r is Ok <==> replayed(old(self)@.log + views(rows@), old(self)@.cap) is Ok,
            r is Ok ==> final(self)@.log == old(self)@.log + views(rows@),
            r is Err ==> Err::<Books, ErrorKind>(r.unwrap_err().kind_of()) == replayed(
                old(self)@.log + views(rows@),
                old(self)@.cap,
            ),
            r is Err ==> exists|n: int|
                0 <= n < rows@.len() && final(self)@.log == old(self)@.log + #[trigger] views(
                    rows@,
                ).take(n) && replayed(
                    old(self)@.log + views(rows@).take(n + 1),
                    old(self)@.cap,
                ) is Err,
    {
        let ghost start = self@.log;
        let ghost cap = self@.cap;
        let ghost all = start + views(rows@);
        let mut i: usize = 0;
        assert(start + views(rows@).take(0) =~= start);
        while i < rows.len()
            invariant
                0 <= i <= rows@.len(),
                self.wf(),
                self@.cap == cap,
                cap == old(self)@.cap,
                start == old(self)@.log,
                all == start + views(rows@),
                self@.log == start + views(rows@).take(i as int),
            decreases rows@.len() - i,
        {
            let tx = duplicate(&rows[i]);
            let ghost before = self@.log;
            let ghost done = start + views(rows@).take(i + 1);
            proof {
                assert(done =~= before.push(tx@));
                assert(done.drop_last() =~= before);
                assert(all.take(done.len() as int) =~= done);
            }
            match Self::apply_tx(&mut self.balances, &mut self.supply, &tx) {
                Ok(()) => {},
                Err(e) => {
                    proof {
                        lemma_failure_lasts(done, all, cap);
                        assert(self@.log == start + views(rows@).take(i as int));
                        assert(replayed(start + views(rows@).take(i + 1), cap) is Err);
                    }
                    return Err(e);
                },
            }
            proof {
                lemma_ids_of_push(before, tx@);
                assert(views(self.log@.push(tx)) =~= before.push(tx@));
            }
            self.tx_ids.insert(tx.tx_id.clone());
            self.log.push(tx);
            i = i + 1;
        }
        assert(views(rows@).take(rows@.len() as int) =~= views(rows@));
        Ok(())
    }

    /// Applies a transaction's effect to balances and supply. On failure
    /// neither changes.
    pub fn apply_tx(balances: &mut BalanceTracker, supply: &mut SupplyTracker, tx: &Transaction) -> (r:
        Result<(), LedgerError>)
        requires
            balanced(old(balances), old(supply)),
        ensures
            balanced(final(balances), final(supply)),
            final(supply).limit() == old(supply).limit(),
            match effect(books_of(old(balances), old(supply)), old(supply).limit(), tx@) {
                Ok(b) => r is Ok && books_of(final(balances), final(supply)) == b,
                Err(k) => r is Err && r.unwrap_err().kind_of() == k && books_of(
                    final(balances),
                    final(supply),
                ) == books_of(old(balances), old(supply)),
            },
            r matches Err(LedgerError::InsufficientBalance { needed, available }) ==> needed
                == tx.amount && available == balance_of(old(balances)@, tx.from@),
    {
        match tx.tx_type {
            TransactionType::Mint => {
                supply.mint(tx.amount)?;
                balances.credit(&tx.to, tx.amount);
            },
            TransactionType::Burn => {
                proof {
                    lemma_balance_within_total(balances@, tx.from@);
                }
                balances.debit(&tx.from, tx.amount)?;
                supply.burn(tx.amount);
            },
            TransactionType::Transfer
            | TransactionType::PushFee
            | TransactionType::PullFee
            | TransactionType::StorageReward
            | TransactionType::ChallengeReward
            | TransactionType::BandwidthReward => {
                if tx.from.is_system() {
                    supply.mint(tx.amount)?;
                    balances.credit(&tx.to, tx.amount);
                } else {
                    balances.transfer(&tx.from, &tx.to, tx.amount)?;
                }
            },
        }
        Ok(())
    }

    /// Whether `append` would accept a transaction, and why not if not.
    /// Changes nothing.
    pub fn check(&self, tx: &Transaction) -> (r: Result<(), LedgerError>)
        requires
            self.wf(),
        ensures
            r is Ok <==> append_outcome(self@, tx@) is Ok,
            r is Err ==> Err::<LedgerView, ErrorKind>(r.unwrap_err().kind_of()) == append_outcome(
                self@,
                tx@,
            ),
            r matches Err(LedgerError::DuplicateTransaction(id)) ==> id@ == tx.tx_id@,
            r matches Err(LedgerError::InsufficientBalance { needed, available }) ==> needed
                == tx.amount && available == balance_of(self@.books.balances, tx.from@),
            r matches Err(LedgerError::InvalidTransaction(reason)) ==> reason@ == refusal_reason(
                tx@,
            ),
    {
        tx.verify_origin()?;
        tx.check_metadata()?;
        if self.tx_ids.contains(tx.tx_id.as_str()) {
            return Err(LedgerError::DuplicateTransaction(tx.tx_id.clone()));
        }
        let draws = match tx.tx_type {
            TransactionType::Mint => true,
            TransactionType::Burn => false,
            _ => tx.from.is_system(),
        };
        if draws {
            if tx.amount > self.supply.cap() - self.supply.total_minted() {
                return Err(LedgerError::SupplyCapExceeded);
            }
        } else {
            let held = self.balances.balance(&tx.from);
            if held < tx.amount {
                return Err(LedgerError::InsufficientBalance { needed: tx.amount, available: held });
            }
        }
        Ok(())
    }

    /// Appends a transaction: authenticates the sender, refuses metadata
    /// that is not JSON and a repeated identifier, applies the effect and
    /// records the transaction. A refused transaction leaves the ledger as
    /// it was.
    pub fn append(&mut self, tx: Transaction) -> (r: Result<(), LedgerError>)
        requires
            old(self).wf(),
        ensures
            final(self).wf(),
            match append_outcome(old(self)@, tx@) {
                Ok(next) => r is Ok && final(self)@ == next,
                Err(k) => r is Err && r.unwrap_err().kind_of() == k && final(self)@ == old(self)@,
            },
            r matches Err(LedgerError::DuplicateTransaction(id)) ==> id@ == tx.tx_id@,
            r matches Err(LedgerError::InsufficientBalance { needed, available }) ==> needed
                == tx.amount && available == balance_of(old(self)@.books.balances, tx.from@),
            r matches Err(LedgerError::InvalidTransaction(reason)) ==> reason@ == refusal_reason(
                tx@,
            ),
    {
        tx.verify_origin()?;
        tx.check_metadata()?;
        if self.tx_ids.contains(tx.tx_id.as_str()) {
            return Err(LedgerError::DuplicateTransaction(tx.tx_id.clone()));
        }
        Self::apply_tx(&mut self.balances, &mut self.supply, &tx)?;
        proof {
            lemma_ids_of_push(views(self.log@), tx@);
            assert(views(self.log@.push(tx)) =~= views(self.log@).push(tx@));
            assert(views(self.log@).push(tx@).drop_last() =~= views(self.log@));
        }
        self.tx_ids.insert(tx.tx_id.clone());
        self.log.push(tx);
        Ok(())
    }

    /// What an address holds.
    pub fn balance(&self, addr: &Address) -> (amount: u64)
        ensures
            amount == balance_of(self@.books.balances, addr@),
    {
        self.balances.balance(addr)
    }

    /// All balances.
    pub fn balances(&self) -> (b: &BalanceTracker)
        ensures
            b@ == self@.books.balances,
            self.wf() ==> b.wf(),
    {
        &self.balances
    }

    /// The supply totals.
    pub fn supply(&self) -> (s: &SupplyTracker)
        ensures
            s.minted() == self@.books.minted,
            s.burned() == self@.books.burned,
            s.limit() == self@.cap,
            self.wf() ==> s.wf(),
    {
        &self.supply
    }

    /// The recorded transactions, in insertion order.
    pub fn transactions(&self) -> (log: &Vec<Transaction>)
        ensures
            views(log@) == self@.log,
    {
        &self.log
    }

    /// A Merkle tree over the hashes of all transactions, in insertion
    /// order.
    pub fn merkle_tree(&self) -> (r: Result<MerkleTree, LedgerError>)
        ensures
            r is Ok,
            r.unwrap().wf(),
            r.unwrap().leaves() == digests(self@.log),
    {
        let mut leaves: Vec<[u8; 32]> = Vec::new();
        let mut i: usize = 0;
        while i < self.log.len()
            invariant
                0 <= i <= self.log@.len(),
                leaves@.len() == i,
                forall|j: int| 0 <= j < i ==> (#[trigger] leaves@[j])@ == self.log@[j]@.digest(),
            decreases self.log@.len() - i,
        {
            leaves.push(self.log[i].hash());
            i = i + 1;
        }
        assert(hashes(leaves@) =~= digests(views(self.log@)));
        Ok(MerkleTree::build(leaves))
    }

    /// The number of distinct transaction identifiers recorded.
    pub fn tx_count(&self) -> (n: usize)
        ensures
            n == self@.ids.len(),
    {
        self.tx_ids.len()
    }
}

/// The hashes of a log's transactions, in order.
pub open spec fn digests(log: Seq<TransactionView>) -> Seq<Seq<u8>> {
    Seq::new(log.len(), |i: int| log[i].digest())
}

/// Once a log fails to replay, no continuation of it replays: the failure
/// of a prefix is the failure of the whole.
pub proof fn lemma_failure_lasts(prefix: Seq<TransactionView>, log: Seq<TransactionView>, cap: nat)
    requires
        prefix.len() <= log.len(),
        prefix == log.take(prefix.len() as int),
        replayed(prefix, cap) is Err,
    ensures
        replayed(log, cap) == replayed(prefix, cap),
    decreases log.len() - prefix.len(),
{
    if prefix.len() < log.len() {
        let shorter = log.drop_last();
        assert(shorter.take(prefix.len() as int) =~= prefix);
        lemma_failure_lasts(prefix, shorter, cap);
    } else {
        assert(log =~= prefix);
    }
}

/// An effect that applies keeps the balances finitely many and their sum
/// equal to what circulates, and keeps the total minted under the cap.
pub proof fn lemma_effect_keeps_sum(b: Books, cap: nat, t: TransactionView)
    requires
        cap <= u64::MAX,
        b.balances.dom().finite(),
        total_of(b.balances) + b.burned == b.minted,
        b.minted <= cap,
        effect(b, cap, t) is Ok,
    ensures
        effect(b, cap, t).unwrap().balances.dom().finite(),
        total_of(effect(b, cap, t).unwrap().balances) + effect(b, cap, t).unwrap().burned
            == effect(b, cap, t).unwrap().minted,
        effect(b, cap, t).unwrap().minted <= cap,
{
    let m = b.balances;
    if draws_on_supply(t) {
        lemma_balance_within_total(m, t.to);
        lemma_total_after_set(m, t.to, (balance_of(m, t.to) + t.amount) as u64);
    } else {
        lemma_balance_within_total(m, t.from);
        let debited = with_balance(m, t.from, balance_of(m, t.from) - t.amount);
        lemma_total_after_set(m, t.from, (balance_of(m, t.from) - t.amount) as u64);
        if t.tx_type != TransactionType::Burn {
            lemma_balance_within_total(debited, t.to);
            lemma_total_after_set(debited, t.to, (balance_of(debited, t.to) + t.amount) as u64);
        }
    }
}

/// Whatever log replays, the balances it gives sum to the total minted
/// less the total burned, and the total minted stays under the cap.
pub proof fn lemma_replayed_books_balanced(log: Seq<TransactionView>, cap: nat)
    requires
        cap <= u64::MAX,
        replayed(log, cap) is Ok,
    ensures
        replayed(log, cap).unwrap().balances.dom().finite(),
        total_of(replayed(log, cap).unwrap().balances) + replayed(log, cap).unwrap().burned
            == replayed(log, cap).unwrap().minted,
        replayed(log, cap).unwrap().minted <= cap,
    decreases log.len(),
{
    if log.len() > 0 {
        lemma_replayed_books_balanced(log.drop_last(), cap);
        lemma_effect_keeps_sum(replayed(log.drop_last(), cap).unwrap(), cap, log.last());
    } else {
        assert(empty_books().balances.dom() =~= Set::<Seq<char>>::empty());
    }
}

/// The effect of a transaction depends on its kind, sender, recipient
/// and amount alone.
pub open spec fn same_effect_fields(a: TransactionView, b: TransactionView) -> bool {
    &&& a.tx_type == b.tx_type
    &&& a.from == b.from
    &&& a.to == b.to
    &&& a.amount == b.amount
}

/// Two logs that agree, entry by entry, on identifier, kind, sender,
/// recipient and amount replay to the same books and the same seen
/// identifiers.
pub proof fn lemma_replay_reads_effect_fields(
    a: Seq<TransactionView>,
    b: Seq<TransactionView>,
    cap: nat,
)
    requires
        a.len() == b.len(),
        forall|i: int|
            0 <= i < a.len() ==> same_effect_fields(#[trigger] a[i], b[i]) && a[i].tx_id
                == b[i].tx_id,
    ensures
        replayed(a, cap) == replayed(b, cap),
        ids_of(a) == ids_of(b),
    decreases a.len(),
{
    if a.len() > 0 {
        lemma_replay_reads_effect_fields(a.drop_last(), b.drop_last(), cap);
        assert(same_effect_fields(a[a.len() - 1], b[a.len() - 1]));
    }
    assert forall|id: Seq<char>| ids_of(a).contains(id) <==> ids_of(b).contains(id) by {
        if ids_of(a).contains(id) {
            let i = choose|i: int| 0 <= i < a.len() && (#[trigger] a[i]).tx_id == id;
            assert(same_effect_fields(a[i], b[i]));
            assert(b[i].tx_id == id);
        }
        if ids_of(b).contains(id) {
            let i = choose|i: int| 0 <= i < b.len() && (#[trigger] b[i]).tx_id == id;
            assert(same_effect_fields(a[i], b[i]));
            assert(a[i].tx_id == id);
        }
    }
    assert(ids_of(a) =~= ids_of(b));
}

/// A transaction that a ledger accepts has JSON metadata, so its stored
/// row reads back.
pub proof fn lemma_accepted_metadata_is_json(l: LedgerView, t: TransactionView)
    requires
        append_outcome(l, t) is Ok,
    ensures
        json_parses(t.metadata),
        read_back(stored(t), json_parses(t.metadata)) == Some(t),
{
    lemma_row_round_trip(t);
}

/// Whether the metadata of every transaction of a log is JSON.
pub open spec fn metadata_is_json(log: Seq<TransactionView>) -> bool {
    forall|i: int| 0 <= i < log.len() ==> json_parses((#[trigger] log[i]).metadata)
}

/// A log as it reads back from its stored rows.
pub open spec fn reloaded(log: Seq<TransactionView>) -> Seq<Option<TransactionView>> {
    Seq::new(log.len(), |i: int| read_back(stored(log[i]), json_parses(log[i].metadata)))
}

/// Storing a log row by row and reading the rows back gives the very log
/// again, where all metadata is JSON: so reopening replays the same
/// transactions, and gives the same books and seen identifiers.
pub proof fn lemma_reopen_gives_same_state(log: Seq<TransactionView>)
    ensures
        metadata_is_json(log) ==> reloaded(log) == Seq::new(
            log.len(),
            |i: int| Some(log[i]),
        ),
{
    if metadata_is_json(log) {
        assert forall|i: int| 0 <= i < log.len() implies reloaded(log)[i] == Some(log[i]) by {
            assert(json_parses(log[i].metadata));
            lemma_row_round_trip(log[i]);
        }
        assert(reloaded(log) =~= Seq::new(log.len(), |i: int| Some(log[i])));
    }
}

/// In a valid ledger the balances sum to what circulates: the total
/// minted less the total burned.
pub proof fn lemma_balances_match_supply(ledger: &Ledger)
    requires
        ledger.wf(),
    ensures
        total_of(ledger@.books.balances) == ledger@.books.minted - ledger@.books.burned,
        ledger@.books.burned <= ledger@.books.minted <= ledger@.cap,
{
}

/// A valid ledger's state is the replay of its log: two valid ledgers
/// with the same log and cap have the same balances, supply totals and
/// seen identifiers.
pub proof fn lemma_replay_determines_state(a: &Ledger, b: &Ledger)
    requires
        a.wf(),
        b.wf(),
        a@.log == b@.log,
        a@.cap == b@.cap,
    ensures
        a@ == b@,
        replayed(a@.log, a@.cap) == Ok::<Books, ErrorKind>(a@.books),
        a@.ids == ids_of(a@.log),
{
}

} // verus!

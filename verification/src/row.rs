//! The stored form of a transaction: one row of plain columns, and the
//! reading of a row back into a transaction.

use crate::codec::{json_parses, parses_as_json};
use crate::transaction::{Transaction, TransactionView};
use crate::types::{Address, LedgerError, TransactionType};
use vstd::prelude::*;

verus! {

/// One stored transaction, column by column.
#[derive(Debug, Clone)]
pub struct Row {
    pub tx_id: String,
    /// The kind's lowercase name.
    pub tx_type: String,
    pub from_addr: String,
    pub to_addr: String,
    /// The amount as a signed 64-bit column; amounts above the signed
    /// range are stored wrapped into the negatives.
    pub amount: i64,
    /// The metadata as JSON text.
    pub metadata: String,
    pub timestamp: i64,
    pub signature: String,
    pub pubkey: String,
}

/// A row as plain mathematical values.
pub struct RowView {
    pub tx_id: Seq<char>,
    pub tx_type: Seq<char>,
    pub from_addr: Seq<char>,
    pub to_addr: Seq<char>,
    pub amount: i64,
    pub metadata: Seq<char>,
    pub timestamp: i64,
    pub signature: Seq<char>,
    pub pubkey: Seq<char>,
}

impl View for Row {
    type V = RowView;

    open spec fn view(&self) -> RowView {
        RowView {
            tx_id: self.tx_id@,
            tx_type: self.tx_type@,
            from_addr: self.from_addr@,
            to_addr: self.to_addr@,
            amount: self.amount,
            metadata: self.metadata@,
            timestamp: self.timestamp,
            signature: self.signature@,
            pubkey: self.pubkey@,
        }
    }
}

/// The column value that stores an amount: the amount itself while it
/// fits the signed range, else the amount less 2^64.
pub open spec fn stored_amount(amount: u64) -> int {
    if amount <= i64::MAX {
        amount as int
    } else {
        amount - 0x1_0000_0000_0000_0000
    }
}

/// The amount that a column value stands for: the value itself if it is
/// not negative, else the value plus 2^64.
pub open spec fn loaded_amount(column: i64) -> int {
    if column >= 0 {
        column as int
    } else {
        column + 0x1_0000_0000_0000_0000
    }
}

/// The transaction that a row of the given kind stands for: every column
/// as it is stored.
pub open spec fn assembled(row: RowView, kind: TransactionType) -> TransactionView {
    TransactionView {
        tx_id: row.tx_id,
        tx_type: kind,
        from: row.from_addr,
        to: row.to_addr,
        amount: loaded_amount(row.amount) as u64,
        metadata: row.metadata,
        timestamp: row.timestamp,
        signature: row.signature,
        pubkey: row.pubkey,
    }
}

/// What a row reads back as: its transaction, unless its kind column
/// names no kind or its metadata is not JSON.
pub open spec fn read_back(row: RowView, metadata_parses: bool) -> Option<TransactionView> {
    match TransactionType::named(row.tx_type) {
        Some(kind) => if metadata_parses {
            Some(assembled(row, kind))
        } else {
            None
        },
        None => None,
    }
}

/// Whether every row reads back as a transaction.
pub open spec fn all_read_back(rows: Seq<Row>) -> bool {
    forall|i: int|
        0 <= i < rows.len() ==> read_back(
            (#[trigger] rows[i])@,
            json_parses(rows[i]@.metadata),
        ) is Some
}

/// The row that stores a transaction.
pub open spec fn stored(t: TransactionView) -> RowView {
    RowView {
        tx_id: t.tx_id,
        tx_type: t.tx_type.name_text(),
        from_addr: t.from,
        to_addr: t.to,
        amount: stored_amount(t.amount) as i64,
        metadata: t.metadata,
        timestamp: t.timestamp,
        signature: t.signature,
        pubkey: t.pubkey,
    }
}

/// Storing a transaction and reading the row back gives the very
/// transaction again, where its metadata is JSON.
pub proof fn lemma_row_round_trip(t: TransactionView)
    ensures
        read_back(stored(t), true) == Some(t),
        read_back(stored(t), false) is None,
        loaded_amount(stored_amount(t.amount) as i64) == t.amount,
{
    crate::types::lemma_name_round_trip(t.tx_type);
}

/// Reads an amount column.
pub fn load_amount(column: i64) -> (amount: u64)
    ensures
        amount == loaded_amount(column),
{
    if column >= 0 {
        column as u64
    } else {
        u64::MAX - ((-(column + 1)) as u64)
    }
}

/// Writes an amount column.
pub fn store_amount(amount: u64) -> (column: i64)
    ensures
        column == stored_amount(amount),
{
    if amount <= 0x7fff_ffff_ffff_ffff {
        amount as i64
    } else {
        -((u64::MAX - amount) as i64) - 1
    }
}

impl Transaction {
    /// Builds the transaction of a row, given whether the row's metadata
    /// parsed as JSON. A row whose kind column names no kind, or whose
    /// metadata did not parse, is corrupt.
    pub fn assemble(row: &Row, metadata_parses: bool) -> (r: Result<Transaction, LedgerError>)
        ensures
            match read_back(row@, metadata_parses) {
                Some(t) => r is Ok && r.unwrap()@ == t,
                None => r == Err::<Transaction, LedgerError>(LedgerError::Corrupt),
            },
    {
        let tx_type = match TransactionType::from_name(row.tx_type.as_str()) {
            Some(kind) => kind,
            None => {
                return Err(LedgerError::Corrupt);
            },
        };
        if !metadata_parses {
            return Err(LedgerError::Corrupt);
        }
        Ok(
            Transaction {
                tx_id: row.tx_id.clone(),
                tx_type,
                from: Address(row.from_addr.clone()),
                to: Address(row.to_addr.clone()),
                amount: load_amount(row.amount),
                metadata: row.metadata.clone(),
                timestamp: row.timestamp,
                signature: row.signature.clone(),
                pubkey: row.pubkey.clone(),
            },
        )
    }

    /// Reads a stored row. A row whose kind column names no kind, or whose
    /// metadata is not JSON, is corrupt; any other row gives its
    /// transaction, every column as it is stored.
    pub fn from_row(row: &Row) -> (r: Result<Transaction, LedgerError>)
        ensures
            match read_back(row@, json_parses(row@.metadata)) {
                Some(t) => r is Ok && r.unwrap()@ == t,
                None => r == Err::<Transaction, LedgerError>(LedgerError::Corrupt),
            },
    {
        let parses = parses_as_json(row.metadata.as_str());
        Transaction::assemble(row, parses)
    }

    /// Reads stored rows, in order. One corrupt row makes the whole
    /// reading fail.
    pub fn from_rows(rows: &Vec<Row>) -> (r: Result<Vec<Transaction>, LedgerError>)
        ensures
            r is Ok <==> all_read_back(rows@),
            r is Err ==> r == Err::<Vec<Transaction>, LedgerError>(LedgerError::Corrupt),
            r is Ok ==> r.unwrap()@.len() == rows@.len() && forall|i: int|
                0 <= i < rows@.len() ==> Some((#[trigger] r.unwrap()@[i])@) == read_back(
                    rows@[i]@,
                    json_parses(rows@[i]@.metadata),
                ),
    {
        let mut read: Vec<Transaction> = Vec::new();
        let mut i: usize = 0;
        while i < rows.len()
            invariant
                0 <= i <= rows@.len(),
                read@.len() == i,
                forall|m: int|
                    0 <= m < i ==> Some((#[trigger] read@[m])@) == read_back(
                        rows@[m]@,
                        json_parses(rows@[m]@.metadata),
                    ),
            decreases rows@.len() - i,
        {
            match Transaction::from_row(&rows[i]) {
                Ok(tx) => read.push(tx),
                Err(_) => {
                    assert(read_back(rows@[i as int]@, json_parses(rows@[i as int]@.metadata))
                        is None);
                    return Err(LedgerError::Corrupt);
                },
            }
            i = i + 1;
        }
        assert forall|m: int| 0 <= m < rows@.len() implies read_back(
            (#[trigger] rows@[m])@,
            json_parses(rows@[m]@.metadata),
        ) is Some by {
            assert(Some(read@[m]@) == read_back(rows@[m]@, json_parses(rows@[m]@.metadata)));
        }
        Ok(read)
    }

    /// The row that stores this transaction.
    pub fn to_row(&self) -> (row: Row)
        ensures
            row@ == stored(self@),
    {
        Row {
            tx_id: self.tx_id.clone(),
            tx_type: self.tx_type.name(),
            from_addr: self.from.0.clone(),
            to_addr: self.to.0.clone(),
            amount: store_amount(self.amount),
            metadata: self.metadata.clone(),
            timestamp: self.timestamp,
            signature: self.signature.clone(),
            pubkey: self.pubkey.clone(),
        }
    }
}

} // verus!

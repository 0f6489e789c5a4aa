//! Plain values shared by the ledger: transaction kinds, addresses and
//! errors.

use vstd::prelude::*;
use vstd::string::StringExecFns;

verus! {

/// Micro-units in one whole token.
pub const MICRO_PER_TOKEN: u64 = 1_000_000;

/// The kind of a transaction.
#[derive(Clone, Copy, Debug, PartialEq, Eq, Structural, Hash)]
pub enum TransactionType {
    Mint,
    Burn,
    Transfer,
    PushFee,
    PullFee,
    StorageReward,
    ChallengeReward,
    BandwidthReward,
}

impl TransactionType {
    /// The lowercase name under which a kind is stored.
    pub open spec fn name_text(self) -> Seq<char> {
        match self {
            TransactionType::Mint => "mint"@,
            TransactionType::Burn => "burn"@,
            TransactionType::Transfer => "transfer"@,
            TransactionType::PushFee => "pushfee"@,
            TransactionType::PullFee => "pullfee"@,
            TransactionType::StorageReward => "storagereward"@,
            TransactionType::ChallengeReward => "challengereward"@,
            TransactionType::BandwidthReward => "bandwidthreward"@,
        }
    }

    /// The kind that a stored name stands for, if it names one.
    pub open spec fn named(text: Seq<char>) -> Option<TransactionType> {
        if text == "mint"@ {
            Some(TransactionType::Mint)
        } else if text == "burn"@ {
            Some(TransactionType::Burn)
        } else if text == "transfer"@ {
            Some(TransactionType::Transfer)
        } else if text == "pushfee"@ {
            Some(TransactionType::PushFee)
        } else if text == "pullfee"@ {
            Some(TransactionType::PullFee)
        } else if text == "storagereward"@ {
            Some(TransactionType::StorageReward)
        } else if text == "challengereward"@ {
            Some(TransactionType::ChallengeReward)
        } else if text == "bandwidthreward"@ {
            Some(TransactionType::BandwidthReward)
        } else {
            None
        }
    }

    /// The lowercase name under which this kind is stored.
    pub fn name(&self) -> (text: String)
        ensures
            text@ == self.name_text(),
    {
        match self {
            TransactionType::Mint => String::from_str("mint"),
            TransactionType::Burn => String::from_str("burn"),
            TransactionType::Transfer => String::from_str("transfer"),
            TransactionType::PushFee => String::from_str("pushfee"),
            TransactionType::PullFee => String::from_str("pullfee"),
            TransactionType::StorageReward => String::from_str("storagereward"),
            TransactionType::ChallengeReward => String::from_str("challengereward"),
            TransactionType::BandwidthReward => String::from_str("bandwidthreward"),
        }
    }

    /// Reads a stored name back; `None` where it names no kind.
    pub fn from_name(text: &str) -> (kind: Option<TransactionType>)
        ensures
            kind == TransactionType::named(text@),
    {
        let given = String::from_str(text);
        if given == String::from_str("mint") {
            Some(TransactionType::Mint)
        } else if given == String::from_str("burn") {
            Some(TransactionType::Burn)
        } else if given == String::from_str("transfer") {
            Some(TransactionType::Transfer)
        } else if given == String::from_str("pushfee") {
            Some(TransactionType::PushFee)
        } else if given == String::from_str("pullfee") {
            Some(TransactionType::PullFee)
        } else if given == String::from_str("storagereward") {
            Some(TransactionType::StorageReward)
        } else if given == String::from_str("challengereward") {
            Some(TransactionType::ChallengeReward)
        } else if given == String::from_str("bandwidthreward") {
            Some(TransactionType::BandwidthReward)
        } else {
            None
        }
    }
}

/// Reading a kind's stored name back gives the kind.
pub proof fn lemma_name_round_trip(kind: TransactionType)
    ensures
        TransactionType::named(kind.name_text()) == Some(kind),
{
    reveal_strlit("mint");
    reveal_strlit("burn");
    reveal_strlit("transfer");
    reveal_strlit("pushfee");
    reveal_strlit("pullfee");
    reveal_strlit("storagereward");
    reveal_strlit("challengereward");
    reveal_strlit("bandwidthreward");
    assert("mint"@.len() == 4);
    assert("burn"@.len() == 4);
    assert("transfer"@.len() == 8);
    assert("pushfee"@.len() == 7);
    assert("pullfee"@.len() == 7);
    assert("storagereward"@.len() == 13);
    assert("challengereward"@.len() == 15);
    assert("bandwidthreward"@.len() == 15);
    assert("mint"@[0] == 'm' && "burn"@[0] == 'b');
    assert("transfer"@[0] == 't');
    assert("pushfee"@[1] == 'u' && "pullfee"@[1] == 'u' && "pushfee"@[2] == 's' && "pullfee"@[2] == 'l');
    assert("challengereward"@[0] == 'c' && "bandwidthreward"@[0] == 'b');
}

/// The text of the protocol's own address.
pub open spec fn system_text() -> Seq<char> {
    "system"@
}

/// An account address: the lowercase hexadecimal SHA-256 of a public key,
/// or the reserved system address.
#[derive(Clone, Debug, PartialEq, Eq, Hash)]
pub struct Address(pub String);

impl View for Address {
    type V = Seq<char>;

    open spec fn view(&self) -> Seq<char> {
        self.0@
    }
}

impl Address {
    /// The address with the given text.
    pub fn new(text: &str) -> (addr: Address)
        ensures
            addr@ == text@,
    {
        Address(String::from_str(text))
    }

    /// The reserved address that mints, burns and rewards come from.
    pub fn system() -> (addr: Address)
        ensures
            addr@ == system_text(),
    {
        Address(String::from_str("system"))
    }

    /// Whether this is the system address.
    pub fn is_system(&self) -> (yes: bool)
        ensures
            yes == (self@ == system_text()),
    {
        self.0 == String::from_str("system")
    }

    /// The address as text.
    pub fn as_str(&self) -> (text: &str)
        ensures
            text@ == self@,
    {
        self.0.as_str()
    }
}

/// What went wrong, without the details.
#[derive(Clone, Copy, Debug, PartialEq, Eq, Structural)]
pub enum ErrorKind {
    Database,
    InvalidSignature,
    DuplicateTransaction,
    InsufficientBalance,
    SupplyCapExceeded,
    InvalidTransaction,
    Corrupt,
}

/// A ledger failure.
#[derive(Clone, Debug, PartialEq, Eq)]
pub enum LedgerError {
    /// The durable store failed; the text is the store's message.
    Database(String),
    /// The public key does not hash to the sender, or the signature does
    /// not verify.
    InvalidSignature,
    /// The transaction id is already recorded.
    DuplicateTransaction(String),
    /// A debit asked for more than the account holds.
    InsufficientBalance { needed: u64, available: u64 },
    /// A mint would take the total minted over the cap.
    SupplyCapExceeded,
    /// The transaction is malformed; the text says how.
    InvalidTransaction(String),
    /// Persisted transactions do not replay.
    Corrupt,
}

impl LedgerError {
    /// The kind of this error.
    pub open spec fn kind_of(self) -> ErrorKind {
        match self {
            LedgerError::Database(_) => ErrorKind::Database,
            LedgerError::InvalidSignature => ErrorKind::InvalidSignature,
            LedgerError::DuplicateTransaction(_) => ErrorKind::DuplicateTransaction,
            LedgerError::InsufficientBalance { .. } => ErrorKind::InsufficientBalance,
            LedgerError::SupplyCapExceeded => ErrorKind::SupplyCapExceeded,
            LedgerError::InvalidTransaction(_) => ErrorKind::InvalidTransaction,
            LedgerError::Corrupt => ErrorKind::Corrupt,
        }
    }

    /// The kind of this error.
    pub fn kind(&self) -> (k: ErrorKind)
        ensures
            k == self.kind_of(),
    {
        match self {
            LedgerError::Database(_) => ErrorKind::Database,
            LedgerError::InvalidSignature => ErrorKind::InvalidSignature,
            LedgerError::DuplicateTransaction(_) => ErrorKind::DuplicateTransaction,
            LedgerError::InsufficientBalance { .. } => ErrorKind::InsufficientBalance,
            LedgerError::SupplyCapExceeded => ErrorKind::SupplyCapExceeded,
            LedgerError::InvalidTransaction(_) => ErrorKind::InvalidTransaction,
            LedgerError::Corrupt => ErrorKind::Corrupt,
        }
    }
}

} // verus!

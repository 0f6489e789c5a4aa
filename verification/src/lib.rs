//! The core of a storage-incentive system: arithmetic in a 256-bit prime
//! field, Shamir threshold sharing over it, Merkle trees with inclusion
//! proofs, proof-of-storage challenges and their validation, and an
//! append-only token ledger of signed transactions whose balances are
//! always the replay of the log, with supply accounting under a cap.

pub mod codec;
pub mod keys;
pub mod field;
pub mod shamir;
pub mod types;
pub mod supply;
pub mod balance;
pub mod transaction;
pub mod row;
pub mod merkle;
pub mod challenge;
pub mod response;
pub mod validator;
pub mod store;

pub use balance::BalanceTracker;
pub use field::{FieldElement, FieldError};
pub use shamir::{reconstruct, split, ShamirError, Share};
pub use challenge::{Challenge, ChallengeConfig, ChallengeError};
pub use response::ChallengeProof;
pub use validator::{validate_against_commitment, validate_challenge_response, ValidationError};
pub use keys::{KeyPair, PublicKey};
pub use merkle::MerkleTree;
pub use row::Row;
pub use store::Ledger;
pub use supply::SupplyTracker;
pub use transaction::Transaction;
pub use types::{Address, ErrorKind, LedgerError, TransactionType};

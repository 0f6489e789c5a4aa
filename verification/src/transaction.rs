//! Ledger transactions, their canonical signable form and their hash.

use crate::codec::{
    decimal, decimal_i64, decimal_u64, ed25519_accepts, hex_decode, hex_decoded, json_parses,
    parses_as_json, sha256, sha256_digest, signed_decimal,
};
use crate::keys::{address_of, sha256_hex, PublicKey};
use crate::types::{system_text, Address, ErrorKind, LedgerError, TransactionType};
use vstd::prelude::*;
use vstd::string::{StrSliceExecFns, StringExecFns};
use vstd::utf8::encode_utf8;

verus! {

/// A transaction on the ledger.
#[derive(Debug, Clone)]
pub struct Transaction {
    /// Unique transaction identifier.
    pub tx_id: String,
    /// Kind of transaction.
    pub tx_type: TransactionType,
    /// Sender address (the system address for minting).
    pub from: Address,
    /// Recipient address.
    pub to: Address,
    /// Amount in micro-units.
    pub amount: u64,
    /// Metadata, as JSON text. The ledger signs, hashes and stores the text
    /// as it stands, and asks only that it parses.
    pub metadata: String,
    /// Unix timestamp in seconds.
    pub timestamp: i64,
    /// Ed25519 signature over the signable bytes, in hexadecimal.
    pub signature: String,
    /// Ed25519 public key of the sender, in hexadecimal.
    pub pubkey: String,
}

/// A transaction as plain mathematical values.
pub struct TransactionView {
    pub tx_id: Seq<char>,
    pub tx_type: TransactionType,
    pub from: Seq<char>,
    pub to: Seq<char>,
    pub amount: u64,
    pub metadata: Seq<char>,
    pub timestamp: i64,
    pub signature: Seq<char>,
    pub pubkey: Seq<char>,
}

impl View for Transaction {
    type V = TransactionView;

    open spec fn view(&self) -> TransactionView {
        TransactionView {
            tx_id: self.tx_id@,
            tx_type: self.tx_type,
            from: self.from@,
            to: self.to@,
            amount: self.amount,
            metadata: self.metadata@,
            timestamp: self.timestamp,
            signature: self.signature@,
            pubkey: self.pubkey@,
        }
    }
}

impl TransactionView {
    /// The canonical text that is signed: id, sender, recipient, amount and
    /// timestamp in decimal, metadata and public key, one after another.
    pub open spec fn signable_text(self) -> Seq<char> {
        self.tx_id + self.from + self.to + decimal(self.amount as nat) + signed_decimal(
            self.timestamp as int,
        ) + self.metadata + self.pubkey
    }

    /// The UTF-8 bytes of the canonical text.
    pub open spec fn signable(self) -> Seq<u8> {
        encode_utf8(self.signable_text())
    }

    /// The SHA-256 digest of the signable bytes.
    pub open spec fn digest(self) -> Seq<u8> {
        sha256_digest(self.signable())
    }

    /// Why the sender of this transaction is not authenticated, if it is
    /// not. The system address needs no signature. Otherwise the public
    /// key must be hexadecimal and hash to the sender, and the signature
    /// must be hexadecimal and verify over the signable bytes.
    pub open spec fn origin_fault(self) -> Option<ErrorKind> {
        if self.from == system_text() {
            None
        } else {
            match hex_decoded(self.pubkey) {
                None => Some(ErrorKind::InvalidTransaction),
                Some(key) => {
                    if address_of(key) != self.from {
                        Some(ErrorKind::InvalidSignature)
                    } else {
                        match hex_decoded(self.signature) {
                            None => Some(ErrorKind::InvalidTransaction),
                            Some(sig) => origin_verdict(
                                true,
                                ed25519_accepts(key, self.signable(), sig),
                            ),
                        }
                    }
                },
            }
        }
    }
}

/// What is said of a transaction whose key or signature is not
/// hexadecimal: the key is named where it is at fault, else the signature.
pub open spec fn malformed_reason(t: TransactionView) -> Seq<char> {
    if hex_decoded(t.pubkey) is None {
        "Invalid hex in pubkey"@
    } else {
        "Invalid hex in signature"@
    }
}

/// What is said of a transaction whose metadata is not JSON.
pub open spec fn metadata_reason() -> Seq<char> {
    "Invalid JSON in metadata"@
}

/// The fault, if any, of a sender whose key and signature both decoded:
/// the key must hash to the sender and the signature must verify.
pub open spec fn origin_verdict(key_matches_sender: bool, signature_verifies: bool) -> Option<
    ErrorKind,
> {
    if key_matches_sender && signature_verifies {
        None
    } else {
        Some(ErrorKind::InvalidSignature)
    }
}

/// Judges a sender from the two facts that decide: whether the public key
/// hashes to the sender's address, and whether the signature verifies.
pub fn judge_origin(key_matches_sender: bool, signature_verifies: bool) -> (r: Result<
    (),
    LedgerError,
>)
    ensures
        r is Ok <==> key_matches_sender && signature_verifies,
        r is Err ==> r == Err::<(), LedgerError>(LedgerError::InvalidSignature),
        r is Err <==> origin_verdict(key_matches_sender, signature_verifies) is Some,
{
    if key_matches_sender && signature_verifies {
        Ok(())
    } else {
        Err(LedgerError::InvalidSignature)
    }
}

impl Transaction {
    /// The bytes that are signed.
    pub fn signable_bytes(&self) -> (bytes: Vec<u8>)
        ensures
            bytes@ == self@.signable(),
    {
        let mut text = self.tx_id.clone();
        text.append(self.from.as_str());
        text.append(self.to.as_str());
        let amount = decimal_u64(self.amount);
        text.append(amount.as_str());
        let timestamp = decimal_i64(self.timestamp);
        text.append(timestamp.as_str());
        text.append(self.metadata.as_str());
        text.append(self.pubkey.as_str());
        text.as_str().as_bytes_vec()
    }

    /// The SHA-256 hash of this transaction's signable bytes.
    pub fn hash(&self) -> (digest: [u8; 32])
        ensures
            digest@ == self@.digest(),
    {
        let bytes = self.signable_bytes();
        sha256(bytes.as_slice())
    }

    /// Checks that the metadata is JSON text.
    pub fn check_metadata(&self) -> (r: Result<(), LedgerError>)
        ensures
            r is Ok <==> json_parses(self@.metadata),
            r is Err ==> r.unwrap_err().kind_of() == ErrorKind::InvalidTransaction,
            r matches Err(LedgerError::InvalidTransaction(reason)) ==> reason@
                == metadata_reason(),
    {
        if parses_as_json(self.metadata.as_str()) {
            Ok(())
        } else {
            Err(LedgerError::InvalidTransaction(String::from_str("Invalid JSON in metadata")))
        }
    }

    /// Checks that the sender stands behind this transaction. The system
    /// address passes unsigned; any other sender must carry a public key
    /// that hashes to its address and a signature that verifies.
    pub fn verify_origin(&self) -> (r: Result<(), LedgerError>)
        ensures
            r is Ok <==> self@.origin_fault() is None,
            r is Err ==> Some(r.unwrap_err().kind_of()) == self@.origin_fault(),
            r matches Err(LedgerError::InvalidTransaction(reason)) ==> reason@ == malformed_reason(
                self@,
            ),
    {
        if self.from.is_system() {
            return Ok(());
        }
        let key = match hex_decode(self.pubkey.as_str()) {
            Some(key) => key,
            None => {
                return Err(
                    LedgerError::InvalidTransaction(String::from_str("Invalid hex in pubkey")),
                );
            },
        };
        let derived = sha256_hex(key.as_slice());
        if derived != self.from.0 {
            return judge_origin(false, false);
        }
        let sig = match hex_decode(self.signature.as_str()) {
            Some(sig) => sig,
            None => {
                return Err(
                    LedgerError::InvalidTransaction(String::from_str("Invalid hex in signature")),
                );
            },
        };
        let message = self.signable_bytes();
        let public_key = PublicKey { bytes: key };
        judge_origin(true, public_key.verify(message.as_slice(), sig.as_slice()))
    }
}

} // verus!

//! Ed25519 key pairs, signing, and the addresses of public keys.

use crate::codec::{
    ed25519_accepts, ed25519_verify, fresh_bytes32, hex_encode, hex_encoded, sha256,
    sha256_digest,
};
use crate::types::Address;
use ed25519_dalek::Signer;
use vstd::prelude::*;

verus! {

/// The Ed25519 public key of a 32-byte secret seed.
pub uninterp spec fn ed25519_public_key(seed: Seq<u8>) -> Seq<u8>;

/// The Ed25519 signature of a message under a 32-byte secret seed.
pub uninterp spec fn ed25519_signature(seed: Seq<u8>, message: Seq<u8>) -> Seq<u8>;

/// Calls `ed25519_dalek::SigningKey::verifying_key`. Trusted: the 32
/// bytes returned depend on the seed alone.
#[verifier::external_body]
fn derive_public(seed: &[u8; 32]) -> (public: [u8; 32])
    ensures
        public@ == ed25519_public_key(seed@),
{
    ed25519_dalek::SigningKey::from_bytes(seed).verifying_key().to_bytes()
}

/// Calls `ed25519_dalek::SigningKey::sign`. Trusted: the 64 bytes
/// returned depend on the seed and the message alone.
#[verifier::external_body]
fn sign_with(seed: &[u8; 32], message: &[u8]) -> (signature: [u8; 64])
    ensures
        signature@ == ed25519_signature(seed@, message@),
{
    ed25519_dalek::SigningKey::from_bytes(seed).sign(message).to_bytes()
}

/// The SHA-256 digest of `data`.
pub fn sha256_of(data: &[u8]) -> (digest: [u8; 32])
    ensures
        digest@ == sha256_digest(data@),
{
    sha256(data)
}

/// The SHA-256 digest of `data` in lowercase hexadecimal.
pub fn sha256_hex(data: &[u8]) -> (text: String)
    ensures
        text@ == hex_encoded(sha256_digest(data@)),
{
    let digest = sha256(data);
    hex_encode(digest.as_slice())
}

/// The address of a public key: its SHA-256 in lowercase hexadecimal.
pub open spec fn address_of(public: Seq<u8>) -> Seq<char> {
    hex_encoded(sha256_digest(public))
}

/// An Ed25519 public key, as its bytes.
#[derive(Clone, Debug, PartialEq, Eq)]
pub struct PublicKey {
    pub bytes: Vec<u8>,
}

impl PublicKey {
    /// Whether `signature` is this key's signature of `message`. A key or
    /// a signature of the wrong shape verifies nothing.
    pub fn verify(&self, message: &[u8], signature: &[u8]) -> (ok: bool)
        ensures
            ok == ed25519_accepts(self.bytes@, message@, signature@),
    {
        ed25519_verify(self.bytes.as_slice(), message, signature)
    }

    /// The address of this key.
    pub fn address(&self) -> (addr: Address)
        ensures
            addr@ == address_of(self.bytes@),
    {
        Address(sha256_hex(self.bytes.as_slice()))
    }
}

/// An Ed25519 key pair: the secret seed and its public key.
#[derive(Clone, Debug)]
pub struct KeyPair {
    seed: [u8; 32],
    public: [u8; 32],
}

impl KeyPair {
    /// The secret seed.
    pub closed spec fn secret(&self) -> Seq<u8> {
        self.seed@
    }

    /// The public key's bytes.
    pub closed spec fn public(&self) -> Seq<u8> {
        self.public@
    }

    /// The public key is that of the seed.
    pub open spec fn wf(&self) -> bool {
        self.public() == ed25519_public_key(self.secret())
    }

    /// The key pair of a seed.
    pub fn from_seed(seed: [u8; 32]) -> (pair: KeyPair)
        ensures
            pair.wf(),
            pair.secret() == seed@,
    {
        let public = derive_public(&seed);
        KeyPair { seed, public }
    }

    /// A key pair of a seed from the operating system's random source;
    /// `None` where the source fails.
    pub fn generate() -> (pair: Option<KeyPair>)
        ensures
            pair is Some ==> pair.unwrap().wf(),
    {
        match fresh_bytes32() {
            Some(seed) => Some(KeyPair::from_seed(seed)),
            None => None,
        }
    }

    /// The public key.
    pub fn public_key(&self) -> (key: PublicKey)
        ensures
            key.bytes@ == self.public(),
    {
        let mut bytes: Vec<u8> = Vec::new();
        bytes.extend_from_slice(self.public.as_slice());
        assert(bytes@ =~= self.public@);
        PublicKey { bytes }
    }

    /// The address of the public key.
    pub fn address(&self) -> (addr: Address)
        ensures
            addr@ == address_of(self.public()),
    {
        Address(sha256_hex(self.public.as_slice()))
    }

    /// The signature of `message`, 64 bytes.
    pub fn sign(&self, message: &[u8]) -> (signature: Vec<u8>)
        ensures
            signature@ == ed25519_signature(self.secret(), message@),
    {
        let raw = sign_with(&self.seed, message);
        let mut signature: Vec<u8> = Vec::new();
        signature.extend_from_slice(raw.as_slice());
        assert(signature@ =~= raw@);
        signature
    }
}

} // verus!

//! The verifier's checks of a response, against the fragment's bytes or
//! against a commitment to them.

use crate::challenge::{Challenge, ChallengeConfig};
use crate::codec::{ed25519_accepts, hex_decode, hex_decoded};
use crate::keys::PublicKey;
use crate::merkle::hash_eq;
use crate::response::{
    response_preimage, root_over, shown, take_windows, window_from, windows_eq, windows_of,
    windows_root, ChallengeProof,
};
use vstd::prelude::*;

verus! {

/// Why a response was not accepted.
#[derive(Clone, Copy, Debug, PartialEq, Eq, Structural)]
pub enum ValidationError {
    /// The response answers another challenge.
    Mismatch,
    /// The shown windows are not the fragment's bytes at the offsets.
    DataMismatch,
    /// The Merkle root is not the root over the shown windows.
    RootMismatch,
    /// The response took longer than allowed.
    Timeout,
    /// The signature does not verify.
    BadSignature,
}

/// Whether a response's signature, a hexadecimal text, verifies under a
/// public key over the response's signable bytes.
pub open spec fn signature_holds(
    pubkey: Seq<u8>,
    challenge_id: Seq<char>,
    root: Seq<u8>,
    response_time_ms: u64,
    signature: Seq<char>,
) -> bool {
    match hex_decoded(signature) {
        Some(sig) => ed25519_accepts(
            pubkey,
            response_preimage(challenge_id, root, response_time_ms),
            sig,
        ),
        None => false,
    }
}

/// The first check that a response fails, if it fails one. In order: the
/// response names the challenge; its windows are the expected fragment's
/// at the challenge's offsets; its root is the root over those windows;
/// it came in time; its signature verifies.
pub open spec fn verdict(
    challenge_id: Seq<char>,
    offsets: Seq<usize>,
    byte_count: nat,
    answered_id: Seq<char>,
    windows: Seq<Seq<u8>>,
    root: Seq<u8>,
    response_time_ms: u64,
    expected: Seq<u8>,
    timeout_ms: u64,
    signature_verifies: bool,
) -> Option<ValidationError> {
    if challenge_id != answered_id {
        Some(ValidationError::Mismatch)
    } else if windows_of(expected, offsets, byte_count) != windows {
        Some(ValidationError::DataMismatch)
    } else if windows_root(windows) != root {
        Some(ValidationError::RootMismatch)
    } else if response_time_ms > timeout_ms {
        Some(ValidationError::Timeout)
    } else if !signature_verifies {
        Some(ValidationError::BadSignature)
    } else {
        None
    }
}

/// The first check that a response fails against a commitment, if it
/// fails one. The commitment is the Merkle root over the windows that the
/// fragment has at the challenge's offsets; the checks are those of
/// `verdict`, with the windows held against the commitment in place of
/// the fragment's bytes.
pub open spec fn verdict_committed(
    challenge_id: Seq<char>,
    answered_id: Seq<char>,
    windows: Seq<Seq<u8>>,
    root: Seq<u8>,
    response_time_ms: u64,
    commitment: Seq<u8>,
    timeout_ms: u64,
    signature_verifies: bool,
) -> Option<ValidationError> {
    if challenge_id != answered_id {
        Some(ValidationError::Mismatch)
    } else if windows_root(windows) != commitment {
        Some(ValidationError::DataMismatch)
    } else if windows_root(windows) != root {
        Some(ValidationError::RootMismatch)
    } else if response_time_ms > timeout_ms {
        Some(ValidationError::Timeout)
    } else if !signature_verifies {
        Some(ValidationError::BadSignature)
    } else {
        None
    }
}

/// A response that passes against the fragment's bytes passes against
/// the commitment made from those bytes.
pub proof fn lemma_commitment_accepts_what_bytes_accept(
    challenge_id: Seq<char>,
    offsets: Seq<usize>,
    byte_count: nat,
    answered_id: Seq<char>,
    windows: Seq<Seq<u8>>,
    root: Seq<u8>,
    response_time_ms: u64,
    expected: Seq<u8>,
    timeout_ms: u64,
    signature_verifies: bool,
)
    requires
        verdict(
            challenge_id,
            offsets,
            byte_count,
            answered_id,
            windows,
            root,
            response_time_ms,
            expected,
            timeout_ms,
            signature_verifies,
        ) is None,
    ensures
        verdict_committed(
            challenge_id,
            answered_id,
            windows,
            root,
            response_time_ms,
            windows_root(windows_of(expected, offsets, byte_count)),
            timeout_ms,
            signature_verifies,
        ) is None,
{
}

/// An honest response passes: windows taken from the expected fragment,
/// the root over them, a response in time and a signature that verifies
/// fail no check.
pub proof fn lemma_honest_response_passes(
    challenge_id: Seq<char>,
    offsets: Seq<usize>,
    byte_count: nat,
    fragment: Seq<u8>,
    response_time_ms: u64,
    timeout_ms: u64,
)
    requires
        response_time_ms <= timeout_ms,
    ensures
        verdict(
            challenge_id,
            offsets,
            byte_count,
            challenge_id,
            windows_of(fragment, offsets, byte_count),
            windows_root(windows_of(fragment, offsets, byte_count)),
            response_time_ms,
            fragment,
            timeout_ms,
            true,
        ) is None,
{
}

/// A fragment that differs from the responder's at a sampled offset is a
/// data mismatch, whatever else the response holds.
pub proof fn lemma_changed_byte_is_data_mismatch(
    challenge_id: Seq<char>,
    offsets: Seq<usize>,
    byte_count: nat,
    fragment: Seq<u8>,
    expected: Seq<u8>,
    k: int,
    root: Seq<u8>,
    response_time_ms: u64,
    timeout_ms: u64,
    signature_verifies: bool,
)
    requires
        byte_count > 0,
        0 <= k < offsets.len(),
        fragment.len() == expected.len(),
        offsets[k] < fragment.len(),
        fragment[offsets[k] as int] != expected[offsets[k] as int],
    ensures
        verdict(
            challenge_id,
            offsets,
            byte_count,
            challenge_id,
            windows_of(fragment, offsets, byte_count),
            root,
            response_time_ms,
            expected,
            timeout_ms,
            signature_verifies,
        ) == Some(ValidationError::DataMismatch),
{
    let o = offsets[k] as int;
    let n = fragment.len() as int;
    assert(o % n == o) by {
        vstd::arithmetic::div_mod::lemma_small_mod(o as nat, n as nat);
    }
    let mine = windows_of(fragment, offsets, byte_count);
    let theirs = windows_of(expected, offsets, byte_count);
    assert(mine[k] == window_from(fragment, o, byte_count));
    assert(theirs[k] == window_from(expected, o, byte_count));
    assert(mine[k][0] == fragment[o]);
    assert(theirs[k][0] == expected[o]);
}

/// A late response that is otherwise in order is a timeout, and one in
/// time whose signature does not verify is a bad signature.
pub proof fn lemma_late_or_unsigned_response(
    challenge_id: Seq<char>,
    offsets: Seq<usize>,
    byte_count: nat,
    fragment: Seq<u8>,
    response_time_ms: u64,
    timeout_ms: u64,
    signature_verifies: bool,
)
    ensures
        response_time_ms > timeout_ms ==> verdict(
            challenge_id,
            offsets,
            byte_count,
            challenge_id,
            windows_of(fragment, offsets, byte_count),
            windows_root(windows_of(fragment, offsets, byte_count)),
            response_time_ms,
            fragment,
            timeout_ms,
            signature_verifies,
        ) == Some(ValidationError::Timeout),
        response_time_ms <= timeout_ms && !signature_verifies ==> verdict(
            challenge_id,
            offsets,
            byte_count,
            challenge_id,
            windows_of(fragment, offsets, byte_count),
            windows_root(windows_of(fragment, offsets, byte_count)),
            response_time_ms,
            fragment,
            timeout_ms,
            signature_verifies,
        ) == Some(ValidationError::BadSignature),
{
}

/// Checks a response against the challenge and the fragment that the
/// verifier holds. The first check that fails is reported.
pub fn validate_challenge_response(
    challenge: &Challenge,
    response: &ChallengeProof,
    expected: &[u8],
    pubkey: &PublicKey,
    config: &ChallengeConfig,
) -> (r: Result<(), ValidationError>)
    ensures
        match verdict(
            challenge.challenge_id@,
            challenge.sample_offsets@,
            challenge.byte_count as nat,
            response.challenge_id@,
            shown(response.windows@),
            response.merkle_root@,
            response.response_time_ms,
            expected@,
            config.challenge_timeout_ms,
            signature_holds(
                pubkey.bytes@,
                response.challenge_id@,
                response.merkle_root@,
                response.response_time_ms,
                response.signature@,
            ),
        ) {
            Some(e) => r == Err::<(), ValidationError>(e),
            None => r is Ok,
        },
{
    if challenge.challenge_id != response.challenge_id {
        return Err(ValidationError::Mismatch);
    }
    let windows = take_windows(expected, &challenge.sample_offsets, challenge.byte_count);
    if !windows_eq(&windows, &response.windows) {
        return Err(ValidationError::DataMismatch);
    }
    let root = root_over(&windows);
    if !hash_eq(&root, &response.merkle_root) {
        return Err(ValidationError::RootMismatch);
    }
    if response.response_time_ms > config.challenge_timeout_ms {
        return Err(ValidationError::Timeout);
    }
    let message = response.signable_bytes();
    let verifies = match hex_decode(response.signature.as_str()) {
        Some(sig) => pubkey.verify(message.as_slice(), sig.as_slice()),
        None => false,
    };
    if !verifies {
        return Err(ValidationError::BadSignature);
    }
    Ok(())
}

/// The commitment to a fragment for a challenge: the Merkle root over the
/// windows that the fragment has at the challenge's offsets.
pub fn commit_to_windows(challenge: &Challenge, fragment: &[u8]) -> (commitment: [u8; 32])
    ensures
        commitment@ == windows_root(
            windows_of(fragment@, challenge.sample_offsets@, challenge.byte_count as nat),
        ),
{
    let windows = take_windows(fragment, &challenge.sample_offsets, challenge.byte_count);
    root_over(&windows)
}

/// Checks a response against the challenge and a commitment to the
/// fragment, for a verifier that does not hold the fragment's bytes. The
/// first check that fails is reported.
pub fn validate_against_commitment(
    challenge: &Challenge,
    response: &ChallengeProof,
    commitment: &[u8; 32],
    pubkey: &PublicKey,
    config: &ChallengeConfig,
) -> (r: Result<(), ValidationError>)
    ensures
        match verdict_committed(
            challenge.challenge_id@,
            response.challenge_id@,
            shown(response.windows@),
            response.merkle_root@,
            response.response_time_ms,
            commitment@,
            config.challenge_timeout_ms,
            signature_holds(
                pubkey.bytes@,
                response.challenge_id@,
                response.merkle_root@,
                response.response_time_ms,
                response.signature@,
            ),
        ) {
            Some(e) => r == Err::<(), ValidationError>(e),
            None => r is Ok,
        },
{
    if challenge.challenge_id != response.challenge_id {
        return Err(ValidationError::Mismatch);
    }
    let root = root_over(&response.windows);
    if !hash_eq(&root, commitment) {
        return Err(ValidationError::DataMismatch);
    }
    if !hash_eq(&root, &response.merkle_root) {
        return Err(ValidationError::RootMismatch);
    }
    if response.response_time_ms > config.challenge_timeout_ms {
        return Err(ValidationError::Timeout);
    }
    let message = response.signable_bytes();
    let verifies = match hex_decode(response.signature.as_str()) {
        Some(sig) => pubkey.verify(message.as_slice(), sig.as_slice()),
        None => false,
    };
    if !verifies {
        return Err(ValidationError::BadSignature);
    }
    Ok(())
}

} // verus!

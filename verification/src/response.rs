//! Responses to challenges: the windows of bytes at the sampled offsets,
//! the Merkle root that commits to them, and the bytes that are signed.

use crate::challenge::Challenge;
use crate::codec::{bytes_eq, le_bytes, sha256, sha256_digest, u64_le_bytes};
use crate::merkle::{hashes, root_of, MerkleTree};
use vstd::prelude::*;
use vstd::string::StrSliceExecFns;
use vstd::utf8::encode_utf8;

verus! {

/// The answer to a challenge.
#[derive(Debug, Clone)]
pub struct ChallengeProof {
    pub challenge_id: String,
    /// The window of bytes at each sampled offset, in the offsets' order.
    pub windows: Vec<Vec<u8>>,
    /// The Merkle root over the hashes of the windows.
    pub merkle_root: [u8; 32],
    /// Ed25519 signature over the signable bytes, in hexadecimal.
    pub signature: String,
    pub response_time_ms: u64,
}

/// `count` bytes of a non-empty fragment from position `pos` on, going
/// back to the start after the last byte.
pub open spec fn window_from(fragment: Seq<u8>, pos: int, count: nat) -> Seq<u8>
    decreases count,
{
    if count == 0 {
        Seq::empty()
    } else {
        seq![fragment[pos]] + window_from(
            fragment,
            if pos + 1 == fragment.len() {
                0
            } else {
                pos + 1
            },
            (count - 1) as nat,
        )
    }
}

/// The window of `count` bytes at `offset`; an empty fragment has only
/// empty windows.
pub open spec fn window(fragment: Seq<u8>, offset: int, count: nat) -> Seq<u8> {
    if fragment.len() == 0 {
        Seq::empty()
    } else {
        window_from(fragment, offset % (fragment.len() as int), count)
    }
}

/// The windows at all offsets, in the offsets' order.
pub open spec fn windows_of(fragment: Seq<u8>, offsets: Seq<usize>, count: nat) -> Seq<Seq<u8>> {
    Seq::new(offsets.len(), |k: int| window(fragment, offsets[k] as int, count))
}

/// The hash of each window.
pub open spec fn window_hashes(windows: Seq<Seq<u8>>) -> Seq<Seq<u8>> {
    Seq::new(windows.len(), |k: int| sha256_digest(windows[k]))
}

/// The Merkle root over the hashes of the windows.
pub open spec fn windows_root(windows: Seq<Seq<u8>>) -> Seq<u8> {
    root_of(window_hashes(windows))
}

/// The bytes that a response signs: the challenge identifier, the Merkle
/// root, and the response time as eight bytes, least significant first.
pub open spec fn response_preimage(challenge_id: Seq<char>, root: Seq<u8>, response_time_ms: u64) -> Seq<
    u8,
> {
    encode_utf8(challenge_id) + root + le_bytes(response_time_ms as nat, 8)
}

/// The windows of a response as byte sequences.
pub open spec fn shown(windows: Seq<Vec<u8>>) -> Seq<Seq<u8>> {
    Seq::new(windows.len(), |k: int| windows[k]@)
}

/// Takes the window of `count` bytes at `offset`, going back to the start
/// of the fragment after its last byte.
pub fn take_window(fragment: &[u8], offset: usize, count: usize) -> (bytes: Vec<u8>)
    ensures
        bytes@ == window(fragment@, offset as int, count as nat),
{
    let mut bytes: Vec<u8> = Vec::new();
    if fragment.len() == 0 {
        return bytes;
    }
    let mut pos: usize = offset % fragment.len();
    let mut i: usize = 0;
    while i < count
        invariant
            fragment@.len() > 0,
            0 <= i <= count,
            0 <= pos < fragment@.len(),
            bytes@ + window_from(fragment@, pos as int, (count - i) as nat) == window(
                fragment@,
                offset as int,
                count as nat,
            ),
        decreases count - i,
    {
        let ghost before = bytes@;
        let ghost here = pos as int;
        bytes.push(fragment[pos]);
        pos = if pos + 1 == fragment.len() {
            0
        } else {
            pos + 1
        };
        proof {
            assert(bytes@ + window_from(fragment@, pos as int, (count - i - 1) as nat) =~= before
                + window_from(fragment@, here, (count - i) as nat));
        }
        i = i + 1;
    }
    assert(bytes@ + Seq::<u8>::empty() =~= bytes@);
    bytes
}

/// Takes the windows at all offsets.
pub fn take_windows(fragment: &[u8], offsets: &Vec<usize>, count: usize) -> (windows: Vec<Vec<u8>>)
    ensures
        shown(windows@) == windows_of(fragment@, offsets@, count as nat),
{
    let mut windows: Vec<Vec<u8>> = Vec::new();
    let mut k: usize = 0;
    while k < offsets.len()
        invariant
            0 <= k <= offsets@.len(),
            windows@.len() == k,
            forall|j: int|
                0 <= j < k ==> (#[trigger] windows@[j])@ == window(
                    fragment@,
                    offsets@[j] as int,
                    count as nat,
                ),
        decreases offsets@.len() - k,
    {
        windows.push(take_window(fragment, offsets[k], count));
        k = k + 1;
    }
    assert(shown(windows@) =~= windows_of(fragment@, offsets@, count as nat));
    windows
}

/// The Merkle root over the hashes of the windows.
pub fn root_over(windows: &Vec<Vec<u8>>) -> (root: [u8; 32])
    ensures
        root@ == windows_root(shown(windows@)),
{
    let mut leaves: Vec<[u8; 32]> = Vec::new();
    let mut k: usize = 0;
    while k < windows.len()
        invariant
            0 <= k <= windows@.len(),
            leaves@.len() == k,
            forall|j: int| 0 <= j < k ==> (#[trigger] leaves@[j])@ == sha256_digest(windows@[j]@),
        decreases windows@.len() - k,
    {
        leaves.push(sha256(windows[k].as_slice()));
        k = k + 1;
    }
    assert(hashes(leaves@) =~= window_hashes(shown(windows@)));
    MerkleTree::build(leaves).root()
}

/// The bytes that a response signs.
pub fn signable_response(challenge_id: &str, root: &[u8; 32], response_time_ms: u64) -> (bytes: Vec<
    u8,
>)
    ensures
        bytes@ == response_preimage(challenge_id@, root@, response_time_ms),
{
    let mut bytes = challenge_id.as_bytes_vec();
    bytes.extend_from_slice(root.as_slice());
    let time = u64_le_bytes(response_time_ms);
    bytes.extend_from_slice(time.as_slice());
    assert(bytes@ =~= response_preimage(challenge_id@, root@, response_time_ms));
    bytes
}

/// Whether all windows are the same, in the same order.
pub fn windows_eq(a: &Vec<Vec<u8>>, b: &Vec<Vec<u8>>) -> (same: bool)
    ensures
        same == (shown(a@) == shown(b@)),
{
    if a.len() != b.len() {
        assert(shown(a@).len() != shown(b@).len());
        return false;
    }
    let mut k: usize = 0;
    while k < a.len()
        invariant
            a@.len() == b@.len(),
            0 <= k <= a@.len(),
            forall|j: int| 0 <= j < k ==> a@[j]@ == b@[j]@,
        decreases a@.len() - k,
    {
        if !bytes_eq(a[k].as_slice(), b[k].as_slice()) {
            assert(shown(a@)[k as int] != shown(b@)[k as int]);
            return false;
        }
        k = k + 1;
    }
    assert(shown(a@) =~= shown(b@));
    true
}

/// Whether `signature` is what `sign` may give for `message`.
pub open spec fn signed_by<F: Fn(&[u8]) -> String>(
    sign: F,
    message: Seq<u8>,
    signature: String,
) -> bool {
    exists|bytes: &[u8]| bytes@ == message && #[trigger] sign.ensures((bytes,), signature)
}

impl ChallengeProof {
    /// The bytes that the responder signs.
    pub fn signable_bytes(&self) -> (bytes: Vec<u8>)
        ensures
            bytes@ == response_preimage(
                self.challenge_id@,
                self.merkle_root@,
                self.response_time_ms,
            ),
    {
        signable_response(self.challenge_id.as_str(), &self.merkle_root, self.response_time_ms)
    }

    /// Answers a challenge from the fragment's bytes: takes the window at
    /// each sampled offset, commits to them with a Merkle root, and has
    /// `sign` sign the signable bytes.
    pub fn create<F: Fn(&[u8]) -> String>(
        challenge: &Challenge,
        fragment: &[u8],
        response_time_ms: u64,
        sign: F,
    ) -> (response: ChallengeProof)
        requires
            forall|message: &[u8]| #[trigger] sign.requires((message,)),
        ensures
            response.challenge_id@ == challenge.challenge_id@,
            shown(response.windows@) == windows_of(
                fragment@,
                challenge.sample_offsets@,
                challenge.byte_count as nat,
            ),
            response.merkle_root@ == windows_root(shown(response.windows@)),
            response.response_time_ms == response_time_ms,
            signed_by(
                sign,
                response_preimage(
                    challenge.challenge_id@,
                    response.merkle_root@,
                    response_time_ms,
                ),
                response.signature,
            ),
    {
        let windows = take_windows(fragment, &challenge.sample_offsets, challenge.byte_count);
        let merkle_root = root_over(&windows);
        let message = signable_response(
            challenge.challenge_id.as_str(),
            &merkle_root,
            response_time_ms,
        );
        let signed = message.as_slice();
        let signature = sign(signed);
        assert(signed@ == message@ && sign.ensures((signed,), signature));
        assert(signed_by(sign, message@, signature));
        ChallengeProof {
            challenge_id: challenge.challenge_id.clone(),
            windows,
            merkle_root,
            signature,
            response_time_ms,
        }
    }
}

} // verus!

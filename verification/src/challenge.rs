//! Proof-of-storage challenges: which bytes of a fragment a custodian must
//! show.

use crate::codec::{le_bytes, le_value_at, read_u64_le, sha256, sha256_digest, u64_le_bytes};
use vstd::prelude::*;
use vstd::string::StrSliceExecFns;
use vstd::utf8::encode_utf8;

verus! {

/// Settings of the challenge protocol.
#[derive(Clone, Copy, Debug, PartialEq, Eq, Structural)]
pub struct ChallengeConfig {
    /// How many offsets a challenge samples.
    pub challenge_sample_count: usize,
    /// How many bytes are shown from each offset.
    pub challenge_window_bytes: usize,
    /// The longest response time that is accepted, in milliseconds.
    pub challenge_timeout_ms: u64,
}

impl Default for ChallengeConfig {
    /// Sixty-four offsets, windows of thirty-two bytes, thirty seconds.
    fn default() -> (config: ChallengeConfig)
        ensures
            config.challenge_sample_count == 64,
            config.challenge_window_bytes == 32,
            config.challenge_timeout_ms == 30_000,
    {
        ChallengeConfig {
            challenge_sample_count: 64,
            challenge_window_bytes: 32,
            challenge_timeout_ms: 30_000,
        }
    }
}

/// Why a challenge could not be made.
#[derive(Clone, Copy, Debug, PartialEq, Eq, Structural)]
pub enum ChallengeError {
    /// The fragment has fewer bytes than offsets are to be sampled.
    FragmentTooSmall,
    /// No sampling was found within the 64-bit range of draws.
    InvalidConfig,
}

/// A request to show the bytes of a fragment at sampled offsets.
#[derive(Debug, Clone)]
pub struct Challenge {
    pub challenge_id: String,
    pub repo_hash: String,
    pub fragment_index: u64,
    pub total_fragments: u64,
    /// The fragment's size in bytes.
    pub size: usize,
    pub seed: [u8; 32],
    pub sample_offsets: Vec<usize>,
    /// How many bytes to show from each offset.
    pub byte_count: usize,
    /// When the challenge was issued, in Unix seconds.
    pub timestamp: u64,
}

/// The seed of a challenge: SHA-256 of the identifier, the repository
/// hash, and the fragment index and the timestamp as eight bytes each,
/// least significant first.
pub open spec fn challenge_seed(
    challenge_id: Seq<char>,
    repo_hash: Seq<char>,
    fragment_index: u64,
    timestamp: u64,
) -> Seq<u8> {
    sha256_digest(
        encode_utf8(challenge_id) + encode_utf8(repo_hash) + le_bytes(fragment_index as nat, 8)
            + le_bytes(timestamp as nat, 8),
    )
}

/// The block of draws number `counter`: SHA-256 of the seed followed by
/// the counter as eight bytes, least significant first.
pub open spec fn draw_block(seed: Seq<u8>, counter: nat) -> Seq<u8> {
    sha256_digest(seed + le_bytes(counter, 8))
}

/// Draw number `j`: each block gives four draws, its four 8-byte chunks in
/// order, each taken modulo the fragment's size.
pub open spec fn draw(seed: Seq<u8>, size: nat, j: nat) -> nat {
    le_value_at(draw_block(seed, j / 4), 8 * (j % 4) as int) % size
}

/// Whether a sequence ascends strictly, so holds nothing twice.
pub open spec fn strictly_ascending(s: Seq<usize>) -> bool {
    forall|a: int, b: int| 0 <= a < b < s.len() ==> s[a] < s[b]
}

/// An ascending sequence with `v` put in its place, unless it is there
/// already.
pub open spec fn insert_sorted(s: Seq<usize>, v: usize) -> Seq<usize>
    decreases s.len(),
{
    if s.len() == 0 {
        seq![v]
    } else if v < s[0] {
        seq![v] + s
    } else if v == s[0] {
        s
    } else {
        seq![s[0]] + insert_sorted(s.drop_first(), v)
    }
}

/// The offsets collected from the first `j` draws: each draw is put in its
/// place unless it is there already, and once `count` offsets are there no
/// further draw is taken.
pub open spec fn sampled(seed: Seq<u8>, size: nat, count: nat, j: nat) -> Seq<usize>
    decreases j,
{
    if j == 0 {
        Seq::empty()
    } else {
        let before = sampled(seed, size, count, (j - 1) as nat);
        if before.len() >= count {
            before
        } else {
            insert_sorted(before, draw(seed, size, (j - 1) as nat) as usize)
        }
    }
}

/// Putting `v` into an ascending sequence, told by the position where it
/// belongs: before `pos` everything is smaller, from `pos` on nothing is.
pub proof fn lemma_insert_at(s: Seq<usize>, v: usize, pos: int)
    requires
        strictly_ascending(s),
        0 <= pos <= s.len(),
        forall|i: int| 0 <= i < pos ==> s[i] < v,
        pos < s.len() ==> v <= s[pos],
    ensures
        insert_sorted(s, v) == if pos < s.len() && s[pos] == v {
            s
        } else {
            s.insert(pos, v)
        },
    decreases pos,
{
    if pos == 0 {
        if s.len() == 0 {
            assert(seq![v] =~= s.insert(0, v));
        } else if v < s[0] {
            assert(seq![v] + s =~= s.insert(0, v));
        }
    } else {
        let rest = s.drop_first();
        assert(strictly_ascending(rest)) by {
            assert forall|a: int, b: int| 0 <= a < b < rest.len() implies rest[a] < rest[b] by {
                assert(s[a + 1] < s[b + 1]);
            }
        }
        assert forall|i: int| 0 <= i < pos - 1 implies rest[i] < v by {
            assert(s[i + 1] < v);
        }
        lemma_insert_at(rest, v, pos - 1);
        if pos < s.len() && s[pos] == v {
            assert(seq![s[0]] + rest =~= s);
        } else {
            assert(seq![s[0]] + rest.insert(pos - 1, v) =~= s.insert(pos, v));
        }
    }
}

/// Once `count` offsets are collected, further draws change nothing.
pub proof fn lemma_sampling_settles(seed: Seq<u8>, size: nat, count: nat, n: nat, m: nat)
    requires
        n <= m,
        sampled(seed, size, count, n).len() >= count,
    ensures
        sampled(seed, size, count, m) == sampled(seed, size, count, n),
    decreases m,
{
    if n < m {
        lemma_sampling_settles(seed, size, count, n, (m - 1) as nat);
    }
}

/// The offsets of a challenge are determined by the identifier, the
/// repository hash, the fragment index, the fragment's size, the
/// timestamp and the sample count: whenever two numbers of draws both
/// complete the sampling, they give the same offsets.
pub proof fn lemma_offsets_are_determined(seed: Seq<u8>, size: nat, count: nat, n: nat, m: nat)
    requires
        sampled(seed, size, count, n).len() >= count,
        sampled(seed, size, count, m).len() >= count,
    ensures
        sampled(seed, size, count, n) == sampled(seed, size, count, m),
{
    if n <= m {
        lemma_sampling_settles(seed, size, count, n, m);
    } else {
        lemma_sampling_settles(seed, size, count, m, n);
    }
}

/// The most draws that are tried before giving up.
pub const MAX_DRAWS: u64 = 0xffff_ffff_ffff_ffff;

/// Puts `v` in its place in an ascending vector, unless it is there
/// already.
pub fn insert_offset(offsets: &mut Vec<usize>, v: usize)
    requires
        strictly_ascending(old(offsets)@),
    ensures
        final(offsets)@ == insert_sorted(old(offsets)@, v),
        strictly_ascending(final(offsets)@),
        final(offsets)@.len() <= old(offsets)@.len() + 1,
        forall|i: int|
            0 <= i < final(offsets)@.len() ==> #[trigger] final(offsets)@[i] == v || old(
                offsets,
            )@.contains(final(offsets)@[i]),
{
    let mut pos: usize = 0;
    while pos < offsets.len() && offsets[pos] < v
        invariant
            0 <= pos <= offsets@.len(),
            offsets@ == old(offsets)@,
            forall|i: int| 0 <= i < pos ==> offsets@[i] < v,
        decreases offsets@.len() - pos,
    {
        pos = pos + 1;
    }
    proof {
        lemma_insert_at(offsets@, v, pos as int);
    }
    if pos < offsets.len() && offsets[pos] == v {
        assert forall|i: int| 0 <= i < offsets@.len() implies offsets@.contains(offsets@[i]) by {}
        return ;
    }
    let ghost before = offsets@;
    offsets.insert(pos, v);
    proof {
        let after = offsets@;
        assert forall|a: int, b: int| 0 <= a < b < after.len() implies after[a] < after[b] by {
            if a < pos && b > pos {
                assert(after[a] == before[a] && after[b] == before[b - 1]);
            } else if a > pos {
                assert(after[a] == before[a - 1] && after[b] == before[b - 1]);
            } else if b < pos {
                assert(after[a] == before[a] && after[b] == before[b]);
            } else if a == pos {
                assert(after[b] == before[b - 1]);
            }
        }
        assert forall|i: int| 0 <= i < after.len() implies #[trigger] after[i] == v
            || before.contains(after[i]) by {
            if i < pos {
                assert(after[i] == before[i]);
            } else if i > pos {
                assert(after[i] == before[i - 1]);
            }
        }
    }
}

/// The seed of a challenge.
pub fn derive_seed(challenge_id: &str, repo_hash: &str, fragment_index: u64, timestamp: u64) -> (seed:
    [u8; 32])
    ensures
        seed@ == challenge_seed(challenge_id@, repo_hash@, fragment_index, timestamp),
{
    let mut bytes = challenge_id.as_bytes_vec();
    let repo = repo_hash.as_bytes_vec();
    bytes.extend_from_slice(repo.as_slice());
    let index = u64_le_bytes(fragment_index);
    bytes.extend_from_slice(index.as_slice());
    let time = u64_le_bytes(timestamp);
    bytes.extend_from_slice(time.as_slice());
    assert(bytes@ =~= encode_utf8(challenge_id@) + encode_utf8(repo_hash@) + le_bytes(
        fragment_index as nat,
        8,
    ) + le_bytes(timestamp as nat, 8));
    sha256(bytes.as_slice())
}

/// Block number `counter` of the draws from a seed.
pub fn hash_block(seed: &[u8; 32], counter: u64) -> (block: [u8; 32])
    ensures
        block@ == draw_block(seed@, counter as nat),
{
    let mut bytes: Vec<u8> = Vec::new();
    bytes.extend_from_slice(seed.as_slice());
    let tail = u64_le_bytes(counter);
    bytes.extend_from_slice(tail.as_slice());
    assert(bytes@ =~= seed@ + le_bytes(counter as nat, 8));
    sha256(bytes.as_slice())
}

/// Samples `count` distinct offsets below `size` from a seed, ascending.
/// Gives `None` where the draws run out before `count` offsets are found.
pub fn sample_offsets(seed: &[u8; 32], size: usize, count: usize) -> (r: Option<Vec<usize>>)
    requires
        count <= size,
    ensures
        r is Some <==> sampled(seed@, size as nat, count as nat, MAX_DRAWS as nat).len() >= count,
        r is Some ==> {
            let offsets = r.unwrap()@;
            &&& offsets == sampled(seed@, size as nat, count as nat, MAX_DRAWS as nat)
            &&& offsets.len() == count
            &&& strictly_ascending(offsets)
            &&& forall|i: int| 0 <= i < offsets.len() ==> offsets[i] < size
        },
{
    let mut offsets: Vec<usize> = Vec::new();
    let mut j: u64 = 0;
    let mut block: [u8; 32] = [0u8; 32];
    while offsets.len() < count && j < MAX_DRAWS
        invariant
            count <= size,
            0 <= j <= MAX_DRAWS,
            offsets@ == sampled(seed@, size as nat, count as nat, j as nat),
            offsets@.len() <= count,
            strictly_ascending(offsets@),
            forall|i: int| 0 <= i < offsets@.len() ==> offsets@[i] < size,
            j % 4 != 0 ==> block@ == draw_block(seed@, (j / 4) as nat),
        decreases MAX_DRAWS - j,
    {
        if j % 4 == 0 {
            block = hash_block(seed, j / 4);
        }
        let at: usize = (8 * (j % 4)) as usize;
        let value = read_u64_le(block.as_slice(), at);
        let picked: usize = (value % (size as u64)) as usize;
        assert(picked == draw(seed@, size as nat, j as nat));
        let ghost before = offsets@;
        insert_offset(&mut offsets, picked);
        proof {
            assert forall|i: int| 0 <= i < offsets@.len() implies offsets@[i] < size by {
                if offsets@[i] != picked {
                    assert(before.contains(offsets@[i]));
                }
            }
        }
        j = j + 1;
    }
    proof {
        if offsets@.len() >= count {
            lemma_sampling_settles(seed@, size as nat, count as nat, j as nat, MAX_DRAWS as nat);
        }
    }
    if offsets.len() < count {
        None
    } else {
        Some(offsets)
    }
}

impl Challenge {
    /// Makes the challenge with the given identifier and timestamp for a
    /// fragment of `size` bytes. The offsets depend on the arguments alone.
    pub fn derive(
        challenge_id: &str,
        repo_hash: &str,
        fragment_index: u64,
        total_fragments: u64,
        size: usize,
        timestamp: u64,
        config: &ChallengeConfig,
    ) -> (r: Result<Challenge, ChallengeError>)
        ensures
            size < config.challenge_sample_count ==> r == Err::<Challenge, ChallengeError>(
                ChallengeError::FragmentTooSmall,
            ),
            size >= config.challenge_sample_count ==> {
                let seed = challenge_seed(challenge_id@, repo_hash@, fragment_index, timestamp);
                let offsets = sampled(
                    seed,
                    size as nat,
                    config.challenge_sample_count as nat,
                    MAX_DRAWS as nat,
                );
                if offsets.len() >= config.challenge_sample_count {
                    &&& r is Ok
                    &&& r.unwrap().challenge_id@ == challenge_id@
                    &&& r.unwrap().repo_hash@ == repo_hash@
                    &&& r.unwrap().fragment_index == fragment_index
                    &&& r.unwrap().total_fragments == total_fragments
                    &&& r.unwrap().size == size
                    &&& r.unwrap().seed@ == seed
                    &&& r.unwrap().sample_offsets@ == offsets
                    &&& r.unwrap().byte_count == config.challenge_window_bytes
                    &&& r.unwrap().timestamp == timestamp
                    &&& offsets.len() == config.challenge_sample_count
                    &&& strictly_ascending(offsets)
                    &&& forall|i: int| 0 <= i < offsets.len() ==> offsets[i] < size
                } else {
                    r == Err::<Challenge, ChallengeError>(ChallengeError::InvalidConfig)
                }
            },
    {
        if size < config.challenge_sample_count {
            return Err(ChallengeError::FragmentTooSmall);
        }
        let seed = derive_seed(challenge_id, repo_hash, fragment_index, timestamp);
        match sample_offsets(&seed, size, config.challenge_sample_count) {
            Some(sample_offsets) => Ok(
                Challenge {
                    challenge_id: challenge_id.to_owned(),
                    repo_hash: repo_hash.to_owned(),
                    fragment_index,
                    total_fragments,
                    size,
                    seed,
                    sample_offsets,
                    byte_count: config.challenge_window_bytes,
                    timestamp,
                },
            ),
            None => Err(ChallengeError::InvalidConfig),
        }
    }
}

} // verus!

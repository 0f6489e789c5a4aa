use gitgold::challenge::{hash_block, insert_offset, sample_offsets};
use gitgold::response::{root_over, take_window, take_windows, windows_eq};
use gitgold::codec::{bytes_eq, read_u64_le, u64_le_bytes};
use gitgold::{
    validate_challenge_response, Challenge, ChallengeConfig, ChallengeError, ChallengeProof,
    KeyPair, PublicKey, ValidationError,
};
use sha2::{Digest, Sha256};

const FRAGMENT_SIZE: usize = 100_000;

fn key() -> KeyPair {
    KeyPair::from_seed([7u8; 32])
}

fn fragment() -> Vec<u8> {
    (0..FRAGMENT_SIZE).map(|i| (i * 31 % 251) as u8).collect()
}

fn challenge(id: &str) -> Challenge {
    Challenge::derive(id, "repo_hash", 0, 1, FRAGMENT_SIZE, 1_700_000_000, &ChallengeConfig::default())
        .unwrap()
}

fn honest(c: &Challenge, data: &[u8], ms: u64) -> ChallengeProof {
    let kp = key();
    ChallengeProof::create(c, data, ms, |msg| hex::encode(kp.sign(msg)))
}

#[test]
fn same_inputs_give_same_offsets() {
    let a = challenge("00112233445566778899aabbccddeeff");
    let b = challenge("00112233445566778899aabbccddeeff");
    assert_eq!(a.sample_offsets, b.sample_offsets);
    assert_eq!(a.seed, b.seed);
    let c = challenge("ffeeddccbbaa99887766554433221100");
    assert_ne!(a.sample_offsets, c.sample_offsets);
}

#[test]
fn offsets_are_unique_sorted_and_in_range() {
    let c = challenge("id");
    assert_eq!(c.sample_offsets.len(), 64);
    assert_eq!(c.byte_count, 32);
    assert_eq!(c.size, FRAGMENT_SIZE);
    assert_eq!(c.total_fragments, 1);
    for pair in c.sample_offsets.windows(2) {
        assert!(pair[0] < pair[1]);
    }
    assert!(c.sample_offsets.iter().all(|o| *o < FRAGMENT_SIZE));
}

#[test]
fn seed_is_sha256_of_id_repo_index_and_time() {
    let c = Challenge::derive("id", "repo", 3, 9, 10, 5, &ChallengeConfig {
        challenge_sample_count: 2,
        challenge_window_bytes: 4,
        challenge_timeout_ms: 1,
    })
    .unwrap();
    let mut pre = b"idrepo".to_vec();
    pre.extend_from_slice(&3u64.to_le_bytes());
    pre.extend_from_slice(&5u64.to_le_bytes());
    let expected: [u8; 32] = Sha256::digest(&pre).into();
    assert_eq!(c.seed, expected);
    assert_eq!(c.fragment_index, 3);
    assert_eq!(c.timestamp, 5);
    assert_eq!(c.repo_hash, "repo");
}

#[test]
fn offsets_follow_the_draws_of_the_seed() {
    let seed = [9u8; 32];
    let mut pre = seed.to_vec();
    pre.extend_from_slice(&0u64.to_le_bytes());
    let block: [u8; 32] = Sha256::digest(&pre).into();
    assert_eq!(hash_block(&seed, 0), block);
    let mut expected: Vec<usize> = Vec::new();
    for c in 0..4 {
        let mut chunk = [0u8; 8];
        chunk.copy_from_slice(&block[8 * c..8 * c + 8]);
        assert_eq!(read_u64_le(&block, 8 * c), u64::from_le_bytes(chunk));
        let v = (u64::from_le_bytes(chunk) % 1_000_003) as usize;
        if expected.len() < 3 && !expected.contains(&v) {
            expected.push(v);
        }
    }
    expected.sort();
    assert_eq!(expected.len(), 3);
    assert_eq!(sample_offsets(&seed, 1_000_003, 3), Some(expected));
}

#[test]
fn sampling_every_offset_of_a_small_fragment() {
    assert_eq!(sample_offsets(&[1u8; 32], 5, 5), Some(vec![0, 1, 2, 3, 4]));
    assert_eq!(sample_offsets(&[1u8; 32], 5, 0), Some(Vec::new()));
    assert_eq!(sample_offsets(&[1u8; 32], 1, 1), Some(vec![0]));
}

#[test]
fn fragment_smaller_than_sample_count_is_refused() {
    let r = Challenge::derive("id", "repo_hash", 0, 1, 63, 0, &ChallengeConfig::default());
    assert_eq!(r.err(), Some(ChallengeError::FragmentTooSmall));
    assert!(Challenge::derive("id", "repo_hash", 0, 1, 64, 0, &ChallengeConfig::default()).is_ok());
}

#[test]
fn insert_offset_keeps_order_and_rejects_repeats() {
    let mut v = Vec::new();
    for x in [5usize, 3, 9, 5, 0, 9, 4] {
        insert_offset(&mut v, x);
    }
    assert_eq!(v, vec![0, 3, 4, 5, 9]);
}

#[test]
fn windows_wrap_around_the_fragment() {
    let data = [1u8, 2, 3, 4, 5];
    assert_eq!(take_window(&data, 3, 4), vec![4, 5, 1, 2]);
    assert_eq!(take_window(&data, 0, 5), vec![1, 2, 3, 4, 5]);
    assert_eq!(take_window(&data, 4, 12), vec![5, 1, 2, 3, 4, 5, 1, 2, 3, 4, 5, 1]);
    assert_eq!(take_window(&data, 7, 2), vec![3, 4]);
    assert_eq!(take_window(&data, 1, 0), Vec::<u8>::new());
    assert_eq!(take_window(&[], 1, 3), Vec::<u8>::new());
    assert_eq!(take_windows(&data, &vec![0, 4], 2), vec![vec![1, 2], vec![5, 1]]);
}

#[test]
fn root_over_windows_hashes_each_window() {
    let windows = vec![vec![1u8, 2], vec![3u8]];
    let l0: [u8; 32] = Sha256::digest([1u8, 2]).into();
    let l1: [u8; 32] = Sha256::digest([3u8]).into();
    let mut joined = l0.to_vec();
    joined.extend_from_slice(&l1);
    let expected: [u8; 32] = Sha256::digest(&joined).into();
    assert_eq!(root_over(&windows), expected);
    assert_eq!(root_over(&Vec::new()), [0u8; 32]);
}

#[test]
fn little_endian_bytes() {
    assert_eq!(u64_le_bytes(0x0102030405060708), vec![8, 7, 6, 5, 4, 3, 2, 1]);
    assert_eq!(u64_le_bytes(100), 100u64.to_le_bytes().to_vec());
    assert_eq!(u64_le_bytes(u64::MAX), vec![255; 8]);
}

#[test]
fn byte_and_window_comparison() {
    assert!(bytes_eq(&[1, 2], &[1, 2]));
    assert!(!bytes_eq(&[1, 2], &[1, 3]));
    assert!(!bytes_eq(&[1, 2], &[1, 2, 3]));
    assert!(windows_eq(&vec![vec![1], vec![2, 3]], &vec![vec![1], vec![2, 3]]));
    assert!(!windows_eq(&vec![vec![1], vec![2, 3]], &vec![vec![1], vec![2, 4]]));
    assert!(!windows_eq(&vec![vec![1]], &vec![vec![1], vec![]]));
}

#[test]
fn response_signs_id_root_and_time() {
    let c = challenge("abc");
    let p = honest(&c, &fragment(), 100);
    let mut expected = b"abc".to_vec();
    expected.extend_from_slice(&p.merkle_root);
    expected.extend_from_slice(&100u64.to_le_bytes());
    assert_eq!(p.signable_bytes(), expected);
    assert_eq!(p.challenge_id, "abc");
    assert_eq!(p.response_time_ms, 100);
    assert_eq!(p.windows.len(), 64);
    assert_eq!(p.windows, take_windows(&fragment(), &c.sample_offsets, 32));
    assert_eq!(p.merkle_root, root_over(&p.windows));
    assert_eq!(p.signature, hex::encode(key().sign(&expected)));
}

#[test]
fn honest_response_validates() {
    let c = challenge("abc");
    let data = fragment();
    let p = honest(&c, &data, 100);
    let pk = key().public_key();
    assert_eq!(validate_challenge_response(&c, &p, &data, &pk, &ChallengeConfig::default()), Ok(()));
}

#[test]
fn response_to_another_challenge_is_a_mismatch() {
    let c = challenge("abc");
    let data = fragment();
    let mut p = honest(&c, &data, 100);
    p.challenge_id = "abd".to_string();
    let pk = key().public_key();
    assert_eq!(
        validate_challenge_response(&c, &p, &data, &pk, &ChallengeConfig::default()),
        Err(ValidationError::Mismatch)
    );
}

#[test]
fn flipped_byte_at_a_sampled_offset_is_a_data_mismatch() {
    let c = challenge("abc");
    let data = fragment();
    let p = honest(&c, &data, 100);
    let pk = key().public_key();
    for &o in &c.sample_offsets {
        let mut held = data.clone();
        held[o] ^= 0x01;
        assert_eq!(
            validate_challenge_response(&c, &p, &held, &pk, &ChallengeConfig::default()),
            Err(ValidationError::DataMismatch)
        );
    }
}

#[test]
fn wrong_root_is_a_root_mismatch() {
    let c = challenge("abc");
    let data = fragment();
    let mut p = honest(&c, &data, 100);
    p.merkle_root[0] ^= 1;
    let pk = key().public_key();
    assert_eq!(
        validate_challenge_response(&c, &p, &data, &pk, &ChallengeConfig::default()),
        Err(ValidationError::RootMismatch)
    );
}

#[test]
fn late_response_is_a_timeout() {
    let c = challenge("abc");
    let data = fragment();
    let pk = key().public_key();
    let cfg = ChallengeConfig::default();
    let late = honest(&c, &data, cfg.challenge_timeout_ms + 1);
    assert_eq!(validate_challenge_response(&c, &late, &data, &pk, &cfg), Err(ValidationError::Timeout));
    let just = honest(&c, &data, cfg.challenge_timeout_ms);
    assert_eq!(validate_challenge_response(&c, &just, &data, &pk, &cfg), Ok(()));
}

#[test]
fn corrupted_signature_is_a_bad_signature() {
    let c = challenge("abc");
    let data = fragment();
    let pk = key().public_key();
    let cfg = ChallengeConfig::default();
    let mut p = honest(&c, &data, 100);
    let flipped = if p.signature.starts_with('0') { "1" } else { "0" };
    p.signature.replace_range(0..1, flipped);
    assert_eq!(validate_challenge_response(&c, &p, &data, &pk, &cfg), Err(ValidationError::BadSignature));
    let mut q = honest(&c, &data, 100);
    q.signature = "not hex".to_string();
    assert_eq!(validate_challenge_response(&c, &q, &data, &pk, &cfg), Err(ValidationError::BadSignature));
    let r = honest(&c, &data, 100);
    let other = KeyPair::from_seed([8u8; 32]).public_key();
    assert_eq!(validate_challenge_response(&c, &r, &data, &other, &cfg), Err(ValidationError::BadSignature));
    assert_eq!(validate_challenge_response(&c, &r, &data, &PublicKey { bytes: vec![1, 2, 3] }, &cfg), Err(ValidationError::BadSignature));
}

#[test]
fn commitment_validator_follows_the_byte_validator() {
    let c = challenge("abc");
    let data = fragment();
    let pk = key().public_key();
    let cfg = ChallengeConfig::default();
    let commitment = gitgold::validator::commit_to_windows(&c, &data);
    let p = honest(&c, &data, 100);
    assert_eq!(commitment, p.merkle_root);
    assert_eq!(gitgold::validate_against_commitment(&c, &p, &commitment, &pk, &cfg), Ok(()));

    let mut other = p.clone();
    other.challenge_id = "x".to_string();
    assert_eq!(
        gitgold::validate_against_commitment(&c, &other, &commitment, &pk, &cfg),
        Err(ValidationError::Mismatch)
    );

    let mut held = data.clone();
    held[c.sample_offsets[5]] ^= 0x40;
    let forged = honest(&c, &held, 100);
    assert_eq!(
        gitgold::validate_against_commitment(&c, &forged, &commitment, &pk, &cfg),
        Err(ValidationError::DataMismatch)
    );

    let mut bad_root = p.clone();
    bad_root.merkle_root[3] ^= 1;
    assert_eq!(
        gitgold::validate_against_commitment(&c, &bad_root, &commitment, &pk, &cfg),
        Err(ValidationError::RootMismatch)
    );

    let late = honest(&c, &data, cfg.challenge_timeout_ms + 1);
    assert_eq!(
        gitgold::validate_against_commitment(&c, &late, &commitment, &pk, &cfg),
        Err(ValidationError::Timeout)
    );

    let mut unsigned = p.clone();
    unsigned.signature = String::new();
    assert_eq!(
        gitgold::validate_against_commitment(&c, &unsigned, &commitment, &pk, &cfg),
        Err(ValidationError::BadSignature)
    );
}

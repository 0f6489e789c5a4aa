use gitgold::shamir::{
    evaluate, interpolate_at_zero, read_block, reconstruct, split, split_with, ShamirError, Share,
};
use gitgold::FieldElement;

fn fe(n: u64) -> FieldElement {
    FieldElement::from_u64(n)
}

#[test]
fn split_and_reconstruct_three_of_five() {
    let secret = vec![0x42u8; 100];
    let shares = split(&secret, 3, 5).unwrap();
    assert_eq!(shares.len(), 5);
    for (i, share) in shares.iter().enumerate() {
        assert_eq!(share.x as usize, i + 1);
        assert_eq!(share.secret_len, 100);
        assert_eq!(share.blocks.len(), 4);
    }
    assert_eq!(reconstruct(&shares[0..3].to_vec(), 3), Ok(secret.clone()));
    assert_eq!(reconstruct(&shares[2..5].to_vec(), 3), Ok(secret.clone()));
    let mixed = vec![shares[4].clone(), shares[0].clone(), shares[2].clone()];
    assert_eq!(reconstruct(&mixed, 3), Ok(secret));
}

#[test]
fn fewer_than_k_shares_give_another_value() {
    let secret: Vec<u8> = (0..40u8).collect();
    let shares = split(&secret, 3, 4).unwrap();
    let two = shares[0..2].to_vec();
    assert_eq!(reconstruct(&two, 3), Err(ShamirError::InsufficientShares));
    assert_ne!(reconstruct(&two, 2), Ok(secret.clone()));
    assert_eq!(reconstruct(&shares, 4), Ok(secret));
}

#[test]
fn lengths_around_the_block_size_round_trip() {
    for len in [1usize, 30, 31, 32, 61, 62, 63] {
        let secret: Vec<u8> = (0..len).map(|i| (255 - i) as u8).collect();
        let shares = split(&secret, 2, 3).unwrap();
        assert_eq!(shares[0].blocks.len(), (len + 30) / 31);
        assert_eq!(reconstruct(&shares[1..3].to_vec(), 2), Ok(secret));
    }
}

#[test]
fn empty_secret_has_no_blocks() {
    let shares = split(&[], 1, 2).unwrap();
    assert_eq!(shares.len(), 2);
    assert_eq!(shares[0], Share { x: 1, secret_len: 0, blocks: Vec::new() });
    assert_eq!(reconstruct(&shares, 1), Ok(Vec::new()));
}

#[test]
fn threshold_of_one_copies_the_blocks() {
    let secret = vec![1u8, 2, 3];
    let shares = split(&secret, 1, 3).unwrap();
    let mut block = [0u8; 32];
    block[1] = 1;
    block[2] = 2;
    block[3] = 3;
    for (i, share) in shares.iter().enumerate() {
        assert_eq!(share, &Share { x: (i + 1) as u8, secret_len: 3, blocks: vec![block] });
    }
    assert_eq!(reconstruct(&shares[2..3].to_vec(), 1), Ok(secret));
}

#[test]
fn invalid_thresholds_are_refused() {
    assert_eq!(split(&[1, 2, 3], 0, 5), Err(ShamirError::InvalidThreshold));
    assert_eq!(split(&[1, 2, 3], 6, 5), Err(ShamirError::InvalidThreshold));
    assert_eq!(split(&[1, 2, 3], 2, 256), Err(ShamirError::InvalidThreshold));
    assert_eq!(split_with(&[1, 2, 3], 3, 2, &Vec::new()), Err(ShamirError::InvalidThreshold));
    assert!(split(&[1, 2, 3], 255, 255).is_ok());
}

#[test]
fn split_with_evaluates_the_given_polynomial() {
    // One block with value 5 and polynomial 5 + 3x + 2x^2.
    let secret = vec![5u8];
    let shares = split_with(&secret, 3, 4, &vec![vec![fe(3), fe(2)]]).unwrap();
    let block0 = read_block(&secret, 0);
    let mut expected_block = [0u8; 32];
    expected_block[1] = 5;
    assert_eq!(block0, FieldElement::from_bytes_be(&expected_block));
    for share in &shares {
        let x = share.x as u64;
        let y = FieldElement::from_bytes_be(&share.blocks[0]);
        let constant = expected_block.iter().fold(fe(0), |acc, b| acc.mul(&fe(256)).add(&fe(*b as u64)));
        assert_eq!(y, constant.add(&fe(3 * x + 2 * x * x)));
        assert_eq!(y, evaluate(&block0, &vec![fe(3), fe(2)], &fe(x)));
    }
    assert_eq!(reconstruct(&shares[1..4].to_vec(), 3), Ok(secret));
}

#[test]
fn interpolation_recovers_the_constant_term() {
    // 7 + 4x + x^2 at x = 1, 2, 3.
    let xs = vec![fe(1), fe(2), fe(3)];
    let ys = vec![fe(12), fe(19), fe(28)];
    assert_eq!(interpolate_at_zero(&xs, &ys), fe(7));
    assert_eq!(evaluate(&fe(7), &vec![fe(4), fe(1)], &fe(3)), fe(28));
    assert_eq!(evaluate(&fe(7), &Vec::new(), &fe(3)), fe(7));
}

#[test]
fn duplicate_points_are_refused() {
    let shares = split(&[9u8; 10], 2, 3).unwrap();
    let twice = vec![shares[0].clone(), shares[0].clone()];
    assert_eq!(reconstruct(&twice, 2), Err(ShamirError::DuplicateX));
    let later = vec![shares[0].clone(), shares[1].clone(), shares[1].clone()];
    assert_eq!(reconstruct(&later, 3), Err(ShamirError::DuplicateX));
    assert_eq!(reconstruct(&later, 2), Ok(vec![9u8; 10]));
}

#[test]
fn shares_that_do_not_belong_together_are_corrupt() {
    let shares = split(&[9u8; 40], 2, 3).unwrap();
    let mut wrong_len = shares.clone();
    wrong_len[1].secret_len = 41;
    assert_eq!(reconstruct(&wrong_len, 2), Err(ShamirError::Corrupt));
    let mut wrong_blocks = shares.clone();
    wrong_blocks[1].blocks.pop();
    assert_eq!(reconstruct(&wrong_blocks, 2), Err(ShamirError::Corrupt));
    let mut zero_point = shares.clone();
    zero_point[0].x = 0;
    assert_eq!(reconstruct(&zero_point, 2), Err(ShamirError::Corrupt));
    let mut too_long = shares.clone();
    for s in too_long.iter_mut() {
        s.secret_len = 63;
    }
    assert_eq!(reconstruct(&too_long, 2), Err(ShamirError::Corrupt));
    assert_eq!(reconstruct(&Vec::new(), 0), Err(ShamirError::InsufficientShares));
    assert_eq!(reconstruct(&shares, 0), Err(ShamirError::InsufficientShares));
}

#[test]
fn two_splits_of_one_secret_differ() {
    let a = split(&[7u8; 31], 2, 2).unwrap();
    let b = split(&[7u8; 31], 2, 2).unwrap();
    assert_ne!(a, b);
}

#[test]
fn share_wire_form() {
    let mut block = [0u8; 32];
    block[31] = 9;
    let share = Share { x: 3, secret_len: 0x0102, blocks: vec![block, [0xAB; 32]] };
    let bytes = share.to_bytes();
    let mut expected = vec![3u8, 2, 0, 0, 0, 0, 0, 0, 0, 2, 1, 0, 0, 0, 0, 0, 0];
    expected.extend_from_slice(&block);
    expected.extend_from_slice(&[0xAB; 32]);
    assert_eq!(bytes, expected);
    assert_eq!(Share::from_bytes(&bytes), Ok(share));
}

#[test]
fn malformed_wire_forms_are_corrupt() {
    assert_eq!(Share::from_bytes(&[]), Err(ShamirError::Corrupt));
    assert_eq!(Share::from_bytes(&[1u8; 16]), Err(ShamirError::Corrupt));
    let share = Share { x: 1, secret_len: 5, blocks: vec![[7u8; 32]] };
    let mut bytes = share.to_bytes();
    bytes.push(0);
    assert_eq!(Share::from_bytes(&bytes), Err(ShamirError::Corrupt));
    bytes.truncate(48);
    assert_eq!(Share::from_bytes(&bytes), Err(ShamirError::Corrupt));
    let mut wrong_count = share.to_bytes();
    wrong_count[1] = 2;
    assert_eq!(Share::from_bytes(&wrong_count), Err(ShamirError::Corrupt));
    let empty = Share { x: 9, secret_len: 0, blocks: Vec::new() };
    assert_eq!(empty.to_bytes().len(), 17);
    assert_eq!(Share::from_bytes(&empty.to_bytes()), Ok(empty));
}

#[test]
fn shares_survive_the_wire() {
    let secret = b"a secret of more than thirty-one bytes, in two blocks".to_vec();
    let shares = split(&secret, 2, 3).unwrap();
    let back: Vec<Share> = shares.iter().map(|s| Share::from_bytes(&s.to_bytes()).unwrap()).collect();
    assert_eq!(back, shares);
    assert_eq!(reconstruct(&back[1..3].to_vec(), 2), Ok(secret));
}

#[test]
fn drawing_no_coefficients_always_succeeds() {
    assert_eq!(gitgold::shamir::draw_coefficients(0), Some(Vec::new()));
    let three = gitgold::shamir::draw_coefficients(3).unwrap();
    assert_eq!(three.len(), 3);
    assert_ne!(three[0], three[1]);
}

#[test]
fn only_a_bad_threshold_is_an_invalid_threshold() {
    for (k, n) in [(1usize, 1usize), (1, 255), (2, 2), (255, 255), (3, 200)] {
        assert_ne!(split(&[1, 2, 3], k, n).err(), Some(ShamirError::InvalidThreshold));
    }
    for (k, n) in [(0usize, 0usize), (0, 1), (2, 1), (1, 256), (256, 256)] {
        assert_eq!(split(&[1, 2, 3], k, n), Err(ShamirError::InvalidThreshold));
    }
    assert!(split(&[1, 2, 3], 1, 4).is_ok());
    assert!(split(&[], 7, 9).is_ok());
}

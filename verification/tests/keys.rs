use gitgold::keys::{sha256_hex, sha256_of};
use gitgold::{Address, KeyPair, PublicKey};

fn seed() -> [u8; 32] {
    let bytes = hex::decode("9d61b19deffd5a60ba844af492ec2cc44449c5697b326919703bac031cae7f60").unwrap();
    let mut seed = [0u8; 32];
    seed.copy_from_slice(&bytes);
    seed
}

#[test]
fn sha256_known_answer() {
    assert_eq!(sha256_hex(b"abc"), "ba7816bf8f01cfea414140de5dae2223b00361a396177a9cb410ff61f20015ad");
    assert_eq!(hex::encode(sha256_of(b"abc")), sha256_hex(b"abc"));
    assert_eq!(
        sha256_hex(b""),
        "e3b0c44298fc1c149afbf4c8996fb92427ae41e4649b934ca495991b7852b855"
    );
}

#[test]
fn public_key_and_signature_of_a_known_seed() {
    let kp = KeyPair::from_seed(seed());
    assert_eq!(
        hex::encode(kp.public_key().bytes),
        "d75a980182b10ab7d54bfed3c964073a0ee172f3daa62325af021a68f707511a"
    );
    assert_eq!(
        hex::encode(kp.sign(b"")),
        "e5564300c360ac729086e2cc806e828a84877f1eb8e5d974d873e065224901555fb8821590a33bacc61e39701cf9b46bd25bf5f0595bbe24655141438e7a100b"
    );
}

#[test]
fn signatures_verify_under_the_public_key_only() {
    let kp = KeyPair::from_seed(seed());
    let pk = kp.public_key();
    let sig = kp.sign(b"message");
    assert_eq!(sig.len(), 64);
    assert!(pk.verify(b"message", &sig));
    assert!(!pk.verify(b"messagf", &sig));
    let mut bad = sig.clone();
    bad[10] ^= 1;
    assert!(!pk.verify(b"message", &bad));
    assert!(!pk.verify(b"message", &sig[..63]));
    let other = KeyPair::from_seed([3u8; 32]).public_key();
    assert!(!other.verify(b"message", &sig));
    assert!(!PublicKey { bytes: vec![1, 2, 3] }.verify(b"message", &sig));
}

#[test]
fn address_is_the_hex_sha256_of_the_public_key() {
    let kp = KeyPair::from_seed(seed());
    let expected = sha256_hex(&kp.public_key().bytes);
    assert_eq!(kp.address(), Address::new(&expected));
    assert_eq!(kp.public_key().address(), kp.address());
    assert_eq!(kp.address().0.len(), 64);
}

#[test]
fn generated_pairs_differ() {
    let a = KeyPair::generate().unwrap();
    let b = KeyPair::generate().unwrap();
    assert_ne!(a.public_key(), b.public_key());
    assert!(a.public_key().verify(b"m", &a.sign(b"m")));
}

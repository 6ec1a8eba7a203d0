use schnorr_core::{BjjScalar, KeyPair};

#[test]
fn generate_keypair() {
    let kp = KeyPair::generate();
    assert!(!kp.pk.point.is_zero(), "public key must not be identity");
}

#[test]
fn deterministic_from_private_key() {
    let sk = BjjScalar::from_u64(12345);
    let kp1 = KeyPair::from_private_key(sk.clone());
    let kp2 = KeyPair::from_private_key(sk);
    assert_eq!(kp1.pk.point, kp2.pk.point);
}

#[test]
fn different_keys_different_pubkeys() {
    let kp1 = KeyPair::generate();
    let kp2 = KeyPair::generate();
    // Overwhelmingly likely to differ
    assert_ne!(kp1.pk.point, kp2.pk.point);
}

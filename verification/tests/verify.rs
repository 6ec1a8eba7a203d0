use schnorr_core::{verify, KeyPair, Signature, VerifyResult};

#[test]
fn valid_signature_verifies() {
    let kp = KeyPair::generate();
    let msg = b"hello world";
    let sig = Signature::sign(&kp, msg);
    assert_eq!(verify(&sig, msg, &kp.pk), VerifyResult::Valid);
}

#[test]
fn wrong_message_fails() {
    let kp = KeyPair::generate();
    let sig = Signature::sign(&kp, b"hello");
    assert_eq!(verify(&sig, b"world", &kp.pk), VerifyResult::Invalid);
}

#[test]
fn wrong_key_fails() {
    let kp1 = KeyPair::generate();
    let kp2 = KeyPair::generate();
    let sig = Signature::sign(&kp1, b"msg");
    assert_eq!(verify(&sig, b"msg", &kp2.pk), VerifyResult::Invalid);
}

#[test]
fn empty_message() {
    let kp = KeyPair::generate();
    let sig = Signature::sign(&kp, b"");
    assert_eq!(verify(&sig, b"", &kp.pk), VerifyResult::Valid);
}

#[test]
fn long_message() {
    let kp = KeyPair::generate();
    let msg = vec![0xABu8; 10_000];
    let sig = Signature::sign(&kp, &msg);
    assert_eq!(verify(&sig, &msg, &kp.pk), VerifyResult::Valid);
}

#[test]
fn tampered_message_fails() {
    let kp = KeyPair::generate();
    let msg = b"a stable message".to_vec();
    let sig = Signature::sign(&kp, &msg);
    assert_eq!(verify(&sig, &msg, &kp.pk), VerifyResult::Valid);
    // Flip one bit at a time, in the first, a middle and the last byte.
    for (byte, bit) in [(0usize, 0u8), (7, 3), (15, 7)] {
        let mut tampered = msg.clone();
        tampered[byte] ^= 1 << bit;
        assert_eq!(verify(&sig, &tampered, &kp.pk), VerifyResult::Invalid);
    }
}

#[test]
fn tampered_s_fails() {
    let kp = KeyPair::generate();
    let msg = b"tamper s";
    let sig = Signature::sign(&kp, msg);
    let mut bad = sig;
    bad.s.l0 ^= 1;
    assert_eq!(verify(&bad, msg, &kp.pk), VerifyResult::Invalid);
    let mut bad_high = sig;
    bad_high.s.l1 ^= 1 << 40;
    assert_eq!(verify(&bad_high, msg, &kp.pk), VerifyResult::Invalid);
}

#[test]
fn tampered_e_fails() {
    let kp = KeyPair::generate();
    let msg = b"tamper e";
    let sig = Signature::sign(&kp, msg);
    let mut bad = sig;
    bad.e.l0 ^= 1;
    assert_eq!(verify(&bad, msg, &kp.pk), VerifyResult::Invalid);
    let mut bad_high = sig;
    bad_high.e.l2 ^= 1 << 17;
    assert_eq!(verify(&bad_high, msg, &kp.pk), VerifyResult::Invalid);
}

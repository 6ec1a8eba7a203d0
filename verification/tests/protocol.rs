use schnorr_core::{
    bn254_to_dec_string, verify, BjjPoint, BjjScalar, KeyPair, Signature, VerifyResult,
};

#[test]
fn full_sign_verify_roundtrip() {
    let kp = KeyPair::generate();
    let messages = [
        b"hello world".to_vec(),
        b"".to_vec(),
        b"schnorr over babyjubjub".to_vec(),
        vec![0xFF; 256],
    ];

    for msg in &messages {
        let sig = Signature::sign(&kp, msg);
        assert_eq!(
            verify(&sig, msg, &kp.pk),
            VerifyResult::Valid,
            "signature should verify for message {:?}",
            &msg[..msg.len().min(20)]
        );
    }
}

#[test]
fn multiple_keypairs_independent() {
    let kp1 = KeyPair::generate();
    let kp2 = KeyPair::generate();
    let msg = b"shared message";

    let sig1 = Signature::sign(&kp1, msg);
    let sig2 = Signature::sign(&kp2, msg);

    // Each sig verifies with its own key
    assert_eq!(verify(&sig1, msg, &kp1.pk), VerifyResult::Valid);
    assert_eq!(verify(&sig2, msg, &kp2.pk), VerifyResult::Valid);

    // Cross-verification fails
    assert_eq!(verify(&sig1, msg, &kp2.pk), VerifyResult::Invalid);
    assert_eq!(verify(&sig2, msg, &kp1.pk), VerifyResult::Invalid);
}

#[test]
fn deterministic_signing() {
    let kp = KeyPair::generate();
    let msg = b"deterministic test";

    let sig1 = Signature::sign(&kp, msg);
    let sig2 = Signature::sign(&kp, msg);

    assert_eq!(sig1.s, sig2.s, "same key+msg must give same s");
    assert_eq!(sig1.e, sig2.e, "same key+msg must give same e");
    assert_eq!(sig1.r, sig2.r, "same key+msg must give same R");
}

#[test]
fn generator_compatibility_check() {
    // The generator's coordinates must match circomlib's Base8
    let g = BjjPoint::generator();
    let (x, y) = g.coords();

    let expected_x = bn254_to_dec_string(&x);
    let expected_y = bn254_to_dec_string(&y);

    assert_eq!(
        expected_x,
        "5299619240641551281634865583518297030282874472190772894086521144482721001553"
    );
    assert_eq!(
        expected_y,
        "16950150798460657717958625567821834550301663161624707787222815936182638968203"
    );
}

#[test]
fn sign_deterministic() {
    let kp = KeyPair::generate();
    let msg = b"hello";
    let sig1 = Signature::sign(&kp, msg);
    let sig2 = Signature::sign(&kp, msg);
    // Same key + same message → same signature
    assert_eq!(sig1.s, sig2.s);
    assert_eq!(sig1.e, sig2.e);
}

#[test]
fn different_messages_different_sigs() {
    let kp = KeyPair::generate();
    let sig1 = Signature::sign(&kp, b"hello");
    let sig2 = Signature::sign(&kp, b"world");
    assert_ne!(sig1.e, sig2.e);
}

#[test]
fn commitment_point_is_on_curve() {
    let kp = KeyPair::generate();
    let sig = Signature::sign(&kp, b"test");
    // If R weren't on the curve, coords() would still work but
    // verification would fail — at least check it's not the identity.
    assert!(!sig.r.is_zero());
}

#[test]
fn explicit_nonce_matches_derived() {
    let kp = KeyPair::from_private_key(BjjScalar::from_u64(777));
    let msg = b"nonce check";
    let k = schnorr_core::deterministic_nonce(&kp.sk, msg);
    let sig1 = Signature::sign_with_nonce(&kp, msg, &k);
    let sig2 = Signature::sign(&kp, msg);
    assert_eq!(sig1, sig2);
    assert_eq!(verify(&sig1, msg, &kp.pk), VerifyResult::Valid);
}

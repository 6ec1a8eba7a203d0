use schnorr_core::{bn254_to_dec_string, hash_message_to_field, schnorr_challenge, Fp};

#[test]
fn poseidon_deterministic() {
    let a = Fp::from_u64(1);
    let b = Fp::from_u64(2);
    let c = Fp::from_u64(3);
    let d = Fp::from_u64(4);

    let h1 = schnorr_challenge(&a, &b, &c, &d);
    let h2 = schnorr_challenge(&a, &b, &c, &d);
    assert_eq!(h1, h2, "Poseidon must be deterministic");
}

#[test]
fn poseidon_different_inputs_differ() {
    let a = Fp::from_u64(1);
    let b = Fp::from_u64(2);
    let c = Fp::from_u64(3);

    let h1 = schnorr_challenge(&a, &b, &c, &a);
    let h2 = schnorr_challenge(&a, &b, &c, &b);
    assert_ne!(h1, h2, "different inputs should produce different hashes");
}

#[test]
fn message_hash_deterministic() {
    let h1 = hash_message_to_field(b"hello world");
    let h2 = hash_message_to_field(b"hello world");
    assert_eq!(h1, h2);
}

#[test]
fn message_hash_different_messages_differ() {
    let h1 = hash_message_to_field(b"hello");
    let h2 = hash_message_to_field(b"world");
    assert_ne!(h1, h2);
}

#[test]
fn message_hash_nonzero() {
    let h = hash_message_to_field(b"test message");
    assert_ne!(h, Fp::from_u64(0));
}

#[test]
fn message_hash_known_values() {
    // SHA-256 digests read little-endian and reduced modulo p, checked
    // against an independent computation of the same pipeline.
    let h = hash_message_to_field(b"hello world");
    assert_eq!(
        bn254_to_dec_string(&h),
        "18199781509363909637084396753373273250781629230109138448540925057796686695861"
    );
    let h2 = hash_message_to_field(b"abc");
    assert_eq!(
        bn254_to_dec_string(&h2),
        "12622504512374919095325039516376152629646187901690505995537761513354009409719"
    );
}

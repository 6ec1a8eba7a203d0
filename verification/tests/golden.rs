use schnorr_core::{verify, BjjScalar, KeyPair, Signature, VerifyResult};

#[test]
fn golden_vector() {
    // Fixed secret key and message: the resulting public key and signature
    // are pinned as the canonical interoperability check.
    let kp = KeyPair::from_private_key(BjjScalar::from_u64(12345));
    let msg = b"deterministic test";
    let sig = Signature::sign(&kp, msg);
    assert_eq!(verify(&sig, msg, &kp.pk), VerifyResult::Valid);
    let (pk_x, pk_y) = kp.pk.coords();
    assert_eq!(
        schnorr_core::bn254_to_dec_string(&pk_x),
        "19099552327547260981542886231210125691902505931204088720746463491300185142606"
    );
    assert_eq!(
        schnorr_core::bn254_to_dec_string(&pk_y),
        "13276557205153692030187527501273228448057533426731746626187331221465573305487"
    );
    assert_eq!(
        sig.s.to_dec_string(),
        "1613918546514130082605445691456614387558623894475225474945337880474789378549"
    );
    assert_eq!(
        schnorr_core::bn254_to_dec_string(&sig.e),
        "4390672480118520871971366409691643204855267744079120131732850897236941918765"
    );
}

#[test]
fn scalar_encodings_exact() {
    let s = BjjScalar::from_u64(258);
    let bytes = s.to_bytes_le();
    assert_eq!(bytes.len(), 32);
    assert_eq!(bytes[0], 2);
    assert_eq!(bytes[1], 1);
    for i in 2..32 {
        assert_eq!(bytes[i], 0);
    }

    let five = BjjScalar::from_u64(5);
    let bits = five.to_bits_le();
    assert_eq!(bits.len(), 253);
    assert!(bits[0]);
    assert!(!bits[1]);
    assert!(bits[2]);
    for i in 3..253 {
        assert!(!bits[i]);
    }

    assert_eq!(BjjScalar::zero().to_dec_string(), "0");
    assert_eq!(BjjScalar::from_u64(12345).to_dec_string(), "12345");
}

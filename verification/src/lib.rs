//! Schnorr signatures over the BabyJubJub twisted Edwards curve, bit-exactly
//! compatible with the circomlib gadget family: the same field moduli, point
//! encoding, Base8 generator, bit-length truncations and Poseidon challenge
//! parameterization, so a signature made here checks inside the circuit
//! verifier without re-encoding.

mod encode;
mod field;
mod scalar;
mod curve;
mod hash;
mod keypair;
mod sign;
mod verify;

pub use curve::{
    bn254_to_bjj_scalar, bn254_to_dec_string, ed_add, field_from_dec_str, gen_pt, id_pt,
    lemma_ed_add_identity_left, lemma_ed_add_identity_right, lemma_generator_on_curve, lemma_identity_on_curve,
    lemma_mul_loop_zeros, lemma_scalar_mul_one, lemma_scalar_mul_two, lemma_scalar_mul_zero,
    mul_loop, on_curve, pt_wf, spec_scalar_mul, BjjPoint, A_COEFF, D_COEFF,
};
pub use encode::{
    bits_of, dec_str, dec_val, is_dec_digit, le_bytes, le_nat, lemma_dec_round_trip,
    lemma_dec_str_digits, limbs_val,
};
pub use field::{addm, fq_inv, fq_modulus, mulm, subm, Fp};
pub use hash::{hash_message_to_field, poseidon4, schnorr_challenge, sha256_spec, sha512_spec, spec_msg_hash};
pub use keypair::{spec_pk, KeyPair, PublicKey};
pub use scalar::{muln, order_n, scalar_from_dec_str, subn, BjjScalar};
pub use sign::{
    deterministic_nonce, lemma_sign_deterministic, spec_nonce, spec_sig, spec_sign, Signature,
};
pub use verify::{spec_verify, verify, VerifyResult};

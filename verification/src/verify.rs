//! Schnorr signature verification over BabyJubJub.
//!
//! Given signature (s, e), public key PK and message m:
//!   1. R' = s·G + e·PK, where e·PK walks the 254 bits of the unreduced
//!      challenge (the subgroup has order n, so this agrees with reducing e
//!      first);
//!   2. e' = Poseidon(R'.x, PK.x, PK.y, H(m));
//!   3. Valid exactly when e' equals e, as unreduced base-field values.
//!
//! There is one negative outcome: a wrong key, a wrong message and a
//! corrupted signature all collapse to `Invalid`, by design.

use vstd::prelude::*;
use crate::curve::{ed_add, gen_pt, spec_scalar_mul, BjjPoint};
use crate::encode::{bits_of, lemma_limbs_val_injective};
use crate::hash::{hash_message_to_field, poseidon4, schnorr_challenge, spec_msg_hash};
use crate::keypair::PublicKey;
use crate::sign::Signature;

verus! {

/// Result of signature verification.
#[derive(Debug, PartialEq, Eq, Structural)]
pub enum VerifyResult {
    Valid,
    Invalid,
}

/// The verification equation: the challenge recomputed from
/// R' = s·G + e·PK equals the challenge carried by the signature.
pub open spec fn spec_verify(s: nat, e: nat, pk: (int, int), message: Seq<u8>) -> bool {
    let rp = ed_add(
        spec_scalar_mul(gen_pt(), bits_of(s, 253)),
        spec_scalar_mul(pk, bits_of(e, 254)),
    );
    e == poseidon4(rp.0 as nat, pk.0 as nat, pk.1 as nat, spec_msg_hash(message))
}

/// Verify a Schnorr signature against a public key and message: `Valid`
/// exactly when the verification equation holds.
pub fn verify(sig: &Signature, message: &[u8], pk: &PublicKey) -> (res: VerifyResult)
    requires
        sig.wf(),
        pk.point.wf(),
    ensures
        (res == VerifyResult::Valid) <==> spec_verify(sig.s@, sig.e@, pk.point@, message@),
        (res == VerifyResult::Valid) || (res == VerifyResult::Invalid),
{
    let g = BjjPoint::generator();

    // R' = s · G  +  e · PK
    let s_g = g.scalar_mul(&sig.s);
    let e_pk = pk.point.mul_by_bn254_scalar(&sig.e);
    let r_prime = s_g.add(&e_pk);

    // Recompute the challenge from R'
    let (r_prime_x, _) = r_prime.coords();
    let (pk_x, pk_y) = pk.coords();
    let msg_hash = hash_message_to_field(message);

    let e_check = schnorr_challenge(&r_prime_x, &pk_x, &pk_y, &msg_hash);

    proof {
        if e_check@ == sig.e@ {
            lemma_limbs_val_injective(
                e_check.l0, e_check.l1, e_check.l2, e_check.l3,
                sig.e.l0, sig.e.l1, sig.e.l2, sig.e.l3,
            );
        }
    }
    if e_check == sig.e {
        VerifyResult::Valid
    } else {
        VerifyResult::Invalid
    }
}

} // verus!

//! Schnorr signing over BabyJubJub, with a deterministic nonce.
//!
//! Signing a message m with private key sk:
//!   1. k = SHA-512(sk_bytes ‖ m) reduced modulo n — the deterministic nonce;
//!   2. R = k·G;
//!   3. e = Poseidon(R.x, PK.x, PK.y, H(m)), kept unreduced in the base field;
//!   4. s = k − (e mod n)·sk, modulo n.
//!
//! The whole signature is a function of (sk, m) alone: `spec_sign` states it
//! and the contract of `sign` pins the result to it, so determinism holds by
//! construction (`lemma_sign_deterministic`).

use vstd::prelude::*;
use crate::curve::{bn254_to_bjj_scalar, gen_pt, spec_scalar_mul, BjjPoint};
use crate::encode::{bits_of, le_bytes, le_nat};
use crate::field::Fp;
use crate::hash::{hash_message_to_field, poseidon4, schnorr_challenge, sha512_spec, spec_msg_hash};
use crate::keypair::{spec_pk, KeyPair};
use crate::scalar::{muln, order_n, sn_mul_raw, sn_sub_raw, subn, BjjScalar};

verus! {

/// The deterministic nonce: SHA-512 of the secret scalar's canonical 32-byte
/// little-endian encoding followed by the message, read little-endian,
/// reduced modulo n.
pub open spec fn spec_nonce(sk: nat, message: Seq<u8>) -> nat {
    le_nat(sha512_spec(le_bytes(sk, 32) + message)) % (order_n() as nat)
}

/// The signature determined by a secret key, an explicit nonce and a
/// message: (s, e, R) with R = k·G, e the Poseidon challenge, and
/// s = k − (e mod n)·sk modulo n.
pub open spec fn spec_sig(sk: nat, k: nat, message: Seq<u8>) -> (nat, nat, (int, int)) {
    let r = spec_scalar_mul(gen_pt(), bits_of(k, 253));
    let pk = spec_pk(sk);
    let e = poseidon4(r.0 as nat, pk.0 as nat, pk.1 as nat, spec_msg_hash(message));
    let en = e % (order_n() as nat);
    let s = subn(k as int, muln(en as int, sk as int));
    (s as nat, e, r)
}

/// The signature of a message under a key, with the deterministic nonce.
pub open spec fn spec_sign(sk: nat, message: Seq<u8>) -> (nat, nat, (int, int)) {
    spec_sig(sk, spec_nonce(sk, message), message)
}

/// A Schnorr signature over BabyJubJub.
#[derive(Clone, Copy, Debug, PartialEq, Eq, Structural)]
pub struct Signature {
    /// Response scalar s = k − (e mod n)·sk, of the subgroup field.
    pub s: BjjScalar,
    /// Challenge e = Poseidon(R.x, PK.x, PK.y, msgHash), unreduced, of the
    /// base field.
    pub e: Fp,
    /// Commitment point R = k·G, kept for diagnostics; verification
    /// recomputes it.
    pub r: BjjPoint,
}

impl View for Signature {
    type V = (nat, nat, (int, int));

    open spec fn view(&self) -> (nat, nat, (int, int)) {
        (self.s@, self.e@, self.r@)
    }
}

impl Signature {
    /// All three parts are in canonical form.
    pub open spec fn wf(self) -> bool {
        self.s.wf() && self.e.wf() && self.r.wf()
    }

    /// Sign a message with the given keypair (deterministic nonce).
    pub fn sign(keypair: &KeyPair, message: &[u8]) -> (sig: Signature)
        requires
            keypair.wf(),
        ensures
            sig.wf(),
            sig@ == spec_sign(keypair.sk@, message@),
    {
        let k = deterministic_nonce(&keypair.sk, message);
        Self::sign_with_nonce(keypair, message, &k)
    }

    /// Sign with an explicit nonce.  Only for testing: reusing a nonce
    /// across two messages leaks the private key.
    pub fn sign_with_nonce(keypair: &KeyPair, message: &[u8], k: &BjjScalar) -> (sig: Signature)
        requires
            keypair.wf(),
            k.wf(),
        ensures
            sig.wf(),
            sig@ == spec_sig(keypair.sk@, k@, message@),
    {
        let g = BjjPoint::generator();

        // R = k · G
        let r = g.scalar_mul(k);
        let (r_x, _r_y) = r.coords();

        // Message hash
        let msg_hash = hash_message_to_field(message);
        let (pk_x, pk_y) = keypair.pk.coords();

        // Challenge: e = Poseidon(R.x, PK.x, PK.y, msgHash), in the base field
        let e = schnorr_challenge(&r_x, &pk_x, &pk_y, &msg_hash);

        // Reduce e to the subgroup field: e_n = e mod n
        let e_n = bn254_to_bjj_scalar(&e);

        // s = k − e_n · sk  (mod n)
        let s = sn_sub_raw(k, &sn_mul_raw(&e_n, &keypair.sk));

        Signature { s, e, r }
    }
}

/// Derive the deterministic nonce from the secret scalar and the message.
pub fn deterministic_nonce(sk: &BjjScalar, message: &[u8]) -> (r: BjjScalar)
    requires
        sk.wf(),
    ensures
        r.wf(),
        r@ == spec_nonce(sk@, message@),
{
    let mut data = sk.to_bytes_le();
    data.extend_from_slice(message);
    proof {
        assert(data@ =~= le_bytes(sk@, 32) + message@);
    }
    let digest = crate::hash::sha512_raw(data.as_slice());
    crate::scalar::sn_from_le_bytes_raw(digest.as_slice())
}

/// Signing is deterministic: the same key and message always give the same
/// signature, in every part — s, e and R alike.
pub proof fn lemma_sign_deterministic(
    sk: nat,
    message: Seq<u8>,
    sig1: (nat, nat, (int, int)),
    sig2: (nat, nat, (int, int)),
)
    requires
        sig1 == spec_sign(sk, message),
        sig2 == spec_sign(sk, message),
    ensures
        sig1 == sig2,
{
}

} // verus!

//! Challenge and message hashing for the Schnorr protocol.
//!
//! The challenge is the circomlib-compatible four-input Poseidon hash over
//! the base field: `e = Poseidon(R.x, PK.x, PK.y, msgHash)`.  A message is
//! first mapped to a field element by SHA-256, read little-endian, reduced
//! modulo p.  Both hashes are functions of their inputs alone; their outputs
//! are named by uninterpreted spec functions, and every contract downstream
//! speaks of those names exactly.

use vstd::prelude::*;
use ark_bn254::Fr;
use ark_ff::{BigInt, PrimeField};
use light_poseidon::{Poseidon, PoseidonHasher};
use sha2::{Digest, Sha256, Sha512};
use crate::encode::le_nat;
use crate::field::{fq_from_le_bytes_raw, fq_modulus, Fp};

verus! {

/// The 32-byte SHA-256 digest of a byte string.
pub uninterp spec fn sha256_spec(message: Seq<u8>) -> Seq<u8>;

/// The 64-byte SHA-512 digest of a byte string.
pub uninterp spec fn sha512_spec(message: Seq<u8>) -> Seq<u8>;

/// The circomlib-parameterized four-input Poseidon hash over the base field.
pub uninterp spec fn poseidon4(a: nat, b: nat, c: nat, d: nat) -> nat;

/// The field element a message is digested to: its SHA-256 digest read as a
/// little-endian integer, reduced modulo p.
pub open spec fn spec_msg_hash(message: Seq<u8>) -> nat {
    le_nat(sha256_spec(message)) % (fq_modulus() as nat)
}

/// Relies on `sha2::Sha256`: a 32-byte digest that depends on the input
/// bytes alone.
#[verifier::external_body]
fn sha256_raw(message: &[u8]) -> (r: Vec<u8>)
    ensures
        r@ == sha256_spec(message@),
        r@.len() == 32,
{
    Sha256::digest(message).to_vec()
}

/// Relies on `sha2::Sha512`: a 64-byte digest that depends on the input
/// bytes alone.
#[verifier::external_body]
pub(crate) fn sha512_raw(message: &[u8]) -> (r: Vec<u8>)
    ensures
        r@ == sha512_spec(message@),
        r@.len() == 64,
{
    Sha512::digest(message).to_vec()
}

/// Relies on `light_poseidon::Poseidon::new_circom(4)` and its `hash`: the
/// circomlib-compatible Poseidon over four base-field inputs, a fully
/// reduced field element depending on the four inputs alone.  Neither call
/// fails at this fixed width and input count.
#[verifier::external_body]
fn poseidon4_raw(a: &Fp, b: &Fp, c: &Fp, d: &Fp) -> (r: Fp)
    requires
        a.wf(),
        b.wf(),
        c.wf(),
        d.wf(),
    ensures
        r.wf(),
        r@ == poseidon4(a@, b@, c@, d@),
{
    let xs = [a, b, c, d].map(|p| Fr::from_bigint(BigInt([p.l0, p.l1, p.l2, p.l3])).unwrap());
    let mut hasher = Poseidon::<Fr>::new_circom(4).unwrap();
    let z = hasher.hash(&xs).unwrap().into_bigint();
    Fp { l0: z.0[0], l1: z.0[1], l2: z.0[2], l3: z.0[3] }
}

/// The Schnorr challenge `e = Poseidon(R.x, PK.x, PK.y, msgHash)`, all four
/// inputs and the output in the base field.
pub fn schnorr_challenge(r_x: &Fp, pk_x: &Fp, pk_y: &Fp, message_hash: &Fp) -> (r: Fp)
    requires
        r_x.wf(),
        pk_x.wf(),
        pk_y.wf(),
        message_hash.wf(),
    ensures
        r.wf(),
        r@ == poseidon4(r_x@, pk_x@, pk_y@, message_hash@),
{
    poseidon4_raw(r_x, pk_x, pk_y, message_hash)
}

/// Digest an arbitrary byte-string message to a base-field element:
/// SHA-256, read little-endian, reduced modulo p.
pub fn hash_message_to_field(message: &[u8]) -> (r: Fp)
    ensures
        r.wf(),
        r@ == spec_msg_hash(message@),
{
    let digest = sha256_raw(message);
    fq_from_le_bytes_raw(digest.as_slice())
}

} // verus!

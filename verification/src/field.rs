//! The base field of the BabyJubJub curve.
//!
//! Curve coordinates, the challenge and the message digest are integers
//! modulo `fq_modulus()`, the ~254-bit prime that is also the scalar field of
//! the BN254 pairing curve.  An element is held as four little-endian 64-bit
//! limbs in canonical (fully reduced) form; the arithmetic itself is done by
//! `ark_bn254`, behind trusted wrappers whose contracts state the result as
//! plain modular arithmetic on the limb values.

use vstd::prelude::*;
use vstd::arithmetic::div_mod::*;
use ark_bn254::Fr;
use ark_ff::{BigInt, Field, PrimeField};
use crate::encode::limbs_val;

verus! {

/// The base-field modulus p: the order of the BN254 scalar field.
pub open spec fn fq_modulus() -> int {
    21888242871839275222246405745257275088548364400416034343698204186575808495617int
}

/// Addition modulo p.
pub open spec fn addm(a: int, b: int) -> int {
    (a + b) % fq_modulus()
}

/// Subtraction modulo p.
pub open spec fn subm(a: int, b: int) -> int {
    (a - b) % fq_modulus()
}

/// Multiplication modulo p.
pub open spec fn mulm(a: int, b: int) -> int {
    (a * b) % fq_modulus()
}

/// The multiplicative inverse modulo p, extended by `fq_inv(x) == 0` where no
/// inverse exists (for x ≡ 0 mod p).
pub open spec fn fq_inv(x: int) -> int {
    if exists|y: int| 0 <= y < fq_modulus() && #[trigger] ((x * y) % fq_modulus()) == 1 {
        choose|y: int| 0 <= y < fq_modulus() && #[trigger] ((x * y) % fq_modulus()) == 1
    } else {
        0
    }
}

/// An element of the base field, fully reduced, as little-endian 64-bit limbs.
#[derive(Clone, Copy, Debug, PartialEq, Eq, Structural)]
pub struct Fp {
    pub l0: u64,
    pub l1: u64,
    pub l2: u64,
    pub l3: u64,
}

impl View for Fp {
    type V = nat;

    open spec fn view(&self) -> nat {
        limbs_val(self.l0, self.l1, self.l2, self.l3)
    }
}

impl Fp {
    /// Canonical form: the represented integer is fully reduced.
    pub open spec fn wf(self) -> bool {
        self@ < fq_modulus()
    }

    /// Embed a machine word into the field.
    pub fn from_u64(v: u64) -> (r: Fp)
        ensures
            r.wf(),
            r@ == v,
    {
        proof {
            crate::encode::lemma_pow2_limb_values();
        }
        Fp { l0: v, l1: 0, l2: 0, l3: 0 }
    }
}

/// The inverse modulo the prime p is unique, so any witness pins `fq_inv`.
pub proof fn lemma_fq_inv_unique(x: int, y: int)
    requires
        0 <= y < fq_modulus(),
        (x * y) % fq_modulus() == 1,
    ensures
        fq_inv(x) == y,
{
    let m = fq_modulus();
    assert(exists|y2: int| 0 <= y2 < m && #[trigger] ((x * y2) % m) == 1);
    let y2 = choose|y2: int| 0 <= y2 < m && #[trigger] ((x * y2) % m) == 1;
    assert(0 <= y2 < m && (x * y2) % m == 1);
    // y == (y * (x * y2)) % m == ((x * y) * y2) % m == y2
    lemma_mul_mod_noop_right(y, x * y2, m);
    assert((y * ((x * y2) % m)) % m == (y * (x * y2)) % m);
    assert(y * ((x * y2) % m) == y);
    lemma_small_mod(y as nat, m as nat);
    assert(y * (x * y2) == (x * y) * y2) by (nonlinear_arith);
    lemma_mul_mod_noop_left(x * y, y2, m);
    assert((((x * y) % m) * y2) % m == ((x * y) * y2) % m);
    assert(((x * y) % m) * y2 == y2);
    lemma_small_mod(y2 as nat, m as nat);
}

/// If x ≡ 0 mod p then nothing inverts it and `fq_inv` gives 0.
pub proof fn lemma_fq_inv_zero(x: int)
    requires
        x % fq_modulus() == 0,
    ensures
        fq_inv(x) == 0,
{
    let m = fq_modulus();
    assert forall|y: int| !(0 <= y < m && #[trigger] ((x * y) % m) == 1) by {
        if 0 <= y < m {
            lemma_mul_mod_noop_left(x, y, m);
            assert((x * y) % m == ((x % m) * y) % m);
            assert((0int * y) == 0int);
            assert((0int) % m == 0);
        }
    }
}

/// Relies on `ark_bn254::Fr` addition: the canonical value of the sum is the
/// sum of the canonical values, reduced modulo p.
#[verifier::external_body]
pub(crate) fn fq_add_raw(a: &Fp, b: &Fp) -> (r: Fp)
    requires
        a.wf(),
        b.wf(),
    ensures
        r.wf(),
        r@ == addm(a@ as int, b@ as int),
{
    let x = Fr::from_bigint(BigInt([a.l0, a.l1, a.l2, a.l3])).unwrap();
    let y = Fr::from_bigint(BigInt([b.l0, b.l1, b.l2, b.l3])).unwrap();
    let z = (x + y).into_bigint();
    Fp { l0: z.0[0], l1: z.0[1], l2: z.0[2], l3: z.0[3] }
}

/// Relies on `ark_bn254::Fr` subtraction: the canonical value of the
/// difference is the difference of the canonical values, reduced modulo p.
#[verifier::external_body]
pub(crate) fn fq_sub_raw(a: &Fp, b: &Fp) -> (r: Fp)
    requires
        a.wf(),
        b.wf(),
    ensures
        r.wf(),
        r@ == subm(a@ as int, b@ as int),
{
    let x = Fr::from_bigint(BigInt([a.l0, a.l1, a.l2, a.l3])).unwrap();
    let y = Fr::from_bigint(BigInt([b.l0, b.l1, b.l2, b.l3])).unwrap();
    let z = (x - y).into_bigint();
    Fp { l0: z.0[0], l1: z.0[1], l2: z.0[2], l3: z.0[3] }
}

/// Relies on `ark_bn254::Fr` multiplication: the canonical value of the
/// product is the product of the canonical values, reduced modulo p.
#[verifier::external_body]
pub(crate) fn fq_mul_raw(a: &Fp, b: &Fp) -> (r: Fp)
    requires
        a.wf(),
        b.wf(),
    ensures
        r.wf(),
        r@ == mulm(a@ as int, b@ as int),
{
    let x = Fr::from_bigint(BigInt([a.l0, a.l1, a.l2, a.l3])).unwrap();
    let y = Fr::from_bigint(BigInt([b.l0, b.l1, b.l2, b.l3])).unwrap();
    let z = (x * y).into_bigint();
    Fp { l0: z.0[0], l1: z.0[1], l2: z.0[2], l3: z.0[3] }
}

/// Relies on `ark_ff::Field::inverse`: `None` exactly on zero, and otherwise
/// a fully reduced element whose product with the argument is 1 modulo p.
#[verifier::external_body]
pub(crate) fn fq_inverse_raw(a: &Fp) -> (r: Option<Fp>)
    requires
        a.wf(),
    ensures
        match r {
            Some(inv) => a@ != 0 && inv.wf() && ((a@ as int) * (inv@ as int)) % fq_modulus() == 1,
            None => a@ == 0,
        },
{
    let x = Fr::from_bigint(BigInt([a.l0, a.l1, a.l2, a.l3])).unwrap();
    match x.inverse() {
        Some(i) => {
            let z = i.into_bigint();
            Some(Fp { l0: z.0[0], l1: z.0[1], l2: z.0[2], l3: z.0[3] })
        },
        None => None,
    }
}

/// Relies on `ark_bn254::Fr::from_le_bytes_mod_order`: the bytes are read as
/// a little-endian unsigned integer and reduced modulo p.
#[verifier::external_body]
pub(crate) fn fq_from_le_bytes_raw(bytes: &[u8]) -> (r: Fp)
    ensures
        r.wf(),
        r@ == crate::encode::le_nat(bytes@) % (fq_modulus() as nat),
{
    let z = Fr::from_le_bytes_mod_order(bytes).into_bigint();
    Fp { l0: z.0[0], l1: z.0[1], l2: z.0[2], l3: z.0[3] }
}

} // verus!

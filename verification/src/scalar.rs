//! Scalars of the BabyJubJub prime-order subgroup.
//!
//! Private keys, nonces and signature responses are integers modulo
//! `order_n()`, the ~251-bit order of the subgroup generated by the fixed
//! generator.  A scalar is held as four little-endian 64-bit limbs in
//! canonical form; the modular arithmetic is done by `ark_ed_on_bn254`,
//! behind trusted wrappers with exact modular contracts.

use vstd::prelude::*;
use vstd::arithmetic::div_mod::*;
use ark_ed_on_bn254::Fr;
use ark_ff::{BigInt, PrimeField, UniformRand};
use vstd::arithmetic::power2::pow2;
use vstd::string::StrSliceExecFns;
use crate::encode::{
    bits_of, char_digit, dec_of_le_bytes_raw, dec_str, dec_val, is_dec_digit, le_bytes, le_nat,
    lemma_le_nat_le_bytes, lemma_pow2_limb_values, limbs_to_bits_le, limbs_to_bytes_le, limbs_val,
};

verus! {

/// The subgroup order n: the order of the cyclic group the generator spans.
pub open spec fn order_n() -> int {
    2736030358979909402780800718157159386076813972158567259200215660948447373041int
}

/// Multiplication modulo n.
pub open spec fn muln(a: int, b: int) -> int {
    (a * b) % order_n()
}

/// Subtraction modulo n.
pub open spec fn subn(a: int, b: int) -> int {
    (a - b) % order_n()
}

/// A scalar of the subgroup field, fully reduced, as little-endian limbs.
#[derive(Clone, Copy, Debug, PartialEq, Eq, Structural)]
pub struct BjjScalar {
    pub l0: u64,
    pub l1: u64,
    pub l2: u64,
    pub l3: u64,
}

impl View for BjjScalar {
    type V = nat;

    open spec fn view(&self) -> nat {
        limbs_val(self.l0, self.l1, self.l2, self.l3)
    }
}

impl BjjScalar {
    /// Canonical form: the represented integer is fully reduced.
    pub open spec fn wf(self) -> bool {
        self@ < order_n()
    }

    /// The zero scalar.
    pub fn zero() -> (r: BjjScalar)
        ensures
            r.wf(),
            r@ == 0,
    {
        proof {
            lemma_pow2_limb_values();
        }
        BjjScalar { l0: 0, l1: 0, l2: 0, l3: 0 }
    }

    /// Embed a machine word into the scalar field.
    pub fn from_u64(v: u64) -> (r: BjjScalar)
        ensures
            r.wf(),
            r@ == v,
    {
        proof {
            lemma_pow2_limb_values();
        }
        BjjScalar { l0: v, l1: 0, l2: 0, l3: 0 }
    }

    /// Sample a uniformly random scalar from the operating system's entropy.
    pub fn random() -> (r: BjjScalar)
        ensures
            r.wf(),
    {
        sn_random_raw()
    }

    /// The canonical 32-byte little-endian encoding of the scalar.
    pub fn to_bytes_le(&self) -> (r: Vec<u8>)
        ensures
            r@ == le_bytes(self@, 32),
    {
        limbs_to_bytes_le(self.l0, self.l1, self.l2, self.l3)
    }

    /// The canonical decimal string of the scalar.
    pub fn to_dec_string(&self) -> (r: String)
        requires
            self.wf(),
        ensures
            r@ == dec_str(self@),
    {
        let bytes = self.to_bytes_le();
        proof {
            lemma_le_nat_le_bytes(self@, 32);
            lemma_pow2_limb_values();
            lemma_small_mod(self@, pow2(256));
        }
        dec_of_le_bytes_raw(&bytes)
    }

    /// The low 253 bits of the scalar, little-endian: the bit string the
    /// double-and-add scalar multiplication walks.
    pub fn to_bits_le(&self) -> (r: Vec<bool>)
        ensures
            r@ == bits_of(self@, 253),
    {
        limbs_to_bits_le(self.l0, self.l1, self.l2, self.l3, 253)
    }
}

/// Parse a decimal string as a scalar, reduced modulo n.
pub fn scalar_from_dec_str(s: &str) -> (r: BjjScalar)
    requires
        s@.len() >= 1,
        forall|i: int| 0 <= i < s@.len() ==> is_dec_digit(#[trigger] s@[i]),
    ensures
        r.wf(),
        r@ == dec_val(s@) % (order_n() as nat),
{
    let n = s.unicode_len();
    let mut acc = BjjScalar::zero();
    let ten = BjjScalar::from_u64(10);
    let mut i: usize = 0;
    proof {
        assert(s@.take(0) =~= Seq::<char>::empty());
        lemma_small_mod(0, order_n() as nat);
    }
    while i < n
        invariant
            i <= n,
            n == s@.len(),
            ten@ == 10,
            ten.wf(),
            acc.wf(),
            forall|t: int| 0 <= t < s@.len() ==> is_dec_digit(#[trigger] s@[t]),
            acc@ == dec_val(s@.take(i as int)) % (order_n() as nat),
        decreases n - i,
    {
        let c = s.get_char(i);
        let d: u64 = (c as u32 as u64) - 48;
        let dsc = BjjScalar::from_u64(d);
        let shifted = sn_mul_raw(&acc, &ten);
        let next = sn_add_raw(&shifted, &dsc);
        proof {
            let m = order_n();
            let prev: int = dec_val(s@.take(i as int)) as int;
            let dv: int = char_digit(s@[i as int]) as int;
            assert(s@.take(i + 1).drop_last() =~= s@.take(i as int));
            assert(s@.take(i + 1).last() == s@[i as int]);
            assert(dec_val(s@.take(i + 1)) == prev * 10 + dv);
            lemma_mul_mod_noop_left(prev, 10, m);
            lemma_add_mod_noop(prev * 10, dv, m);
            lemma_small_mod(dv as nat, m as nat);
            assert(next@ == ((prev % m) * 10 % m + dv % m) % m);
            assert(next@ == (prev * 10 + dv) % m);
        }
        acc = next;
        i += 1;
    }
    proof {
        assert(s@.take(n as int) =~= s@);
    }
    acc
}

/// Relies on `ark_ed_on_bn254::Fr` multiplication: the canonical value of the
/// product is the product of the canonical values, reduced modulo n.
#[verifier::external_body]
pub(crate) fn sn_mul_raw(a: &BjjScalar, b: &BjjScalar) -> (r: BjjScalar)
    requires
        a.wf(),
        b.wf(),
    ensures
        r.wf(),
        r@ == muln(a@ as int, b@ as int),
{
    let x = Fr::from_bigint(BigInt([a.l0, a.l1, a.l2, a.l3])).unwrap();
    let y = Fr::from_bigint(BigInt([b.l0, b.l1, b.l2, b.l3])).unwrap();
    let z = (x * y).into_bigint();
    BjjScalar { l0: z.0[0], l1: z.0[1], l2: z.0[2], l3: z.0[3] }
}

/// Relies on `ark_ed_on_bn254::Fr` addition: the canonical value of the sum
/// is the sum of the canonical values, reduced modulo n.
#[verifier::external_body]
pub(crate) fn sn_add_raw(a: &BjjScalar, b: &BjjScalar) -> (r: BjjScalar)
    requires
        a.wf(),
        b.wf(),
    ensures
        r.wf(),
        r@ == (a@ + b@) % (order_n() as nat),
{
    let x = Fr::from_bigint(BigInt([a.l0, a.l1, a.l2, a.l3])).unwrap();
    let y = Fr::from_bigint(BigInt([b.l0, b.l1, b.l2, b.l3])).unwrap();
    let z = (x + y).into_bigint();
    BjjScalar { l0: z.0[0], l1: z.0[1], l2: z.0[2], l3: z.0[3] }
}

/// Relies on `ark_ed_on_bn254::Fr` subtraction: the canonical value of the
/// difference is the difference of the canonical values, reduced modulo n.
#[verifier::external_body]
pub(crate) fn sn_sub_raw(a: &BjjScalar, b: &BjjScalar) -> (r: BjjScalar)
    requires
        a.wf(),
        b.wf(),
    ensures
        r.wf(),
        r@ == subn(a@ as int, b@ as int),
{
    let x = Fr::from_bigint(BigInt([a.l0, a.l1, a.l2, a.l3])).unwrap();
    let y = Fr::from_bigint(BigInt([b.l0, b.l1, b.l2, b.l3])).unwrap();
    let z = (x - y).into_bigint();
    BjjScalar { l0: z.0[0], l1: z.0[1], l2: z.0[2], l3: z.0[3] }
}

/// Relies on `ark_ed_on_bn254::Fr::from_le_bytes_mod_order`: the bytes are
/// read as a little-endian unsigned integer and reduced modulo n.
#[verifier::external_body]
pub(crate) fn sn_from_le_bytes_raw(bytes: &[u8]) -> (r: BjjScalar)
    ensures
        r.wf(),
        r@ == le_nat(bytes@) % (order_n() as nat),
{
    let z = Fr::from_le_bytes_mod_order(bytes).into_bigint();
    BjjScalar { l0: z.0[0], l1: z.0[1], l2: z.0[2], l3: z.0[3] }
}

/// Relies on `ark_ff::UniformRand` with the operating system's entropy
/// source: a uniformly random, fully reduced scalar; nothing further is
/// assumed of the outcome.
#[verifier::external_body]
fn sn_random_raw() -> (r: BjjScalar)
    ensures
        r.wf(),
{
    let mut rng = ark_std::rand::rngs::OsRng;
    let z = Fr::rand(&mut rng).into_bigint();
    BjjScalar { l0: z.0[0], l1: z.0[1], l2: z.0[2], l3: z.0[3] }
}

} // verus!

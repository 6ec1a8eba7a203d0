//! BabyJubJub curve arithmetic with circomlib-compatible coordinates.
//!
//! Twisted Edwards curve `a·x² + y² = 1 + d·x²·y²` over the base field, with
//! `a = 168700`, `d = 168696`, the identity at `(0, 1)`, and the circomlib
//! Base8 point as the generator of the prime-order subgroup.
//!
//! The executable point operations are verified against spec-level modular
//! arithmetic (`ed_add`, `mul_loop`): every contract pins the exact affine
//! coordinates of the result.  The unified addition formula is believed never
//! to meet a vanishing denominator on well-formed inputs for these curve
//! constants, but that fact is not proved here; `fq_inv` is therefore total,
//! giving 0 where no inverse exists, so that a vanishing denominator would
//! yield the off-curve marker `(0, 0)`, which every later check rejects,
//! rather than a wrong on-curve point.

use vstd::prelude::*;
use vstd::arithmetic::div_mod::*;
use vstd::arithmetic::power2::*;
use vstd::string::StrSliceExecFns;
use crate::encode::{
    bits_of, char_digit, dec_of_le_bytes_raw, dec_str, dec_val, is_dec_digit,
    lemma_le_nat_le_bytes, lemma_limbs_val_injective, lemma_pow2_limb_values, limbs_to_bits_le,
    limbs_to_bytes_le,
};
use crate::field::{
    addm, fq_add_raw, fq_inv, fq_inverse_raw, fq_modulus, fq_mul_raw,
    fq_sub_raw, lemma_fq_inv_unique, lemma_fq_inv_zero, mulm, subm, Fp,
};
use crate::scalar::{order_n, sn_from_le_bytes_raw, BjjScalar};

verus! {

/// The curve coefficient a of the twisted Edwards equation.
pub const A_COEFF: u64 = 168700;

/// The curve coefficient d of the twisted Edwards equation.
pub const D_COEFF: u64 = 168696;

/// The coefficient a as a specification integer.
pub open spec fn a_coeff() -> int {
    168700
}

/// The coefficient d as a specification integer.
pub open spec fn d_coeff() -> int {
    168696
}

/// The identity point (0, 1).
pub open spec fn id_pt() -> (int, int) {
    (0, 1)
}

/// The circomlib Base8 generator, by its published decimal coordinates.
pub open spec fn gen_pt() -> (int, int) {
    (
        5299619240641551281634865583518297030282874472190772894086521144482721001553int,
        16950150798460657717958625567821834550301663161624707787222815936182638968203int,
    )
}

/// Both coordinates are reduced field elements.
pub open spec fn pt_wf(p: (int, int)) -> bool {
    0 <= p.0 < fq_modulus() && 0 <= p.1 < fq_modulus()
}

/// The curve equation a·x² + y² = 1 + d·x²·y², evaluated modulo p.
pub open spec fn on_curve(p: (int, int)) -> bool {
    let x2 = mulm(p.0, p.0);
    let y2 = mulm(p.1, p.1);
    addm(mulm(a_coeff(), x2), y2) == addm(1, mulm(mulm(d_coeff(), x2), y2))
}

/// The unified twisted Edwards sum of two points:
///   x3 = (x1·y2 + y1·x2) / (1 + d·x1·x2·y1·y2)
///   y3 = (y1·y2 − a·x1·x2) / (1 − d·x1·x2·y1·y2)
/// with division as multiplication by `fq_inv`.
pub open spec fn ed_add(p: (int, int), q: (int, int)) -> (int, int) {
    let x1y2 = mulm(p.0, q.1);
    let y1x2 = mulm(p.1, q.0);
    let x1x2 = mulm(p.0, q.0);
    let y1y2 = mulm(p.1, q.1);
    let dxy = mulm(mulm(d_coeff(), x1x2), y1y2);
    let x3 = mulm(addm(x1y2, y1x2), fq_inv(addm(1, dxy)));
    let y3 = mulm(subm(y1y2, mulm(a_coeff(), x1x2)), fq_inv(subm(1, dxy)));
    (x3, y3)
}

/// One double-and-add pass over a little-endian bit string, exactly as the
/// executable loop walks it: `acc` collects, `base` doubles each step.
pub open spec fn mul_loop(acc: (int, int), base: (int, int), bits: Seq<bool>) -> (int, int)
    decreases bits.len(),
{
    if bits.len() == 0 {
        acc
    } else {
        mul_loop(
            if bits[0] { ed_add(acc, base) } else { acc },
            ed_add(base, base),
            bits.drop_first(),
        )
    }
}

/// Scalar multiplication as the double-and-add walk started from the identity.
pub open spec fn spec_scalar_mul(p: (int, int), bits: Seq<bool>) -> (int, int) {
    mul_loop(id_pt(), p, bits)
}

/// A point on the BabyJubJub curve, affine, with coordinates in the base
/// field.  The identity is (0, 1).
#[derive(Clone, Copy, Debug, PartialEq, Eq, Structural)]
pub struct BjjPoint {
    pub x: Fp,
    pub y: Fp,
}

impl View for BjjPoint {
    type V = (int, int);

    open spec fn view(&self) -> (int, int) {
        (self.x@ as int, self.y@ as int)
    }
}

impl BjjPoint {
    /// Both coordinates are in canonical reduced form.
    pub open spec fn wf(self) -> bool {
        self.x.wf() && self.y.wf()
    }

    /// The identity point (0, 1).
    pub fn identity() -> (r: BjjPoint)
        ensures
            r.wf(),
            r@ == id_pt(),
    {
        BjjPoint { x: Fp::from_u64(0), y: Fp::from_u64(1) }
    }

    /// The circomlib Base8 generator of the prime-order subgroup; its
    /// coordinates are exactly the published decimal constants.
    pub fn generator() -> (r: BjjPoint)
        ensures
            r.wf(),
            r@ == gen_pt(),
    {
        proof {
            lemma_pow2_limb_values();
        }
        BjjPoint {
            x: Fp {
                l0: 0x2893f3f6bb957051,
                l1: 0x2ab8d8010534e0b6,
                l2: 0x4eacb2e09d6277c1,
                l3: 0x0bb77a6ad63e739b,
            },
            y: Fp {
                l0: 0x4b3c257a872d7d8b,
                l1: 0xfce0051fb9e13377,
                l2: 0x25572e1cd16bf9ed,
                l3: 0x25797203f7a0b249,
            },
        }
    }

    /// Evaluate the curve equation at this point.
    pub fn is_on_curve(&self) -> (r: bool)
        requires
            self.wf(),
        ensures
            r == on_curve(self@),
    {
        let a = Fp::from_u64(A_COEFF);
        let d = Fp::from_u64(D_COEFF);
        let one = Fp::from_u64(1);
        let x2 = fq_mul_raw(&self.x, &self.x);
        let y2 = fq_mul_raw(&self.y, &self.y);
        let lhs = fq_add_raw(&fq_mul_raw(&a, &x2), &y2);
        let rhs = fq_add_raw(&one, &fq_mul_raw(&fq_mul_raw(&d, &x2), &y2));
        proof {
            if lhs@ == rhs@ {
                lemma_limbs_val_injective(
                    lhs.l0, lhs.l1, lhs.l2, lhs.l3,
                    rhs.l0, rhs.l1, rhs.l2, rhs.l3,
                );
            }
        }
        lhs == rhs
    }

    /// Whether this is the identity point (0, 1).
    pub fn is_zero(&self) -> (r: bool)
        ensures
            r == (self@ == id_pt()),
    {
        let zero = Fp::from_u64(0);
        let one = Fp::from_u64(1);
        proof {
            if self.x@ == 0 {
                lemma_limbs_val_injective(self.x.l0, self.x.l1, self.x.l2, self.x.l3, 0, 0, 0, 0);
            }
            if self.y@ == 1 {
                lemma_limbs_val_injective(self.y.l0, self.y.l1, self.y.l2, self.y.l3, 1, 0, 0, 0);
            }
            lemma_pow2_limb_values();
        }
        self.x == zero && self.y == one
    }

    /// Unified twisted Edwards point addition; the result's coordinates are
    /// exactly those of the spec-level `ed_add` sum.
    pub fn add(&self, other: &BjjPoint) -> (r: BjjPoint)
        requires
            self.wf(),
            other.wf(),
        ensures
            r.wf(),
            r@ == ed_add(self@, other@),
    {
        let a = Fp::from_u64(A_COEFF);
        let d = Fp::from_u64(D_COEFF);
        let one = Fp::from_u64(1);

        let x1y2 = fq_mul_raw(&self.x, &other.y);
        let y1x2 = fq_mul_raw(&self.y, &other.x);
        let x1x2 = fq_mul_raw(&self.x, &other.x);
        let y1y2 = fq_mul_raw(&self.y, &other.y);

        let dxy = fq_mul_raw(&fq_mul_raw(&d, &x1x2), &y1y2);

        let x3_num = fq_add_raw(&x1y2, &y1x2);
        let x3_den = fq_add_raw(&one, &dxy);
        let x3 = mul_by_inverse(&x3_num, &x3_den);

        let y3_num = fq_sub_raw(&y1y2, &fq_mul_raw(&a, &x1x2));
        let y3_den = fq_sub_raw(&one, &dxy);
        let y3 = mul_by_inverse(&y3_num, &y3_den);

        BjjPoint { x: x3, y: y3 }
    }

    /// Double-and-add scalar multiplication over the low 253 bits of a
    /// subgroup scalar (253 being the fixed bit length of the walk).
    pub fn scalar_mul(&self, scalar: &BjjScalar) -> (r: BjjPoint)
        requires
            self.wf(),
            scalar.wf(),
        ensures
            r.wf(),
            r@ == spec_scalar_mul(self@, bits_of(scalar@, 253)),
    {
        let bits = scalar.to_bits_le();
        self.mul_bits(&bits)
    }

    /// Scalar multiplication by a base-field element, over its low 254 bits.
    /// Because the subgroup has order n, this agrees with first reducing the
    /// element modulo n; the 254-bit walk itself is part of the
    /// interoperability contract.
    pub fn mul_by_bn254_scalar(&self, scalar: &Fp) -> (r: BjjPoint)
        requires
            self.wf(),
            scalar.wf(),
        ensures
            r.wf(),
            r@ == spec_scalar_mul(self@, bits_of(scalar@, 254)),
    {
        let bits = bn254_to_bits_le(scalar);
        self.mul_bits(&bits)
    }

    /// The double-and-add walk over an explicit little-endian bit string.
    fn mul_bits(&self, bits: &Vec<bool>) -> (r: BjjPoint)
        requires
            self.wf(),
        ensures
            r.wf(),
            r@ == spec_scalar_mul(self@, bits@),
    {
        let mut result = BjjPoint::identity();
        let mut temp = *self;
        let mut i: usize = 0;
        proof {
            assert(bits@.skip(0) =~= bits@);
        }
        while i < bits.len()
            invariant
                i <= bits@.len(),
                result.wf(),
                temp.wf(),
                mul_loop(result@, temp@, bits@.skip(i as int)) == spec_scalar_mul(self@, bits@),
            decreases bits@.len() - i,
        {
            proof {
                let s = bits@.skip(i as int);
                assert(s.len() > 0);
                assert(s[0] == bits@[i as int]);
                assert(s.drop_first() =~= bits@.skip(i as int + 1));
            }
            if bits[i] {
                result = result.add(&temp);
            }
            temp = temp.add(&temp);
            i += 1;
        }
        proof {
            assert(bits@.skip(bits@.len() as int) =~= Seq::<bool>::empty());
        }
        result
    }

    /// The affine coordinates (x, y).
    pub fn coords(&self) -> (r: (Fp, Fp))
        ensures
            r.0 == self.x,
            r.1 == self.y,
    {
        (self.x, self.y)
    }
}

/// Multiply by the inverse of the denominator; where the denominator is zero
/// (which the unified formula is believed never to produce on well-formed
/// inputs) the result is 0, matching `fq_inv`'s extension by zero.
fn mul_by_inverse(num: &Fp, den: &Fp) -> (r: Fp)
    requires
        num.wf(),
        den.wf(),
    ensures
        r.wf(),
        r@ == mulm(num@ as int, fq_inv(den@ as int)),
{
    match fq_inverse_raw(den) {
        Some(inv) => {
            proof {
                lemma_fq_inv_unique(den@ as int, inv@ as int);
            }
            fq_mul_raw(num, &inv)
        },
        None => {
            proof {
                lemma_small_mod(den@, fq_modulus() as nat);
                lemma_fq_inv_zero(den@ as int);
                assert((num@ as int) * 0int == 0int);
                assert(0int % fq_modulus() == 0);
            }
            Fp::from_u64(0)
        },
    }
}

/// The low 254 bits of a base-field element, little-endian: the walk length
/// used when multiplying by an unreduced challenge.
fn bn254_to_bits_le(f: &Fp) -> (r: Vec<bool>)
    ensures
        r@ == bits_of(f@, 254),
{
    limbs_to_bits_le(f.l0, f.l1, f.l2, f.l3, 254)
}

/// Reduce a base-field element to a subgroup scalar: its canonical
/// little-endian bytes are read back as an integer modulo n.
pub fn bn254_to_bjj_scalar(e: &Fp) -> (r: BjjScalar)
    requires
        e.wf(),
    ensures
        r.wf(),
        r@ == e@ % (order_n() as nat),
{
    let bytes = limbs_to_bytes_le(e.l0, e.l1, e.l2, e.l3);
    proof {
        lemma_le_nat_le_bytes(e@, 32);
        lemma_pow2_limb_values();
        lemma_small_mod(e@, pow2(256));
    }
    sn_from_le_bytes_raw(bytes.as_slice())
}

/// The canonical decimal string of a base-field element.
pub fn bn254_to_dec_string(f: &Fp) -> (r: String)
    requires
        f.wf(),
    ensures
        r@ == dec_str(f@),
{
    let bytes = limbs_to_bytes_le(f.l0, f.l1, f.l2, f.l3);
    proof {
        lemma_le_nat_le_bytes(f@, 32);
        lemma_pow2_limb_values();
        lemma_small_mod(f@, pow2(256));
    }
    dec_of_le_bytes_raw(&bytes)
}

/// Parse a decimal string as a base-field element, reduced modulo p.
pub fn field_from_dec_str(s: &str) -> (r: Fp)
    requires
        s@.len() >= 1,
        forall|i: int| 0 <= i < s@.len() ==> is_dec_digit(#[trigger] s@[i]),
    ensures
        r.wf(),
        r@ == dec_val(s@) % (fq_modulus() as nat),
{
    let n = s.unicode_len();
    let mut acc = Fp::from_u64(0);
    let ten = Fp::from_u64(10);
    let mut i: usize = 0;
    proof {
        assert(s@.take(0) =~= Seq::<char>::empty());
        lemma_small_mod(0, fq_modulus() as nat);
    }
    while i < n
        invariant
            i <= n,
            n == s@.len(),
            ten@ == 10,
            ten.wf(),
            acc.wf(),
            forall|t: int| 0 <= t < s@.len() ==> is_dec_digit(#[trigger] s@[t]),
            acc@ == dec_val(s@.take(i as int)) % (fq_modulus() as nat),
        decreases n - i,
    {
        let c = s.get_char(i);
        let d: u64 = (c as u32 as u64) - 48;
        let dfp = Fp::from_u64(d);
        let shifted = fq_mul_raw(&acc, &ten);
        let next = fq_add_raw(&shifted, &dfp);
        proof {
            let m = fq_modulus();
            let prev: int = dec_val(s@.take(i as int)) as int;
            let dv: int = char_digit(s@[i as int]) as int;
            assert(s@.take(i + 1).drop_last() =~= s@.take(i as int));
            assert(s@.take(i + 1).last() == s@[i as int]);
            assert(dec_val(s@.take(i + 1)) == prev * 10 + dv);
            lemma_mul_mod_noop_left(prev, 10, m);
            lemma_add_mod_noop(prev * 10, dv, m);
            lemma_small_mod(dv as nat, m as nat);
            assert(next@ == ((prev % m) * 10 % m + dv % m) % m);
            assert(next@ == (prev * 10 + dv) % m);
        }
        acc = next;
        i += 1;
    }
    proof {
        assert(s@.take(n as int) =~= s@);
    }
    acc
}

/// Adding the identity on the left leaves any well-formed point unchanged.
pub proof fn lemma_ed_add_identity_left(q: (int, int))
    requires
        pt_wf(q),
    ensures
        ed_add(id_pt(), q) == q,
{
    let m = fq_modulus();
    assert(0int * q.1 == 0 && 0int * q.0 == 0 && 1int * q.0 == q.0 && 1int * q.1 == q.1);
    assert(0int % m == 0);
    lemma_small_mod(q.0 as nat, m as nat);
    lemma_small_mod(q.1 as nat, m as nat);
    // the cross products with coordinate 0 vanish
    assert(mulm(0, q.1) == 0 && mulm(1, q.0) == q.0 && mulm(0, q.0) == 0 && mulm(1, q.1) == q.1);
    assert(d_coeff() * 0int == 0 && a_coeff() * 0int == 0);
    assert(mulm(d_coeff(), 0) == 0 && mulm(a_coeff(), 0) == 0);
    assert(0int * q.1 == 0);
    assert(mulm(0, mulm(1, q.1)) == 0);
    lemma_small_mod(1nat, m as nat);
    assert(addm(1, 0) == 1);
    assert(1int * 1int == 1);
    lemma_fq_inv_unique(1, 1);
    assert(addm(mulm(0, q.1), mulm(1, q.0)) == q.0);
    assert(q.0 * 1int == q.0 && q.1 * 1int == q.1);
    assert(mulm(q.0, 1) == q.0);
    assert(subm(mulm(1, q.1), 0) == q.1);
    assert(subm(1, 0) == 1);
    assert(mulm(q.1, 1) == q.1);
}

/// Adding the identity on the right leaves any well-formed point unchanged.
pub proof fn lemma_ed_add_identity_right(q: (int, int))
    requires
        pt_wf(q),
    ensures
        ed_add(q, id_pt()) == q,
{
    let m = fq_modulus();
    assert(q.0 * 1int == q.0 && q.1 * 0int == 0 && q.0 * 0int == 0 && q.1 * 1int == q.1);
    assert(0int % m == 0);
    lemma_small_mod(q.0 as nat, m as nat);
    lemma_small_mod(q.1 as nat, m as nat);
    assert(mulm(q.0, 1) == q.0 && mulm(q.1, 0) == 0 && mulm(q.0, 0) == 0 && mulm(q.1, 1) == q.1);
    assert(d_coeff() * 0int == 0 && a_coeff() * 0int == 0);
    assert(mulm(d_coeff(), 0) == 0 && mulm(a_coeff(), 0) == 0);
    assert(0int * mulm(q.1, 1) == 0);
    assert(mulm(0, mulm(q.1, 1)) == 0);
    lemma_small_mod(1nat, m as nat);
    assert(addm(1, 0) == 1);
    assert(1int * 1int == 1);
    lemma_fq_inv_unique(1, 1);
    assert(addm(mulm(q.0, 1), mulm(q.1, 0)) == q.0);
    assert(q.0 * 1int == q.0 && q.1 * 1int == q.1);
    assert(mulm(q.0, 1) == q.0);
    assert(subm(mulm(q.1, 1), 0) == q.1);
    assert(subm(1, 0) == 1);
    assert(mulm(q.1, 1) == q.1);
}

/// The walk collects nothing over a run of zero bits.
pub proof fn lemma_mul_loop_zeros(acc: (int, int), base: (int, int), bits: Seq<bool>)
    requires
        forall|i: int| 0 <= i < bits.len() ==> !(#[trigger] bits[i]),
    ensures
        mul_loop(acc, base, bits) == acc,
    decreases bits.len(),
{
    if bits.len() != 0 {
        assert(!bits[0]);
        lemma_mul_loop_zeros(acc, ed_add(base, base), bits.drop_first());
    }
}

/// Multiplying any point by the zero scalar gives the identity.
pub proof fn lemma_scalar_mul_zero(p: (int, int), len: nat)
    ensures
        spec_scalar_mul(p, bits_of(0, len)) == id_pt(),
{
    let bits = bits_of(0, len);
    assert forall|i: int| 0 <= i < bits.len() implies !(#[trigger] bits[i]) by {
        lemma_pow2_pos(i as nat);
        assert(0nat / pow2(i as nat) == 0);
    }
    lemma_mul_loop_zeros(id_pt(), p, bits);
}

/// Multiplying a well-formed point by the scalar one gives the point back.
pub proof fn lemma_scalar_mul_one(p: (int, int), len: nat)
    requires
        pt_wf(p),
        len >= 1,
    ensures
        spec_scalar_mul(p, bits_of(1, len)) == p,
{
    let bits = bits_of(1, len);
    lemma2_to64();
    assert(1nat / pow2(0) == 1);
    assert(bits[0]);
    assert forall|i: int| 1 <= i < bits.len() implies !(#[trigger] bits[i]) by {
        lemma_pow2_strictly_increases(0, i as nat);
        lemma_basic_div(1, pow2(i as nat) as int);
        assert(1nat / pow2(i as nat) == 0);
    }
    let rest = bits.drop_first();
    assert(mul_loop(id_pt(), p, bits) == mul_loop(ed_add(id_pt(), p), ed_add(p, p), rest));
    lemma_ed_add_identity_left(p);
    assert forall|i: int| 0 <= i < rest.len() implies !(#[trigger] rest[i]) by {
        assert(rest[i] == bits[i + 1]);
    }
    lemma_mul_loop_zeros(p, ed_add(p, p), rest);
}

/// Doubling by scalar multiplication agrees with adding a point to itself.
pub proof fn lemma_scalar_mul_two(p: (int, int), len: nat)
    requires
        pt_wf(p),
        len >= 2,
    ensures
        spec_scalar_mul(p, bits_of(2, len)) == ed_add(p, p),
{
    let m = fq_modulus();
    let bits = bits_of(2, len);
    lemma2_to64();
    assert(2nat / pow2(0) == 2);
    assert(!bits[0]);
    assert(2nat / pow2(1) == 1);
    assert(bits[1]);
    assert forall|i: int| 2 <= i < bits.len() implies !(#[trigger] bits[i]) by {
        lemma_pow2_strictly_increases(1, i as nat);
        lemma_basic_div(2, pow2(i as nat) as int);
        assert(2nat / pow2(i as nat) == 0);
    }
    let dbl = ed_add(p, p);
    assert(pt_wf(dbl)) by {
        lemma_mod_bound(
            (addm(mulm(p.0, p.1), mulm(p.1, p.0)) * fq_inv(
                addm(1, mulm(mulm(d_coeff(), mulm(p.0, p.0)), mulm(p.1, p.1))),
            )),
            m,
        );
        lemma_mod_bound(
            (subm(mulm(p.1, p.1), mulm(a_coeff(), mulm(p.0, p.0))) * fq_inv(
                subm(1, mulm(mulm(d_coeff(), mulm(p.0, p.0)), mulm(p.1, p.1))),
            )),
            m,
        );
    }
    let rest = bits.drop_first();
    assert(mul_loop(id_pt(), p, bits) == mul_loop(id_pt(), dbl, rest));
    assert(rest[0]);
    let rest2 = rest.drop_first();
    assert(mul_loop(id_pt(), dbl, rest) == mul_loop(
        ed_add(id_pt(), dbl),
        ed_add(dbl, dbl),
        rest2,
    ));
    lemma_ed_add_identity_left(dbl);
    assert forall|i: int| 0 <= i < rest2.len() implies !(#[trigger] rest2[i]) by {
        assert(rest2[i] == bits[i + 2]);
    }
    lemma_mul_loop_zeros(dbl, ed_add(dbl, dbl), rest2);
}

/// The identity point satisfies the curve equation.
pub proof fn lemma_identity_on_curve()
    ensures
        on_curve(id_pt()),
{
    let m = fq_modulus();
    assert(0int * 0int == 0 && 1int * 1int == 1);
    assert(0int % m == 0);
    lemma_small_mod(1nat, m as nat);
    assert(mulm(0, 0) == 0 && mulm(1, 1) == 1);
    assert(a_coeff() * 0int == 0 && d_coeff() * 0int == 0);
    assert(mulm(a_coeff(), 0) == 0 && mulm(d_coeff(), 0) == 0);
    assert(0int * 1int == 0);
    assert(mulm(0, 1) == 0);
    assert(addm(0, 1) == 1 && addm(1, 0) == 1);
}

/// The generator's published coordinates satisfy the curve equation.
#[verifier::rlimit(100)]
pub proof fn lemma_generator_on_curve()
    ensures
        on_curve(gen_pt()),
{
    let m = fq_modulus();
    let gx = gen_pt().0;
    let gy = gen_pt().1;
    assert(gx * gx == 28085964095778132631609172649422126285584974593223105561799241142103937603845930174767865374785436342888008422313039655396288491571402238604331428411809int);
    assert(28085964095778132631609172649422126285584974593223105561799241142103937603845930174767865374785436342888008422313039655396288491571402238604331428411809int % m == 607742042888016619569620746324513481149123972252924884615094806956300595521int) by { assert(28085964095778132631609172649422126285584974593223105561799241142103937603845930174767865374785436342888008422313039655396288491571402238604331428411809int == 1283152981270719112173590965168703648169485001952648533879912510875365050464int * m + 607742042888016619569620746324513481149123972252924884615094806956300595521int); lemma_fundamental_div_mod_converse_mod(28085964095778132631609172649422126285584974593223105561799241142103937603845930174767865374785436342888008422313039655396288491571402238604331428411809int, m, 1283152981270719112173590965168703648169485001952648533879912510875365050464int, 607742042888016619569620746324513481149123972252924884615094806956300595521int); }
    assert(gy * gy == 287307612090556472375534717731911792670219646872149593692098991055875451485143591690031627280272927273370038986091417116075064834855808358722256445049209int);
    assert(287307612090556472375534717731911792670219646872149593692098991055875451485143591690031627280272927273370038986091417116075064834855808358722256445049209int % m == 11976306643719063753190278949402960726252923955722022258665135291130529546895int) by { assert(287307612090556472375534717731911792670219646872149593692098991055875451485143591690031627280272927273370038986091417116075064834855808358722256445049209int == 13126115868359511340460820844889397414038424881599594996385915013151266539242int * m + 11976306643719063753190278949402960726252923955722022258665135291130529546895int); lemma_fundamental_div_mod_converse_mod(287307612090556472375534717731911792670219646872149593692098991055875451485143591690031627280272927273370038986091417116075064834855808358722256445049209int, m, 13126115868359511340460820844889397414038424881599594996385915013151266539242int, 11976306643719063753190278949402960726252923955722022258665135291130529546895int); }
    assert(168700int * 607742042888016619569620746324513481149123972252924884615094806956300595521int == 102526082635208403721395019904945424269857214119068428034566493933527910464392700int);
    assert(102526082635208403721395019904945424269857214119068428034566493933527910464392700int % m == 1553023513238580392855394160347755096675267519723168684105523606823470922672int) by { assert(102526082635208403721395019904945424269857214119068428034566493933527910464392700int == 4684int * m + 1553023513238580392855394160347755096675267519723168684105523606823470922672int); lemma_fundamental_div_mod_converse_mod(102526082635208403721395019904945424269857214119068428034566493933527910464392700int, m, 4684int, 1553023513238580392855394160347755096675267519723168684105523606823470922672int); }
    assert(1553023513238580392855394160347755096675267519723168684105523606823470922672int + 11976306643719063753190278949402960726252923955722022258665135291130529546895int == 13529330156957644146045673109750715822928191475445190942770658897954000469567int);
    assert(13529330156957644146045673109750715822928191475445190942770658897954000469567int % m == 13529330156957644146045673109750715822928191475445190942770658897954000469567int) by { assert(13529330156957644146045673109750715822928191475445190942770658897954000469567int == 0int * m + 13529330156957644146045673109750715822928191475445190942770658897954000469567int); lemma_fundamental_div_mod_converse_mod(13529330156957644146045673109750715822928191475445190942770658897954000469567int, m, 0int, 13529330156957644146045673109750715822928191475445190942770658897954000469567int); }
    assert(168696int * 607742042888016619569620746324513481149123972252924884615094806956300595521int == 102523651667036851654916741421960126215932617623179416335028033554300085262010616int);
    assert(102523651667036851654916741421960126215932617623179416335028033554300085262010616int % m == 21010298213525789136823316920306976260627136031127503489343348565574077036205int) by { assert(102523651667036851654916741421960126215932617623179416335028033554300085262010616int == 4683int * m + 21010298213525789136823316920306976260627136031127503489343348565574077036205int); lemma_fundamental_div_mod_converse_mod(102523651667036851654916741421960126215932617623179416335028033554300085262010616int, m, 4683int, 21010298213525789136823316920306976260627136031127503489343348565574077036205int); }
    assert(21010298213525789136823316920306976260627136031127503489343348565574077036205int * 11976306643719063753190278949402960726252923955722022258665135291130529546895int == 251625774081167684780219193119690135920279625545356874762126894120543435321039077922777743865503747867428989549071008152235746911769062681748663160333475int);
    assert(251625774081167684780219193119690135920279625545356874762126894120543435321039077922777743865503747867428989549071008152235746911769062681748663160333475int % m == 13529330156957644146045673109750715822928191475445190942770658897954000469566int) by { assert(251625774081167684780219193119690135920279625545356874762126894120543435321039077922777743865503747867428989549071008152235746911769062681748663160333475int == 11495933024614848857963212173440464936890529650372052372285924255415486834277int * m + 13529330156957644146045673109750715822928191475445190942770658897954000469566int); lemma_fundamental_div_mod_converse_mod(251625774081167684780219193119690135920279625545356874762126894120543435321039077922777743865503747867428989549071008152235746911769062681748663160333475int, m, 11495933024614848857963212173440464936890529650372052372285924255415486834277int, 13529330156957644146045673109750715822928191475445190942770658897954000469566int); }
    assert(1int + 13529330156957644146045673109750715822928191475445190942770658897954000469566int == 13529330156957644146045673109750715822928191475445190942770658897954000469567int);
    assert(13529330156957644146045673109750715822928191475445190942770658897954000469567int % m == 13529330156957644146045673109750715822928191475445190942770658897954000469567int) by { assert(13529330156957644146045673109750715822928191475445190942770658897954000469567int == 0int * m + 13529330156957644146045673109750715822928191475445190942770658897954000469567int); lemma_fundamental_div_mod_converse_mod(13529330156957644146045673109750715822928191475445190942770658897954000469567int, m, 0int, 13529330156957644146045673109750715822928191475445190942770658897954000469567int); }
}

} // verus!

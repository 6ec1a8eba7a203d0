//! Little-endian encodings shared by the field and scalar types.
//!
//! Values of both prime domains are held as four 64-bit little-endian limbs.
//! This module gives the mathematical meaning of that representation
//! (`limbs_val`), of little-endian byte and bit strings (`le_nat`, `nth_bit`),
//! and of canonical decimal strings (`dec_str`, `dec_val`), together with the
//! executable conversions and the lemmas that connect them.

use vstd::prelude::*;
use vstd::arithmetic::div_mod::*;
use vstd::arithmetic::power2::*;
use vstd::bits::*;

verus! {

/// The integer represented by four little-endian 64-bit limbs.
pub open spec fn limbs_val(l0: u64, l1: u64, l2: u64, l3: u64) -> nat {
    (l0 + l1 * pow2(64) + l2 * pow2(128) + l3 * pow2(192)) as nat
}

/// The integer represented by a little-endian byte string.
pub open spec fn le_nat(s: Seq<u8>) -> nat
    decreases s.len(),
{
    if s.len() == 0 {
        0
    } else {
        (s[0] + 256 * le_nat(s.drop_first())) as nat
    }
}

/// Byte `i` of the little-endian base-256 expansion of `v`.
pub open spec fn nth_byte(v: nat, i: nat) -> u8 {
    ((v / pow2(8 * i)) % 256) as u8
}

/// The first `len` bytes of the little-endian base-256 expansion of `v`.
pub open spec fn le_bytes(v: nat, len: nat) -> Seq<u8> {
    Seq::new(len, |i: int| nth_byte(v, i as nat))
}

/// Bit `i` of the little-endian binary expansion of `v`.
pub open spec fn nth_bit(v: nat, i: nat) -> bool {
    (v / pow2(i)) % 2 == 1
}

/// The first `len` bits of the little-endian binary expansion of `v`.
pub open spec fn bits_of(v: nat, len: nat) -> Seq<bool> {
    Seq::new(len, |i: int| nth_bit(v, i as nat))
}

/// Ground values of the powers of two at the limb boundaries.
pub proof fn lemma_pow2_limb_values()
    ensures
        pow2(0) == 1,
        pow2(64) == 0x10000000000000000,
        pow2(128) == 0x100000000000000000000000000000000,
        pow2(192) == 0x1000000000000000000000000000000000000000000000000,
        pow2(256) == 0x10000000000000000000000000000000000000000000000000000000000000000,
{
    lemma2_to64();
    lemma2_to64_rest();
    lemma_pow2_adds(64, 64);
    lemma_pow2_adds(64, 128);
    lemma_pow2_adds(64, 192);
}

/// The limb a digit position falls in: extracting bits or bytes from the
/// four-limb value is the same as extracting them from the right limb.
pub proof fn lemma_limbs_extract(l0: u64, l1: u64, l2: u64, l3: u64, k: nat, j: nat, c: nat)
    requires
        k < 4,
        1 <= c,
        j + c <= 64,
    ensures
        ({
            let v = limbs_val(l0, l1, l2, l3);
            let lk: u64 = if k == 0 { l0 } else if k == 1 { l1 } else if k == 2 { l2 } else { l3 };
            (v / pow2(64 * k + j)) % pow2(c) == ((lk as nat) / pow2(j)) % pow2(c)
        }),
{
    let v = limbs_val(l0, l1, l2, l3);
    let lk: u64 = if k == 0 { l0 } else if k == 1 { l1 } else if k == 2 { l2 } else { l3 };
    lemma_pow2_limb_values();
    let p64 = pow2(64);
    assert(pow2(64 * k) == if k == 0 { 1nat } else if k == 1 { p64 } else if k == 2 {
        pow2(128)
    } else {
        pow2(192)
    }) by {
        if k == 0 {
            assert(64 * k == 0);
        } else if k == 1 {
            assert(64 * k == 64);
        } else if k == 2 {
            assert(64 * k == 128);
        } else {
            assert(64 * k == 192);
        }
    }
    // Split v as lo + pow2(64k) * (lk + pow2(64) * hi) with lo < pow2(64k).
    let lo: nat = if k == 0 { 0 } else if k == 1 { l0 as nat } else if k == 2 {
        (l0 + l1 * p64) as nat
    } else {
        (l0 + l1 * p64 + l2 * pow2(128)) as nat
    };
    let hi: nat = if k == 0 { (l1 + l2 * p64 + l3 * pow2(128)) as nat } else if k == 1 {
        (l2 + l3 * p64) as nat
    } else if k == 2 {
        l3 as nat
    } else {
        0
    };
    assert(v == lo + pow2(64 * k) * (lk + p64 * hi) && lo < pow2(64 * k)) by (nonlinear_arith)
        requires
            k < 4,
            p64 == pow2(64),
            pow2(128) == p64 * p64,
            pow2(192) == p64 * pow2(128),
            pow2(0) == 1,
            pow2(64 * k) == if k == 0 { 1nat } else if k == 1 { p64 } else if k == 2 { pow2(128) } else { pow2(192) },
            l0 < p64,
            l1 < p64,
            l2 < p64,
            l3 < p64,
            v == limbs_val(l0, l1, l2, l3),
            v == (l0 + l1 * p64 + l2 * pow2(128) + l3 * pow2(192)) as nat,
            lo == (if k == 0 { 0nat } else if k == 1 { l0 as nat } else if k == 2 { (l0 + l1 * p64) as nat } else { (l0 + l1 * p64 + l2 * pow2(128)) as nat }),
            hi == (if k == 0 { (l1 + l2 * p64 + l3 * pow2(128)) as nat } else if k == 1 { (l2 + l3 * p64) as nat } else if k == 2 { l3 as nat } else { 0nat }),
            lk == (if k == 0 { l0 } else if k == 1 { l1 } else if k == 2 { l2 } else { l3 });
    let w: nat = (lk + p64 * hi) as nat;
    // v / pow2(64k) == w
    lemma_pow2_pos(64 * k);
    lemma_fundamental_div_mod_converse(v as int, pow2(64 * k) as int, w as int, lo as int);
    // v / pow2(64k + j) == w / pow2(j)
    lemma_pow2_pos(j);
    lemma_pow2_adds(64 * k, j);
    lemma_div_denominator(v as int, pow2(64 * k) as int, pow2(j) as int);
    assert(v / pow2(64 * k + j) == w / pow2(j));
    // w / pow2(j) == lk / pow2(j) + pow2(64 - j) * hi
    let q = (lk as nat) / pow2(j);
    let r = (lk as nat) % pow2(j);
    lemma_fundamental_div_mod(lk as int, pow2(j) as int);
    lemma_pow2_adds(j, (64 - j) as nat);
    assert(w == pow2(j) * (q + pow2((64 - j) as nat) * hi) + r) by (nonlinear_arith)
        requires
            w == lk + p64 * hi,
            lk == pow2(j) * q + r,
            p64 == pow2(j) * pow2((64 - j) as nat);
    lemma_mod_bound(lk as int, pow2(j) as int);
    lemma_fundamental_div_mod_converse(
        w as int,
        pow2(j) as int,
        (q + pow2((64 - j) as nat) * hi) as int,
        r as int,
    );
    assert(w / pow2(j) == q + pow2((64 - j) as nat) * hi);
    // Dropping the high part modulo pow2(c).
    lemma_pow2_pos(c);
    lemma_pow2_adds(c, (64 - j - c) as nat);
    assert(q + pow2((64 - j) as nat) * hi == pow2(c) * (pow2((64 - j - c) as nat) * hi) + q)
        by (nonlinear_arith)
        requires
            pow2((64 - j) as nat) == pow2(c) * pow2((64 - j - c) as nat);
    lemma_mod_multiples_vanish((pow2((64 - j - c) as nat) * hi) as int, q as int, pow2(c) as int);
}

/// Two limb vectors with the same value are equal limb by limb.
pub proof fn lemma_limbs_val_injective(
    a0: u64, a1: u64, a2: u64, a3: u64,
    b0: u64, b1: u64, b2: u64, b3: u64,
)
    requires
        limbs_val(a0, a1, a2, a3) == limbs_val(b0, b1, b2, b3),
    ensures
        a0 == b0 && a1 == b1 && a2 == b2 && a3 == b3,
{
    let v = limbs_val(a0, a1, a2, a3);
    lemma_pow2_limb_values();
    lemma_limbs_extract(a0, a1, a2, a3, 0, 0, 64);
    lemma_limbs_extract(b0, b1, b2, b3, 0, 0, 64);
    lemma_limbs_extract(a0, a1, a2, a3, 1, 0, 64);
    lemma_limbs_extract(b0, b1, b2, b3, 1, 0, 64);
    lemma_limbs_extract(a0, a1, a2, a3, 2, 0, 64);
    lemma_limbs_extract(b0, b1, b2, b3, 2, 0, 64);
    lemma_limbs_extract(a0, a1, a2, a3, 3, 0, 64);
    lemma_limbs_extract(b0, b1, b2, b3, 3, 0, 64);
    lemma_small_mod(a0 as nat, pow2(64));
    lemma_small_mod(a1 as nat, pow2(64));
    lemma_small_mod(a2 as nat, pow2(64));
    lemma_small_mod(a3 as nat, pow2(64));
    lemma_small_mod(b0 as nat, pow2(64));
    lemma_small_mod(b1 as nat, pow2(64));
    lemma_small_mod(b2 as nat, pow2(64));
    lemma_small_mod(b3 as nat, pow2(64));
    assert((a0 as nat) / pow2(0) == a0 as nat);
    assert((a1 as nat) / pow2(0) == a1 as nat);
    assert((a2 as nat) / pow2(0) == a2 as nat);
    assert((a3 as nat) / pow2(0) == a3 as nat);
    assert((b0 as nat) / pow2(0) == b0 as nat);
    assert((b1 as nat) / pow2(0) == b1 as nat);
    assert((b2 as nat) / pow2(0) == b2 as nat);
    assert((b3 as nat) / pow2(0) == b3 as nat);
}

/// Little-endian bytes of a value below `pow2(8 * len)` read back as the value.
pub proof fn lemma_le_nat_le_bytes(v: nat, len: nat)
    ensures
        le_nat(le_bytes(v, len)) == v % pow2(8 * len),
    decreases len,
{
    lemma2_to64();
    if len == 0 {
        assert(le_bytes(v, 0).len() == 0);
        assert(v % 1 == 0) by (nonlinear_arith);
    } else {
        let s = le_bytes(v, len);
        let rest = le_bytes(v / 256, (len - 1) as nat);
        assert(s.drop_first() =~= rest) by {
            assert forall|i: int| 0 <= i < len - 1 implies s.drop_first()[i] == rest[i] by {
                lemma_pow2_adds(8, (8 * i) as nat);
                lemma_pow2_pos((8 * i) as nat);
                lemma_div_denominator(v as int, 256, pow2((8 * i) as nat) as int);
                assert(8 * (i + 1) == 8 + 8 * i);
                assert(s.drop_first()[i] == nth_byte(v, (i + 1) as nat));
                assert((v / pow2((8 * (i + 1)) as nat)) == (v / 256) / pow2((8 * i) as nat));
            }
        }
        lemma_le_nat_le_bytes(v / 256, (len - 1) as nat);
        assert(s[0] == nth_byte(v, 0));
        assert(v / pow2(0) == v);
        lemma_pow2_pos(8 * (len - 1) as nat);
        lemma_mod_breakdown(v as int, 256, pow2((8 * (len - 1)) as nat) as int);
        lemma_pow2_adds(8, (8 * (len - 1)) as nat);
        assert(le_nat(s) == s[0] + 256 * le_nat(s.drop_first()));
    }
}

/// The 32 little-endian bytes of a four-limb value.
pub(crate) fn limbs_to_bytes_le(l0: u64, l1: u64, l2: u64, l3: u64) -> (r: Vec<u8>)
    ensures
        r@ == le_bytes(limbs_val(l0, l1, l2, l3), 32),
{
    let ghost v = limbs_val(l0, l1, l2, l3);
    let mut r: Vec<u8> = Vec::new();
    let mut i: usize = 0;
    while i < 32
        invariant
            i <= 32,
            r@.len() == i,
            v == limbs_val(l0, l1, l2, l3),
            forall|t: int| 0 <= t < i ==> r@[t] == nth_byte(v, t as nat),
        decreases 32 - i,
    {
        let k: usize = i / 8;
        let j: usize = i % 8;
        let lk: u64 = if k == 0 { l0 } else if k == 1 { l1 } else if k == 2 { l2 } else { l3 };
        let sh: u64 = 8 * (j as u64);
        let byte: u8 = ((lk >> sh) & 0xff) as u8;
        proof {
            lemma2_to64();
            lemma_limbs_extract(l0, l1, l2, l3, k as nat, (8 * j) as nat, 8);
            lemma_u64_shr_is_div(lk, sh);
            lemma_u64_low_bits_mask_is_mod(lk >> sh, 8);
            lemma_low_bits_mask_values();
            assert(64 * (k as nat) + 8 * (j as nat) == 8 * (i as nat));
            assert(byte as nat == ((lk as nat) / pow2((8 * j) as nat)) % 256);
            assert(byte == nth_byte(v, i as nat));
        }
        r.push(byte);
        i += 1;
    }
    proof {
        assert(r@ =~= le_bytes(v, 32));
    }
    r
}

/// The low `nbits` bits of a four-limb value, little-endian.
pub(crate) fn limbs_to_bits_le(l0: u64, l1: u64, l2: u64, l3: u64, nbits: usize) -> (r: Vec<bool>)
    requires
        nbits <= 256,
    ensures
        r@ == bits_of(limbs_val(l0, l1, l2, l3), nbits as nat),
{
    let ghost v = limbs_val(l0, l1, l2, l3);
    let mut r: Vec<bool> = Vec::new();
    let mut i: usize = 0;
    while i < nbits
        invariant
            i <= nbits,
            nbits <= 256,
            r@.len() == i,
            v == limbs_val(l0, l1, l2, l3),
            forall|t: int| 0 <= t < i ==> r@[t] == nth_bit(v, t as nat),
        decreases nbits - i,
    {
        let k: usize = i / 64;
        let j: usize = i % 64;
        let lk: u64 = if k == 0 { l0 } else if k == 1 { l1 } else if k == 2 { l2 } else { l3 };
        let bit: bool = ((lk >> (j as u64)) & 1) == 1;
        proof {
            lemma2_to64();
            lemma_limbs_extract(l0, l1, l2, l3, k as nat, j as nat, 1);
            lemma_u64_shr_is_div(lk, j as u64);
            lemma_u64_low_bits_mask_is_mod(lk >> (j as u64), 1);
            lemma_low_bits_mask_values();
            assert(64 * (k as nat) + (j as nat) == i as nat);
            assert(bit == (((lk as nat) / pow2(j as nat)) % 2 == 1));
            assert(bit == nth_bit(v, i as nat));
        }
        r.push(bit);
        i += 1;
    }
    proof {
        assert(r@ =~= bits_of(v, nbits as nat));
    }
    r
}

/// The character for one decimal digit.
pub open spec fn dec_digit(d: nat) -> char {
    if d == 0 { '0' } else if d == 1 { '1' } else if d == 2 { '2' } else if d == 3 { '3' }
    else if d == 4 { '4' } else if d == 5 { '5' } else if d == 6 { '6' } else if d == 7 { '7' }
    else if d == 8 { '8' } else { '9' }
}

/// The canonical decimal string of a natural number: no sign, no leading
/// zeroes, and the single digit `0` for zero.
pub open spec fn dec_str(v: nat) -> Seq<char>
    decreases v,
{
    if v < 10 {
        seq![dec_digit(v)]
    } else {
        dec_str(v / 10).push(dec_digit(v % 10))
    }
}

/// Whether a character is a decimal digit.
pub open spec fn is_dec_digit(c: char) -> bool {
    48 <= c as u32 <= 57
}

/// The value of one decimal digit character.
pub open spec fn char_digit(c: char) -> nat {
    (c as u32 - 48) as nat
}

/// The unsigned integer a decimal digit string denotes.
pub open spec fn dec_val(s: Seq<char>) -> nat
    decreases s.len(),
{
    if s.len() == 0 {
        0
    } else {
        (dec_val(s.drop_last()) * 10 + char_digit(s.last())) as nat
    }
}

/// Every character of a canonical decimal string is a decimal digit.
pub proof fn lemma_dec_str_digits(v: nat)
    ensures
        forall|i: int| 0 <= i < dec_str(v).len() ==> is_dec_digit(#[trigger] dec_str(v)[i]),
    decreases v,
{
    if v < 10 {
        assert(dec_str(v) =~= seq![dec_digit(v)]);
        assert(is_dec_digit(dec_digit(v)));
    } else {
        lemma_dec_str_digits(v / 10);
        let s = dec_str(v / 10);
        assert(dec_str(v) =~= s.push(dec_digit(v % 10)));
        assert(is_dec_digit(dec_digit(v % 10)));
        assert forall|i: int| 0 <= i < dec_str(v).len() implies is_dec_digit(
            #[trigger] dec_str(v)[i],
        ) by {
            if i < s.len() {
                assert(dec_str(v)[i] == s[i]);
            } else {
                assert(dec_str(v)[i] == dec_digit(v % 10));
            }
        }
    }
}

/// Printing and parsing decimal are inverse: the canonical decimal string of
/// a value reads back as that value.
pub proof fn lemma_dec_round_trip(v: nat)
    ensures
        dec_val(dec_str(v)) == v,
    decreases v,
{
    reveal_with_fuel(dec_val, 2);
    if v < 10 {
        let s = dec_str(v);
        assert(s =~= seq![dec_digit(v)]);
        assert(s.drop_last() =~= Seq::<char>::empty());
        assert(s.last() == dec_digit(v));
        assert(char_digit(dec_digit(v)) == v);
    } else {
        lemma_dec_round_trip(v / 10);
        let s = dec_str(v);
        assert(s == dec_str(v / 10).push(dec_digit(v % 10)));
        assert(s.drop_last() =~= dec_str(v / 10));
        assert(s.last() == dec_digit(v % 10));
        assert(char_digit(dec_digit(v % 10)) == v % 10);
        vstd::arithmetic::div_mod::lemma_fundamental_div_mod(v as int, 10);
        assert(dec_val(s.drop_last()) == v / 10);
        assert(char_digit(s.last()) == v % 10);
    }
}

/// Relies on `num_bigint::BigUint`: `from_bytes_le` reads the bytes as a
/// little-endian unsigned integer, and `to_string` renders it as canonical
/// decimal (no sign, no leading zeroes, `"0"` for zero).
#[verifier::external_body]
pub(crate) fn dec_of_le_bytes_raw(bytes: &Vec<u8>) -> (r: String)
    ensures
        r@ == dec_str(le_nat(bytes@)),
{
    num_bigint::BigUint::from_bytes_le(bytes.as_slice()).to_string()
}

} // verus!

//! Key generation for Schnorr signatures over BabyJubJub.
//!
//! A private key is a scalar sk of the subgroup field; the public key is the
//! curve point PK = sk·G.  That binding is the keypair's invariant (`wf`),
//! established by both constructors and required by the signing contract.

use vstd::prelude::*;
use crate::curve::{gen_pt, spec_scalar_mul, BjjPoint};
use crate::encode::bits_of;
use crate::field::Fp;
use crate::scalar::BjjScalar;

verus! {

/// The public key a secret scalar determines: sk·G over the 253-bit walk.
pub open spec fn spec_pk(sk: nat) -> (int, int) {
    spec_scalar_mul(gen_pt(), bits_of(sk, 253))
}

/// A Schnorr public key: a point on BabyJubJub.
#[derive(Clone, Copy, Debug)]
pub struct PublicKey {
    pub point: BjjPoint,
}

/// A Schnorr keypair over BabyJubJub.
#[derive(Clone, Copy, Debug)]
pub struct KeyPair {
    /// Secret scalar sk of the subgroup field.
    pub sk: BjjScalar,
    /// Public key PK = sk·G.
    pub pk: PublicKey,
}

impl KeyPair {
    /// The keypair invariant: both halves canonical, and PK = sk·G.
    pub open spec fn wf(self) -> bool {
        self.sk.wf() && self.pk.point.wf() && self.pk.point@ == spec_pk(self.sk@)
    }

    /// Generate a fresh keypair from operating-system randomness.
    pub fn generate() -> (r: KeyPair)
        ensures
            r.wf(),
    {
        let sk = BjjScalar::random();
        Self::from_private_key(sk)
    }

    /// Derive the keypair of an existing private scalar.
    pub fn from_private_key(sk: BjjScalar) -> (r: KeyPair)
        requires
            sk.wf(),
        ensures
            r.wf(),
            r.sk == sk,
    {
        let g = BjjPoint::generator();
        let pk_point = g.scalar_mul(&sk);
        KeyPair { sk, pk: PublicKey { point: pk_point } }
    }
}

impl PublicKey {
    /// The affine (x, y) coordinates of the public key.
    pub fn coords(&self) -> (r: (Fp, Fp))
        ensures
            r.0 == self.point.x,
            r.1 == self.point.y,
    {
        self.point.coords()
    }
}

} // verus!

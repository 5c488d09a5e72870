//! The field element type and its arithmetic.
use vstd::prelude::*;
use vstd::arithmetic::power2::pow2;
use crate::limbs::{
    limbs_value, modulus, limbs8_bound, fit_limbs, lemma_fit_limbs, lemma_limbs8_bound,
};
use crate::bignum::big_mod;

verus! {

/// Sum of two residues.
pub open spec fn field_add(x: nat, y: nat) -> nat {
    (x + y) % modulus()
}

/// Difference of two residues.
pub open spec fn field_sub(x: nat, y: nat) -> nat {
    ((x - y) % (modulus() as int)) as nat
}

/// Additive inverse of a residue.
pub open spec fn field_neg(x: nat) -> nat {
    ((0 - x) % (modulus() as int)) as nat
}

/// Product of two residues.
pub open spec fn field_mul(x: nat, y: nat) -> nat {
    (x * y) % modulus()
}

/// An element of the secp256k1 base field, held as eight little-endian
/// 32-bit limbs. The stored integer may be any value below 2^256: it stands
/// for its residue modulo the field's prime.
#[derive(Copy, Clone)]
pub struct Secp256K1Base(pub [u32; 8]);

/// The limbs of the field's prime.
pub const ORDER_LIMBS: [u32; 8] = [
    0xFFFFFC2F, 0xFFFFFFFE, 0xFFFFFFFF, 0xFFFFFFFF, 0xFFFFFFFF, 0xFFFFFFFF, 0xFFFFFFFF, 0xFFFFFFFF,
];

/// The prime's limbs hold the prime, which eight limbs can hold.
pub proof fn lemma_order_limbs()
    ensures
        limbs_value(ORDER_LIMBS@) == modulus(),
        modulus() < limbs8_bound(),
{
    reveal_with_fuel(limbs_value, 9);
    lemma_limbs8_bound();
}

/// The limb at `i`, or zero past the end.
fn limb_or_zero(v: &[u32], i: usize) -> (r: u32)
    ensures
        r == (if i < v@.len() { v@[i as int] } else { 0u32 }),
{
    if i < v.len() {
        v[i]
    } else {
        0
    }
}

impl Secp256K1Base {
    /// The element 0.
    pub fn zero() -> (r: Self)
        ensures
            r.value() == 0,
    {
        proof { reveal_with_fuel(limbs_value, 9); }
        Secp256K1Base([0, 0, 0, 0, 0, 0, 0, 0])
    }

    /// The element 1.
    pub fn one() -> (r: Self)
        ensures
            r.value() == 1,
    {
        proof { reveal_with_fuel(limbs_value, 9); }
        Secp256K1Base([1, 0, 0, 0, 0, 0, 0, 0])
    }

    /// The element 2.
    pub fn two() -> (r: Self)
        ensures
            r.value() == 2,
    {
        proof { reveal_with_fuel(limbs_value, 9); }
        Secp256K1Base([2, 0, 0, 0, 0, 0, 0, 0])
    }

    /// The element -1, that is the prime less one.
    pub fn neg_one() -> (r: Self)
        ensures
            r.value() == modulus() - 1,
    {
        proof { reveal_with_fuel(limbs_value, 9); }
        Secp256K1Base([
            0xFFFFFC2E, 0xFFFFFFFE, 0xFFFFFFFF, 0xFFFFFFFF, 0xFFFFFFFF, 0xFFFFFFFF, 0xFFFFFFFF,
            0xFFFFFFFF,
        ])
    }

    /// The integer held in the limbs.
    pub open spec fn value(self) -> nat {
        limbs_value(self.0@)
    }

    /// The residue that the element stands for.
    pub open spec fn canonical(self) -> nat {
        self.value() % modulus()
    }

    /// The stored integer is the residue itself.
    pub open spec fn is_canonical(self) -> bool {
        self.value() < modulus()
    }

    /// The limbs of the field's prime.
    pub fn order() -> (r: [u32; 8])
        ensures
            limbs_value(r@) == modulus(),
    {
        proof { lemma_order_limbs(); }
        ORDER_LIMBS
    }

    /// The field's characteristic, which is its prime, as limbs.
    pub fn characteristic() -> (r: [u32; 8])
        ensures
            limbs_value(r@) == modulus(),
    {
        proof { lemma_order_limbs(); }
        ORDER_LIMBS
    }

    /// The two-adicity: the largest `k` such that `2^k` divides `p - 1`.
    pub fn two_adicity() -> (r: usize)
        ensures
            (modulus() - 1) % (pow2(r as nat) as int) == 0,
            (modulus() - 1) % (pow2((r + 1) as nat) as int) != 0,
    {
        proof {
            vstd::arithmetic::power2::lemma2_to64();
            lemma_limbs8_bound();
            assert((modulus() - 1) % 2 == 0);
            assert((modulus() - 1) % 4 == 2);
        }
        1
    }

    /// The residue, as little-endian limbs.
    pub fn to_canonical_biguint(&self) -> (r: Vec<u32>)
        ensures
            limbs_value(r@) == self.canonical(),
    {
        let order = ORDER_LIMBS;
        proof { lemma_order_limbs(); }
        big_mod(&self.0, &order)
    }

    /// The element held in the lowest eight limbs of `digits`. Higher limbs
    /// are dropped: a caller that needs the value kept passes one below 2^256.
    pub fn from_biguint(digits: &[u32]) -> (r: Self)
        ensures
            r.value() == limbs_value(digits@) % limbs8_bound(),
    {
        let r = Secp256K1Base([
            limb_or_zero(digits, 0),
            limb_or_zero(digits, 1),
            limb_or_zero(digits, 2),
            limb_or_zero(digits, 3),
            limb_or_zero(digits, 4),
            limb_or_zero(digits, 5),
            limb_or_zero(digits, 6),
            limb_or_zero(digits, 7),
        ]);
        proof {
            assert(r.0@ =~= fit_limbs(digits@, 8));
            lemma_fit_limbs(digits@, 8);
            lemma_limbs8_bound();
        }
        r
    }

    /// The same residue, stored reduced.
    pub fn to_canonical(&self) -> (r: Self)
        ensures
            r.value() == self.canonical(),
            r.is_canonical(),
    {
        let c = self.to_canonical_biguint();
        proof {
            lemma_order_limbs();
            vstd::arithmetic::div_mod::lemma_small_mod(self.canonical(), limbs8_bound());
        }
        Self::from_biguint(c.as_slice())
    }
}

} // verus!

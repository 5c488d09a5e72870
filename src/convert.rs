//! Elements from native integers and from random limbs; decimal text and
//! the digits that hashing reads.
use vstd::prelude::*;
use crate::limbs::{limbs_value, limbs64_value, limb_base, modulus, decimal_digits};
use crate::bignum::{big_lt, big_to_decimal, big_u64_digits};
use crate::field::{Secp256K1Base, ORDER_LIMBS, lemma_order_limbs};

verus! {

/// A 64-bit integer splits into its low and high 32-bit halves.
proof fn lemma_split_u64(n: u64)
    ensures
        n as nat == (n as u32) as nat + limb_base() * ((n >> 32) as u32) as nat,
{
    assert((n as u32) as u64 == n % 0x1_0000_0000) by (bit_vector);
    assert(((n >> 32) as u32) as u64 == n / 0x1_0000_0000) by (bit_vector);
}

/// A 128-bit integer splits into four 32-bit limbs.
proof fn lemma_split_u128(n: u128)
    ensures
        n as nat == (n as u32) as nat + limb_base() * (((n >> 32) as u32) as nat + limb_base() * (
        ((n >> 64) as u32) as nat + limb_base() * ((n >> 96) as u32) as nat)),
{
    let b: u128 = 0x1_0000_0000;
    assert((n as u32) as u128 == n % 0x1_0000_0000) by (bit_vector);
    assert(((n >> 32) as u32) as u128 == (n / 0x1_0000_0000) % 0x1_0000_0000) by (bit_vector);
    assert(((n >> 64) as u32) as u128 == (n / 0x1_0000_0000_0000_0000) % 0x1_0000_0000)
        by (bit_vector);
    assert(((n >> 96) as u32) as u128 == n / 0x1_0000_0000_0000_0000_0000_0000) by (bit_vector);
    assert(n / 0x1_0000_0000_0000_0000 == (n / 0x1_0000_0000) / 0x1_0000_0000) by (bit_vector);
    assert(n / 0x1_0000_0000_0000_0000_0000_0000 == (n / 0x1_0000_0000_0000_0000) / 0x1_0000_0000)
        by (bit_vector);
}

impl Secp256K1Base {
    /// The element `n`.
    pub fn from_canonical_u64(n: u64) -> (r: Self)
        ensures
            r.value() == n,
            r.is_canonical(),
    {
        proof {
            reveal_with_fuel(limbs_value, 9);
            lemma_split_u64(n);
            lemma_order_limbs();
        }
        Secp256K1Base([n as u32, (n >> 32) as u32, 0, 0, 0, 0, 0, 0])
    }

    /// The element `n.0 * 2^32 + n.1`: the pair is the high 64 bits and
    /// the low 32 bits of a 96-bit integer.
    pub fn from_noncanonical_u96(n: (u64, u32)) -> (r: Self)
        ensures
            r.value() == n.0 * 0x1_0000_0000 + n.1,
            r.is_canonical(),
    {
        proof {
            reveal_with_fuel(limbs_value, 9);
            lemma_split_u64(n.0);
            lemma_order_limbs();
        }
        Secp256K1Base([n.1, n.0 as u32, (n.0 >> 32) as u32, 0, 0, 0, 0, 0])
    }

    /// The element `n`.
    pub fn from_noncanonical_u128(n: u128) -> (r: Self)
        ensures
            r.value() == n,
            r.is_canonical(),
    {
        proof {
            reveal_with_fuel(limbs_value, 9);
            lemma_split_u128(n);
            lemma_order_limbs();
        }
        Secp256K1Base([
            n as u32,
            (n >> 32) as u32,
            (n >> 64) as u32,
            (n >> 96) as u32,
            0,
            0,
            0,
            0,
        ])
    }

    /// One draw of rejection sampling: the element held in `limbs` when it
    /// is below the prime, else `None` (draw again).
    pub fn from_random_limbs(limbs: [u32; 8]) -> (r: Option<Self>)
        ensures
            r.is_some() == (limbs_value(limbs@) < modulus()),
            r matches Some(x) ==> x.0 == limbs && x.is_canonical(),
    {
        let order = ORDER_LIMBS;
        proof { lemma_order_limbs(); }
        if big_lt(&limbs, &order) {
            Some(Secp256K1Base(limbs))
        } else {
            None
        }
    }

    /// The residue in decimal.
    pub fn to_string(&self) -> (r: String)
        ensures
            r@ == decimal_digits(self.canonical()),
    {
        let c = self.to_canonical_biguint();
        big_to_decimal(c.as_slice())
    }

    /// The 64-bit digits of the residue, least significant first, with no
    /// zero digit at the top: what hashing reads, so that equal elements
    /// hash alike whatever their limbs.
    pub fn hash_digits(&self) -> (r: Vec<u64>)
        ensures
            limbs64_value(r@) == self.canonical(),
            r@.len() == 0 || r@.last() != 0,
    {
        let c = self.to_canonical_biguint();
        big_u64_digits(c.as_slice())
    }
}

impl Default for Secp256K1Base {
    fn default() -> (r: Self)
        ensures
            r.value() == 0,
    {
        Secp256K1Base::zero()
    }
}

} // verus!

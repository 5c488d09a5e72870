//! Field arithmetic: equality, negation, addition, subtraction and
//! multiplication, each on the residues that the operands stand for.
use vstd::prelude::*;
use crate::limbs::{limbs_value, modulus, limbs8_bound};
use crate::bignum::{big_mod, big_add, big_sub, big_mul, big_lt, big_eq};
use crate::field::{
    Secp256K1Base, ORDER_LIMBS, lemma_order_limbs, field_add, field_sub, field_neg, field_mul,
};

verus! {

/// A residue below the prime is stored unchanged by `from_biguint`.
proof fn lemma_fits(x: nat)
    requires
        x < modulus(),
    ensures
        x % limbs8_bound() == x,
        x % modulus() == x,
{
    lemma_order_limbs();
    vstd::arithmetic::div_mod::lemma_small_mod(x, limbs8_bound());
    vstd::arithmetic::div_mod::lemma_small_mod(x, modulus());
}

/// A value in `[p, 2p)` less `p` is its residue.
proof fn lemma_reduce_once(x: nat)
    requires
        modulus() <= x < 2 * modulus(),
    ensures
        (x - modulus()) as nat % modulus() == x % modulus(),
        x % modulus() == x - modulus(),
{
    lemma_order_limbs();
    vstd::arithmetic::div_mod::lemma_fundamental_div_mod_converse(
        x as int,
        modulus() as int,
        1,
        x - modulus(),
    );
    lemma_fits((x - modulus()) as nat);
}

impl Secp256K1Base {
    /// Whether the element stands for zero.
    pub fn is_zero(&self) -> (r: bool)
        ensures
            r == (self.canonical() == 0),
    {
        let c = self.to_canonical_biguint();
        let z: [u32; 0] = [];
        proof { assert(limbs_value(z@) == 0); }
        big_eq(c.as_slice(), &z)
    }
}

impl PartialEq for Secp256K1Base {
    /// Equal when the residues are equal, whatever the stored limbs.
    fn eq(&self, other: &Self) -> (r: bool)
        ensures
            r == (self.canonical() == other.canonical()),
    {
        let a = self.to_canonical_biguint();
        let b = other.to_canonical_biguint();
        big_eq(a.as_slice(), b.as_slice())
    }
}

impl vstd::std_specs::cmp::PartialEqSpecImpl for Secp256K1Base {
    open spec fn obeys_eq_spec() -> bool {
        true
    }

    open spec fn eq_spec(&self, other: &Secp256K1Base) -> bool {
        self.canonical() == other.canonical()
    }
}

impl Eq for Secp256K1Base {

}

impl core::ops::Neg for Secp256K1Base {
    type Output = Secp256K1Base;

    fn neg(self) -> (r: Secp256K1Base)
        ensures
            r.value() == field_neg(self.canonical()),
            r.is_canonical(),
    {
        let c = self.to_canonical_biguint();
        proof { lemma_order_limbs(); }
        if self.is_zero() {
            Secp256K1Base::zero()
        } else {
            let order = ORDER_LIMBS;
            let d = big_sub(&order, c.as_slice());
            proof {
                let x = self.canonical();
                lemma_fits((modulus() - x) as nat);
                vstd::arithmetic::div_mod::lemma_fundamental_div_mod_converse(
                    0 - x,
                    modulus() as int,
                    -1,
                    modulus() - x,
                );
            }
            Secp256K1Base::from_biguint(d.as_slice())
        }
    }
}

impl vstd::std_specs::ops::NegSpecImpl for Secp256K1Base {
    open spec fn obeys_neg_spec() -> bool {
        false
    }

    open spec fn neg_req(self) -> bool {
        true
    }

    /// Left open: `obeys_neg_spec` is false, and the result is stated by the
    /// method\'s own `ensures` over residues instead.
    open spec fn neg_spec(self) -> Secp256K1Base {
        arbitrary()
    }
}

/// The sum below `2p` of two residues, brought below `p`.
fn reduce_sum(s: Vec<u32>) -> (r: Secp256K1Base)
    requires
        limbs_value(s@) < 2 * modulus(),
    ensures
        r.value() == limbs_value(s@) % modulus(),
        r.is_canonical(),
{
    let order = ORDER_LIMBS;
    proof { lemma_order_limbs(); }
    if big_lt(s.as_slice(), &order) {
        proof { lemma_fits(limbs_value(s@)); }
        Secp256K1Base::from_biguint(s.as_slice())
    } else {
        let d = big_sub(s.as_slice(), &order);
        proof {
            lemma_reduce_once(limbs_value(s@));
            lemma_fits(limbs_value(d@));
        }
        Secp256K1Base::from_biguint(d.as_slice())
    }
}

impl core::ops::Add for Secp256K1Base {
    type Output = Secp256K1Base;

    fn add(self, rhs: Secp256K1Base) -> (r: Secp256K1Base)
        ensures
            r.value() == field_add(self.canonical(), rhs.canonical()),
            r.is_canonical(),
    {
        let a = self.to_canonical_biguint();
        let b = rhs.to_canonical_biguint();
        let s = big_add(a.as_slice(), b.as_slice());
        reduce_sum(s)
    }
}

impl vstd::std_specs::ops::AddSpecImpl for Secp256K1Base {
    open spec fn obeys_add_spec() -> bool {
        false
    }

    open spec fn add_req(self, rhs: Secp256K1Base) -> bool {
        true
    }

    /// Left open: `obeys_add_spec` is false, and the result is stated by the
    /// method\'s own `ensures` over residues instead.
    open spec fn add_spec(self, rhs: Secp256K1Base) -> Secp256K1Base {
        arbitrary()
    }
}

impl core::ops::Sub for Secp256K1Base {
    type Output = Secp256K1Base;

    fn sub(self, rhs: Secp256K1Base) -> (r: Secp256K1Base)
        ensures
            r.value() == field_sub(self.canonical(), rhs.canonical()),
            r.is_canonical(),
    {
        let a = self.to_canonical_biguint();
        let b = rhs.to_canonical_biguint();
        let order = ORDER_LIMBS;
        proof { lemma_order_limbs(); }
        let s = big_add(a.as_slice(), &order);
        let d = big_sub(s.as_slice(), b.as_slice());
        proof {
            let x = self.canonical() as int;
            let y = rhs.canonical() as int;
            let p = modulus() as int;
            vstd::arithmetic::div_mod::lemma_mod_add_multiples_vanish(x - y, p);
        }
        reduce_sum(d)
    }
}

impl vstd::std_specs::ops::SubSpecImpl for Secp256K1Base {
    open spec fn obeys_sub_spec() -> bool {
        false
    }

    open spec fn sub_req(self, rhs: Secp256K1Base) -> bool {
        true
    }

    /// Left open: `obeys_sub_spec` is false, and the result is stated by the
    /// method\'s own `ensures` over residues instead.
    open spec fn sub_spec(self, rhs: Secp256K1Base) -> Secp256K1Base {
        arbitrary()
    }
}

impl core::ops::Mul for Secp256K1Base {
    type Output = Secp256K1Base;

    fn mul(self, rhs: Secp256K1Base) -> (r: Secp256K1Base)
        ensures
            r.value() == field_mul(self.canonical(), rhs.canonical()),
            r.is_canonical(),
    {
        let a = self.to_canonical_biguint();
        let b = rhs.to_canonical_biguint();
        let order = ORDER_LIMBS;
        proof { lemma_order_limbs(); }
        let m = big_mod(big_mul(a.as_slice(), b.as_slice()).as_slice(), &order);
        proof {
            vstd::arithmetic::div_mod::lemma_mod_bound(
                (self.canonical() * rhs.canonical()) as int,
                modulus() as int,
            );
            lemma_fits(limbs_value(m@));
        }
        Secp256K1Base::from_biguint(m.as_slice())
    }
}

impl vstd::std_specs::ops::MulSpecImpl for Secp256K1Base {
    open spec fn obeys_mul_spec() -> bool {
        false
    }

    open spec fn mul_req(self, rhs: Secp256K1Base) -> bool {
        true
    }

    /// Left open: `obeys_mul_spec` is false, and the result is stated by the
    /// method\'s own `ensures` over residues instead.
    open spec fn mul_spec(self, rhs: Secp256K1Base) -> Secp256K1Base {
        arbitrary()
    }
}

/// The sum of the residues of `s`, reduced at each step.
pub open spec fn sum_of(s: Seq<Secp256K1Base>) -> nat
    decreases s.len(),
{
    if s.len() == 0 {
        0
    } else {
        field_add(sum_of(s.drop_last()), s.last().canonical())
    }
}

/// The product of the residues of `s`, reduced at each step.
pub open spec fn product_of(s: Seq<Secp256K1Base>) -> nat
    decreases s.len(),
{
    if s.len() == 0 {
        1
    } else {
        field_mul(product_of(s.drop_last()), s.last().canonical())
    }
}

impl Secp256K1Base {
    pub fn add_assign(&mut self, rhs: Self)
        ensures
            final(self).value() == field_add(old(self).canonical(), rhs.canonical()),
            final(self).is_canonical(),
    {
        *self = *self + rhs;
    }

    pub fn sub_assign(&mut self, rhs: Self)
        ensures
            final(self).value() == field_sub(old(self).canonical(), rhs.canonical()),
            final(self).is_canonical(),
    {
        *self = *self - rhs;
    }

    pub fn mul_assign(&mut self, rhs: Self)
        ensures
            final(self).value() == field_mul(old(self).canonical(), rhs.canonical()),
            final(self).is_canonical(),
    {
        *self = *self * rhs;
    }

    /// The sum of all items; zero for none.
    pub fn sum(items: &[Self]) -> (r: Self)
        ensures
            r.value() == sum_of(items@),
            r.is_canonical(),
    {
        let mut acc = Self::zero();
        let mut i: usize = 0;
        proof {
            lemma_order_limbs();
            assert(items@.take(0) =~= Seq::<Secp256K1Base>::empty());
        }
        while i < items.len()
            invariant
                i <= items@.len(),
                acc.value() == sum_of(items@.take(i as int)),
                acc.is_canonical(),
            decreases items@.len() - i,
        {
            proof {
                assert(items@.take(i + 1).drop_last() =~= items@.take(i as int));
                lemma_fits(acc.value());
            }
            acc = acc + items[i];
            i = i + 1;
        }
        proof {
            assert(items@.take(i as int) =~= items@);
        }
        acc
    }

    /// The product of all items; one for none.
    pub fn product(items: &[Self]) -> (r: Self)
        ensures
            r.value() == product_of(items@),
            r.is_canonical(),
    {
        let mut acc = Self::one();
        let mut i: usize = 0;
        proof {
            lemma_order_limbs();
            assert(items@.take(0) =~= Seq::<Secp256K1Base>::empty());
        }
        while i < items.len()
            invariant
                i <= items@.len(),
                acc.value() == product_of(items@.take(i as int)),
                acc.is_canonical(),
            decreases items@.len() - i,
        {
            proof {
                assert(items@.take(i + 1).drop_last() =~= items@.take(i as int));
                lemma_fits(acc.value());
            }
            acc = acc * items[i];
            i = i + 1;
        }
        proof {
            assert(items@.take(i as int) =~= items@);
        }
        acc
    }
}

} // verus!

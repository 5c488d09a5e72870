//! Exponentiation, inversion by Fermat's little theorem, and division.
use vstd::prelude::*;
use vstd::arithmetic::power::pow;
use vstd::arithmetic::power2::pow2;
use crate::limbs::{limbs_value, limb_base, modulus};
use crate::bignum::big_sub;
use crate::field::{Secp256K1Base, ORDER_LIMBS, lemma_order_limbs, field_mul};

verus! {

/// The inverse of a nonzero residue, as Fermat's little theorem gives it:
/// `x^(p-2) mod p`.
pub open spec fn field_inv(x: nat) -> nat {
    (pow(x as int, (modulus() - 2) as nat) % (modulus() as int)) as nat
}

/// Squaring a power doubles its exponent, modulo the prime.
proof fn lemma_square_step(b: int, e: nat, x: int)
    requires
        x == pow(b, e) % (modulus() as int),
    ensures
        (x * x) % (modulus() as int) == pow(b, 2 * e) % (modulus() as int),
{
    let p = modulus() as int;
    lemma_order_limbs();
    vstd::arithmetic::div_mod::lemma_mul_mod_noop(pow(b, e), pow(b, e), p);
    vstd::arithmetic::power::lemma_pow_adds(b, e, e);
    assert(e + e == 2 * e);
}

/// One more factor of `b` raises the exponent by one, modulo the prime.
proof fn lemma_mul_step(b: int, e: nat, x: int)
    requires
        x == pow(b, e) % (modulus() as int),
        0 <= b,
    ensures
        (x * (b % (modulus() as int))) % (modulus() as int) == pow(b, e + 1) % (modulus() as int),
{
    let p = modulus() as int;
    lemma_order_limbs();
    vstd::arithmetic::div_mod::lemma_mul_mod_noop(pow(b, e), b, p);
    vstd::arithmetic::power::lemma_pow_adds(b, e, 1);
    vstd::arithmetic::power::lemma_pow1(b);
}

/// The bits of `k` above `j` are twice those above `j + 1`, plus bit `j`.
proof fn lemma_bit_prefix(k: u32, j: u32)
    requires
        j < 32,
    ensures
        k as nat / pow2(j as nat) == 2 * (k as nat / pow2((j + 1) as nat)) + ((k >> j) & 1) as nat,
{
    vstd::bits::lemma_u32_shr_is_div(k, j);
    assert((k >> j) & 1 == (k >> j) % 2) by (bit_vector);
    vstd::arithmetic::power2::lemma_pow2_pos(j as nat);
    vstd::arithmetic::power2::lemma_pow2_unfold((j + 1) as nat);
    vstd::arithmetic::div_mod::lemma_div_denominator(k as int, pow2(j as nat) as int, 2);
    let q = k as int / pow2(j as nat) as int;
    vstd::arithmetic::div_mod::lemma_fundamental_div_mod(q, 2);
    assert(pow2(j as nat) * 2 == pow2((j + 1) as nat)) by (nonlinear_arith)
        requires
            pow2((j + 1) as nat) == 2 * pow2(j as nat),
    ;
}

/// The exponent built from the limbs above `i` and the bits of limb `i`
/// above `j`.
spec fn partial_exponent(hi: nat, k: u32, j: nat) -> nat {
    hi * pow2((32 - j) as nat) + k as nat / pow2(j)
}

/// Taking in bit `j` doubles the exponent and adds the bit.
proof fn lemma_partial_step(hi: nat, k: u32, j: u32)
    requires
        j < 32,
    ensures
        partial_exponent(hi, k, j as nat) == 2 * partial_exponent(hi, k, (j + 1) as nat) + ((k
            >> j) & 1) as nat,
{
    lemma_bit_prefix(k, j);
    let u: nat = (32 - (j as nat)) as nat;
    let w: nat = (32 - ((j + 1) as nat)) as nat;
    assert(u > 0 && w == (u - 1) as nat);
    vstd::arithmetic::power2::lemma_pow2_unfold(u);
    let pu = pow2(u);
    let pw = pow2(w);
    assert(hi * pu == 2 * (hi * pw)) by (nonlinear_arith)
        requires
            pu == 2 * pw,
    ;
    assert(partial_exponent(hi, k, j as nat) == hi * pu + k as nat / pow2(j as nat));
    assert(partial_exponent(hi, k, (j + 1) as nat) == hi * pw + k as nat / pow2((j + 1) as nat));
    let q0 = k as nat / pow2(j as nat);
    let q1 = k as nat / pow2((j + 1) as nat);
    let bit = ((k >> j) & 1) as nat;
    assert(q0 == 2 * q1 + bit);
    assert(hi * pu + q0 == 2 * (hi * pw + q1) + bit) by (nonlinear_arith)
        requires
            q0 == 2 * q1 + bit,
            pu == 2 * pw,
    ;
}

impl Secp256K1Base {
    /// The element raised to the power whose little-endian limbs are
    /// `power`, by square-and-multiply from the top bit down.
    pub fn exp_biguint(&self, power: &[u32]) -> (r: Self)
        ensures
            r.value() == pow(self.canonical() as int, limbs_value(power@)) % (modulus() as int),
            r.is_canonical(),
    {
        let base = *self;
        let ghost b = self.canonical() as int;
        let ghost p = modulus() as int;
        let mut acc = Secp256K1Base::one();
        proof {
            lemma_order_limbs();
            vstd::arithmetic::power::lemma_pow0(b);
            assert(power@.skip(power@.len() as int) =~= Seq::<u32>::empty());
            vstd::arithmetic::div_mod::lemma_small_mod(1, modulus());
        }
        let mut i: usize = power.len();
        while i > 0
            invariant
                i <= power@.len(),
                b == self.canonical(),
                base == *self,
                p == modulus(),
                acc.value() == pow(b, limbs_value(power@.skip(i as int))) % p,
                acc.is_canonical(),
            decreases i,
        {
            i = i - 1;
            let k = power[i];
            let ghost hi = limbs_value(power@.skip(i + 1));
            proof {
                vstd::arithmetic::power2::lemma2_to64();
                assert((32 - 32) as nat == 0);
                vstd::arithmetic::div_mod::lemma_basic_div(k as int, pow2(32) as int);
                assert(partial_exponent(hi, k, 32) == hi);
            }
            let mut j: u32 = 32;
            while j > 0
                invariant
                    j <= 32,
                    b == self.canonical(),
                    base == *self,
                    p == modulus(),
                    acc.value() == pow(b, partial_exponent(hi, k, j as nat)) % p,
                    acc.is_canonical(),
                decreases j,
            {
                j = j - 1;
                let ghost e = partial_exponent(hi, k, (j + 1) as nat);
                proof {
                    lemma_partial_step(hi, k, j);
                    vstd::arithmetic::div_mod::lemma_small_mod(acc.value(), modulus());
                    lemma_square_step(b, e, acc.value() as int);
                }
                acc = acc * acc;
                if (k >> j) & 1 == 1 {
                    proof {
                        vstd::arithmetic::div_mod::lemma_small_mod(acc.value(), modulus());
                        vstd::arithmetic::div_mod::lemma_small_mod(b as nat, modulus());
                        lemma_mul_step(b, 2 * e, acc.value() as int);
                        assert(partial_exponent(hi, k, j as nat) == 2 * e + 1);
                    }
                    acc = acc * base;
                } else {
                    proof {
                        assert((k >> j) & 1 < 2) by (bit_vector);
                        assert(partial_exponent(hi, k, j as nat) == 2 * e);
                    }
                }
            }
            proof {
                vstd::arithmetic::power2::lemma2_to64();
                let s = power@.skip(i as int);
                assert(s.drop_first() =~= power@.skip(i + 1));
                assert(limbs_value(s) == k + limb_base() * hi);
                assert((32 - 0) as nat == 32);
                assert(k as nat / pow2(0) == k);
                assert(hi * pow2(32) == limb_base() * hi) by (nonlinear_arith)
                    requires
                        pow2(32) == limb_base(),
                ;
                assert(partial_exponent(hi, k, 0) == limbs_value(s));
            }
        }
        proof {
            assert(power@.skip(0) =~= power@);
        }
        acc
    }

    /// The multiplicative inverse, or `None` for zero.
    pub fn try_inverse(&self) -> (r: Option<Self>)
        ensures
            r.is_none() == (self.canonical() == 0),
            r matches Some(x) ==> x.value() == field_inv(self.canonical()) && x.is_canonical(),
    {
        if self.is_zero() {
            None
        } else {
            let order = ORDER_LIMBS;
            let two: [u32; 1] = [2];
            proof {
                lemma_order_limbs();
                reveal_with_fuel(limbs_value, 2);
            }
            let e = big_sub(&order, &two);
            Some(self.exp_biguint(e.as_slice()))
        }
    }

    /// The quotient, or `None` when the divisor is zero.
    pub fn checked_div(self, rhs: Self) -> (r: Option<Self>)
        ensures
            r.is_none() == (rhs.canonical() == 0),
            r matches Some(x) ==> x.value() == field_mul(
                self.canonical(),
                field_inv(rhs.canonical()),
            ) && x.is_canonical(),
    {
        match rhs.try_inverse() {
            None => None,
            Some(inv) => {
                proof {
                    lemma_order_limbs();
                    vstd::arithmetic::div_mod::lemma_small_mod(inv.value(), modulus());
                }
                Some(self * inv)
            },
        }
    }

    pub fn div_assign(&mut self, rhs: Self)
        requires
            rhs.canonical() != 0,
        ensures
            final(self).value() == field_mul(old(self).canonical(), field_inv(rhs.canonical())),
            final(self).is_canonical(),
    {
        *self = *self / rhs;
    }
}

impl core::ops::Div for Secp256K1Base {
    type Output = Secp256K1Base;

    /// The quotient; the divisor must not be zero. Verified callers are held
    /// to that by `div_req`. Unverified callers that cannot rule out a zero
    /// divisor must use `checked_div`: here a zero divisor gives back `self`.
    fn div(self, rhs: Secp256K1Base) -> (r: Secp256K1Base)
        ensures
            r.value() == field_mul(self.canonical(), field_inv(rhs.canonical())),
            r.is_canonical(),
    {
        match self.checked_div(rhs) {
            Some(q) => q,
            None => self,
        }
    }
}

impl vstd::std_specs::ops::DivSpecImpl for Secp256K1Base {
    open spec fn obeys_div_spec() -> bool {
        false
    }

    open spec fn div_req(self, rhs: Secp256K1Base) -> bool {
        rhs.canonical() != 0
    }

    /// Left open: `obeys_div_spec` is false, and the result is stated by the
    /// method\'s own `ensures` over residues instead.
    open spec fn div_spec(self, rhs: Secp256K1Base) -> Secp256K1Base {
        arbitrary()
    }
}

} // verus!

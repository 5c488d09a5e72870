//! The integer that a little-endian sequence of 32-bit limbs stands for.
use vstd::prelude::*;

verus! {

/// The base of one limb.
pub open spec fn limb_base() -> nat {
    0x1_0000_0000
}

/// The value of little-endian 32-bit limbs.
pub open spec fn limbs_value(s: Seq<u32>) -> nat
    decreases s.len(),
{
    if s.len() == 0 {
        0
    } else {
        s[0] as nat + limb_base() * limbs_value(s.drop_first())
    }
}

/// The value of little-endian 64-bit digits.
pub open spec fn limbs64_value(s: Seq<u64>) -> nat
    decreases s.len(),
{
    if s.len() == 0 {
        0
    } else {
        s[0] as nat + 0x1_0000_0000_0000_0000 * limbs64_value(s.drop_first())
    }
}

/// The character of a decimal digit.
pub open spec fn digit_char(d: nat) -> char {
    seq!['0', '1', '2', '3', '4', '5', '6', '7', '8', '9'][d as int]
}

/// The decimal numeral of `n`, without leading zeros.
pub open spec fn decimal_digits(n: nat) -> Seq<char>
    decreases n,
{
    if n < 10 {
        seq![digit_char(n)]
    } else {
        decimal_digits(n / 10).push(digit_char(n % 10))
    }
}

/// The field's prime, 2^256 - 2^32 - 2^9 - 2^8 - 2^7 - 2^6 - 2^4 - 1.
pub open spec fn modulus() -> nat {
    (limbs8_bound() - 0x1_0000_03D1) as nat
}

/// 2^256, the first value that eight limbs cannot hold.
pub open spec fn limbs8_bound() -> nat {
    0x1_0000_0000_0000_0000 * 0x1_0000_0000_0000_0000 * 0x1_0000_0000_0000_0000
        * 0x1_0000_0000_0000_0000
}

} // verus!

verus! {

/// `limb_base()` to the power `k`: the first value that `k` limbs cannot hold.
pub open spec fn limbs_bound(k: nat) -> nat
    decreases k,
{
    if k == 0 {
        1
    } else {
        limb_base() * limbs_bound((k - 1) as nat)
    }
}

/// The limbs after the lowest one (none for an empty sequence).
pub open spec fn upper_limbs(s: Seq<u32>) -> Seq<u32> {
    if s.len() == 0 {
        s
    } else {
        s.drop_first()
    }
}

/// The first `k` limbs of `s`, with zeros where `s` is shorter.
pub open spec fn fit_limbs(s: Seq<u32>, k: nat) -> Seq<u32> {
    Seq::new(k, |i: int| if i < s.len() { s[i] } else { 0u32 })
}

pub proof fn lemma_limbs8_bound()
    ensures
        limbs_bound(8) == limbs8_bound(),
        modulus() < limbs8_bound(),
        modulus() > 0x1_0000_0000_0000_0000_0000_0000_0000_0000,
{
    reveal_with_fuel(limbs_bound, 9);
}

proof fn lemma_limbs_bound_pos(k: nat)
    ensures
        limbs_bound(k) > 0,
    decreases k,
{
    if k > 0 {
        lemma_limbs_bound_pos((k - 1) as nat);
        vstd::arithmetic::mul::lemma_mul_strictly_positive(
            limb_base() as int,
            limbs_bound((k - 1) as nat) as int,
        );
    }
}

/// Keeping the first `k` limbs (padding with zeros) reduces the value
/// modulo `limbs_bound(k)`.
pub proof fn lemma_fit_limbs(s: Seq<u32>, k: nat)
    ensures
        limbs_value(fit_limbs(s, k)) == limbs_value(s) % limbs_bound(k),
    decreases k,
{
    let f = fit_limbs(s, k);
    if k == 0 {
        assert(f.len() == 0);
    } else {
        let t = upper_limbs(s);
        let h: nat = if s.len() == 0 { 0 } else { s[0] as nat };
        assert(limbs_value(s) == h + limb_base() * limbs_value(t));
        assert(f.drop_first() =~= fit_limbs(t, (k - 1) as nat));
        assert(f[0] as nat == h);
        lemma_fit_limbs(t, (k - 1) as nat);
        lemma_limbs_bound_pos((k - 1) as nat);
        let v = limbs_value(t) as int;
        let b = limb_base() as int;
        let m = limbs_bound((k - 1) as nat) as int;
        let x = h + b * v;
        vstd::arithmetic::div_mod::lemma_mod_breakdown(x, b, m);
        vstd::arithmetic::div_mod::lemma_fundamental_div_mod_converse(x, b, v, h as int);
        assert(x / b == v) by {
            vstd::arithmetic::div_mod::lemma_div_multiples_vanish_fancy(v, h as int, b);
        }
    }
}

} // verus!

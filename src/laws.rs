//! Algebraic laws of the field operations, stated over the residues that the
//! operations' contracts speak of.
use vstd::prelude::*;
use vstd::arithmetic::div_mod::{
    lemma_add_mod_noop, lemma_mul_mod_noop, lemma_small_mod, lemma_mod_bound,
    lemma_mod_twice,
};
use crate::limbs::{limbs64_value, modulus};
use crate::field::{Secp256K1Base, lemma_order_limbs, field_add, field_neg, field_mul};

verus! {

/// Addition is associative: `(a + b) + c == a + (b + c)`.
pub proof fn lemma_add_associative(a: Secp256K1Base, b: Secp256K1Base, c: Secp256K1Base)
    ensures
        field_add(field_add(a.canonical(), b.canonical()), c.canonical()) == field_add(
            a.canonical(),
            field_add(b.canonical(), c.canonical()),
        ),
{
    let (x, y, z) = (a.canonical() as int, b.canonical() as int, c.canonical() as int);
    let p = modulus() as int;
    lemma_order_limbs();
    lemma_add_mod_noop(x + y, z, p);
    lemma_add_mod_noop(x, y + z, p);
    lemma_small_mod(z as nat, p as nat);
    lemma_small_mod(x as nat, p as nat);
    lemma_mod_twice(x + y, p);
    lemma_mod_twice(y + z, p);
    lemma_mod_bound(x + y, p);
    lemma_mod_bound(y + z, p);
    assert(x + y + z == x + (y + z));
}

/// Zero is neutral for addition: `a + 0 == a`.
pub proof fn lemma_add_zero(a: Secp256K1Base)
    ensures
        field_add(a.canonical(), 0) == a.canonical(),
{
    lemma_order_limbs();
    lemma_small_mod(a.canonical(), modulus());
}

/// An element plus its negation is zero: `a + (-a) == 0`.
pub proof fn lemma_add_neg(a: Secp256K1Base)
    ensures
        field_add(a.canonical(), field_neg(a.canonical())) == 0,
{
    let x = a.canonical() as int;
    let p = modulus() as int;
    lemma_order_limbs();
    lemma_mod_bound(0 - x, p);
    vstd::arithmetic::div_mod::lemma_add_mod_noop_right(x, 0 - x, p);
    lemma_small_mod(0, p as nat);
    assert(x + (0 - x) == 0);
}

/// Multiplication is associative: `(a * b) * c == a * (b * c)`.
pub proof fn lemma_mul_associative(a: Secp256K1Base, b: Secp256K1Base, c: Secp256K1Base)
    ensures
        field_mul(field_mul(a.canonical(), b.canonical()), c.canonical()) == field_mul(
            a.canonical(),
            field_mul(b.canonical(), c.canonical()),
        ),
{
    let (x, y, z) = (a.canonical() as int, b.canonical() as int, c.canonical() as int);
    let p = modulus() as int;
    lemma_order_limbs();
    lemma_mul_mod_noop(x * y, z, p);
    lemma_mul_mod_noop(x, y * z, p);
    lemma_small_mod(z as nat, p as nat);
    lemma_small_mod(x as nat, p as nat);
    lemma_mod_twice(x * y, p);
    lemma_mod_twice(y * z, p);
    vstd::arithmetic::mul::lemma_mul_is_associative(x, y, z);
    vstd::arithmetic::mul::lemma_mul_nonnegative(x, y);
    vstd::arithmetic::mul::lemma_mul_nonnegative(y, z);
}

/// One is neutral for multiplication: `a * 1 == a`.
pub proof fn lemma_mul_one(a: Secp256K1Base)
    ensures
        field_mul(a.canonical(), 1) == a.canonical(),
{
    lemma_order_limbs();
    lemma_small_mod(a.canonical(), modulus());
}

/// Multiplication distributes over addition: `a * (b + c) == a * b + a * c`.
pub proof fn lemma_mul_distributive(a: Secp256K1Base, b: Secp256K1Base, c: Secp256K1Base)
    ensures
        field_mul(a.canonical(), field_add(b.canonical(), c.canonical())) == field_add(
            field_mul(a.canonical(), b.canonical()),
            field_mul(a.canonical(), c.canonical()),
        ),
{
    let (x, y, z) = (a.canonical() as int, b.canonical() as int, c.canonical() as int);
    let p = modulus() as int;
    lemma_order_limbs();
    lemma_mul_mod_noop(x, y + z, p);
    lemma_small_mod(x as nat, p as nat);
    lemma_mod_twice(y + z, p);
    vstd::arithmetic::mul::lemma_mul_is_distributive_add(x, y, z);
    lemma_add_mod_noop(x * y, x * z, p);
    vstd::arithmetic::mul::lemma_mul_nonnegative(x, y);
    vstd::arithmetic::mul::lemma_mul_nonnegative(x, z);
    vstd::arithmetic::mul::lemma_mul_nonnegative(x, y + z);
}

/// Canonicalizing is idempotent: the residue of a residue is itself.
pub proof fn lemma_canonical_idempotent(a: Secp256K1Base)
    ensures
        a.canonical() % modulus() == a.canonical(),
{
    lemma_order_limbs();
    lemma_small_mod(a.canonical(), modulus());
}

/// A 64-bit integer comes back unchanged from the element it builds.
pub proof fn lemma_u64_round_trip(n: u64)
    ensures
        (n as nat) % modulus() == n,
{
    lemma_order_limbs();
    lemma_small_mod(n as nat, modulus());
}

/// Negation is an involution, and the negation of zero is zero.
pub proof fn lemma_neg_involutive(a: Secp256K1Base)
    ensures
        field_neg(field_neg(a.canonical())) == a.canonical(),
        field_neg(0) == 0,
{
    let x = a.canonical() as int;
    let p = modulus() as int;
    lemma_order_limbs();
    lemma_mod_bound(0 - x, p);
    lemma_small_mod(x as nat, p as nat);
    vstd::arithmetic::div_mod::lemma_sub_mod_noop_right(0, 0 - x, p);
    vstd::arithmetic::div_mod::lemma_mod_self_0(p);
    lemma_small_mod(0, p as nat);
}

/// Digits without a zero at the top are determined by their value.
pub proof fn lemma_digits_unique(s: Seq<u64>, t: Seq<u64>)
    requires
        s.len() == 0 || s.last() != 0,
        t.len() == 0 || t.last() != 0,
        limbs64_value(s) == limbs64_value(t),
    ensures
        s == t,
    decreases s.len(),
{
    reveal_with_fuel(limbs64_value, 2);
    if s.len() == 0 || t.len() == 0 {
        lemma_top_digit_positive(s);
        lemma_top_digit_positive(t);
    } else {
        let (vs, vt) = (limbs64_value(s.drop_first()), limbs64_value(t.drop_first()));
        vstd::arithmetic::div_mod::lemma_fundamental_div_mod_converse(
            limbs64_value(s) as int,
            0x1_0000_0000_0000_0000,
            vs as int,
            s[0] as int,
        );
        vstd::arithmetic::div_mod::lemma_fundamental_div_mod_converse(
            limbs64_value(t) as int,
            0x1_0000_0000_0000_0000,
            vt as int,
            t[0] as int,
        );
        assert(s.len() == 1 || s.drop_first().last() == s.last());
        assert(t.len() == 1 || t.drop_first().last() == t.last());
        lemma_digits_unique(s.drop_first(), t.drop_first());
        assert(s =~= seq![s[0]] + s.drop_first());
        assert(t =~= seq![t[0]] + t.drop_first());
    }
}

/// Digits with a nonzero top digit have a positive value.
proof fn lemma_top_digit_positive(s: Seq<u64>)
    requires
        s.len() == 0 || s.last() != 0,
    ensures
        s.len() > 0 ==> limbs64_value(s) > 0,
    decreases s.len(),
{
    if s.len() > 1 {
        assert(s.drop_first().last() == s.last());
        lemma_top_digit_positive(s.drop_first());
    }
}

/// Elements that hold different representatives of one residue are equal,
/// and the digits that hashing reads are the same for both.
pub proof fn lemma_representation_independent(
    a: Secp256K1Base,
    b: Secp256K1Base,
    da: Seq<u64>,
    db: Seq<u64>,
)
    requires
        a.value() % modulus() == b.value() % modulus(),
        limbs64_value(da) == a.canonical(),
        da.len() == 0 || da.last() != 0,
        limbs64_value(db) == b.canonical(),
        db.len() == 0 || db.last() != 0,
    ensures
        a.canonical() == b.canonical(),
        da == db,
{
    lemma_digits_unique(da, db);
}

} // verus!

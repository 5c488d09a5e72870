use rand::rngs::StdRng;
use rand::{Rng, SeedableRng};
use secp256k1_field::field::Secp256K1Base;

const ORDER: [u32; 8] = [
    0xFFFFFC2F, 0xFFFFFFFE, 0xFFFFFFFF, 0xFFFFFFFF, 0xFFFFFFFF, 0xFFFFFFFF, 0xFFFFFFFF, 0xFFFFFFFF,
];

const NEG_ONE_DECIMAL: &str =
    "115792089237316195423570985008687907853269984665640564039457584007908834671662";

/// Raw limbs, reduced or not: any value below 2^256.
fn sample_raw(rng: &mut StdRng) -> Secp256K1Base {
    let mut limbs = [0u32; 8];
    for l in limbs.iter_mut() {
        *l = rng.gen();
    }
    Secp256K1Base(limbs)
}

fn samples() -> Vec<Secp256K1Base> {
    let mut rng = StdRng::seed_from_u64(7);
    let mut v = vec![
        Secp256K1Base::zero(),
        Secp256K1Base::one(),
        Secp256K1Base::two(),
        Secp256K1Base::neg_one(),
        Secp256K1Base(ORDER),
        Secp256K1Base([0xFFFFFFFF; 8]),
    ];
    for _ in 0..12 {
        v.push(sample_raw(&mut rng));
    }
    v
}

fn order_plus(n: u32) -> Secp256K1Base {
    let mut limbs = ORDER;
    limbs[0] += n;
    Secp256K1Base(limbs)
}

#[test]
fn order_is_the_secp256k1_prime() {
    let order = Secp256K1Base::order();
    assert_eq!(order, ORDER);
    assert!(Secp256K1Base(order) == Secp256K1Base::zero());
    let below = Secp256K1Base::neg_one();
    assert_eq!(below.to_string(), NEG_ONE_DECIMAL);
}

#[test]
fn neg_one_plus_one_is_zero() {
    let s = Secp256K1Base::neg_one() + Secp256K1Base::one();
    assert!(s == Secp256K1Base::zero());
    assert_eq!(s.0, [0u32; 8]);
}

#[test]
fn two_is_one_plus_one() {
    assert!(Secp256K1Base::two() == Secp256K1Base::one() + Secp256K1Base::one());
}

#[test]
fn zero_displays_as_0() {
    assert_eq!(Secp256K1Base::zero().to_string(), "0");
    assert_eq!(Secp256K1Base(ORDER).to_string(), "0");
    assert_eq!(Secp256K1Base::from_canonical_u64(1234567).to_string(), "1234567");
}

#[test]
fn five_times_three_is_fifteen() {
    let p = Secp256K1Base::from_canonical_u64(5) * Secp256K1Base::from_canonical_u64(3);
    assert!(p == Secp256K1Base::from_canonical_u64(15));
    assert_eq!(p.0, [15, 0, 0, 0, 0, 0, 0, 0]);
}

#[test]
fn addition_is_associative_with_zero_and_negation() {
    let v = samples();
    for &a in &v {
        assert!(a + Secp256K1Base::zero() == a);
        assert!(a + (-a) == Secp256K1Base::zero());
        for &b in &v {
            for &c in v.iter().take(6) {
                assert!((a + b) + c == a + (b + c));
            }
        }
    }
}

#[test]
fn multiplication_is_associative_distributive_with_one() {
    let v = samples();
    for &a in &v {
        assert!(a * Secp256K1Base::one() == a);
        for &b in &v {
            for &c in v.iter().take(6) {
                assert!((a * b) * c == a * (b * c));
                assert!(a * (b + c) == a * b + a * c);
            }
        }
    }
}

#[test]
fn inverse_times_element_is_one() {
    for a in samples() {
        if a == Secp256K1Base::zero() {
            continue;
        }
        let inv = a.try_inverse().unwrap();
        assert!(a * inv == Secp256K1Base::one());
        assert!(a / a == Secp256K1Base::one());
    }
}

#[test]
fn inverse_is_an_involution() {
    for a in samples() {
        if a == Secp256K1Base::zero() {
            continue;
        }
        let inv = a.try_inverse().unwrap();
        assert!(inv.try_inverse().unwrap() == a);
    }
}

#[test]
fn canonicalization_is_idempotent() {
    for a in samples() {
        let c = a.to_canonical();
        assert_eq!(c.to_canonical().0, c.0);
        assert!(c == a);
    }
    assert_eq!(Secp256K1Base(ORDER).to_canonical().0, [0u32; 8]);
    assert_eq!(order_plus(5).to_canonical().0, [5, 0, 0, 0, 0, 0, 0, 0]);
}

#[test]
fn representations_of_one_residue_are_equal_and_hash_alike() {
    let five = Secp256K1Base::from_canonical_u64(5);
    let five_again = order_plus(5);
    assert_ne!(five.0, five_again.0);
    assert!(five == five_again);
    assert_eq!(five.hash_digits(), five_again.hash_digits());
    assert_eq!(five.hash_digits(), vec![5u64]);
    assert!(Secp256K1Base(ORDER) == Secp256K1Base::zero());
    assert_eq!(Secp256K1Base(ORDER).hash_digits(), Vec::<u64>::new());
    assert!(Secp256K1Base::from_canonical_u64(5) != Secp256K1Base::from_canonical_u64(6));
}

#[test]
fn u64_round_trip() {
    for n in [0u64, 1, 15, 0xFFFF_FFFF, 0x1_0000_0000, 0x1234_5678_9ABC_DEF0, u64::MAX] {
        let e = Secp256K1Base::from_canonical_u64(n);
        assert_eq!(e.0, [n as u32, (n >> 32) as u32, 0, 0, 0, 0, 0, 0]);
        assert_eq!(e.to_canonical().0, e.0);
        assert_eq!(e.to_string(), n.to_string());
        let digits = e.to_canonical_biguint();
        let back = digits.first().copied().unwrap_or(0) as u64
            | (digits.get(1).copied().unwrap_or(0) as u64) << 32;
        assert_eq!(back, n);
    }
}

#[test]
fn from_u96_and_u128() {
    let e = Secp256K1Base::from_noncanonical_u96((0x1111_2222_3333_4444, 0x5555_6666));
    assert_eq!(e.0, [0x5555_6666, 0x3333_4444, 0x1111_2222, 0, 0, 0, 0, 0]);
    let one_high = Secp256K1Base::from_noncanonical_u96((1, 0));
    assert_eq!(one_high.to_string(), (1u64 << 32).to_string());
    let top = Secp256K1Base::from_noncanonical_u96((u64::MAX, u32::MAX));
    assert_eq!(top.to_string(), ((1u128 << 96) - 1).to_string());
    let n: u128 = 0x0123_4567_89AB_CDEF_FEDC_BA98_7654_3210;
    let f = Secp256K1Base::from_noncanonical_u128(n);
    assert_eq!(f.0, [0x7654_3210, 0xFEDC_BA98, 0x89AB_CDEF, 0x0123_4567, 0, 0, 0, 0]);
    assert_eq!(f.to_string(), n.to_string());
    let m = Secp256K1Base::from_noncanonical_u128(u128::MAX);
    assert_eq!(m.to_string(), u128::MAX.to_string());
}

#[test]
fn sampling_keeps_values_below_order() {
    let mut rng = StdRng::seed_from_u64(11);
    let mut accepted = 0;
    for _ in 0..200 {
        let raw = sample_raw(&mut rng);
        match Secp256K1Base::from_random_limbs(raw.0) {
            Some(x) => {
                accepted += 1;
                assert_eq!(x.0, raw.0);
                assert_eq!(x.to_canonical().0, x.0);
            }
            None => assert_eq!(raw.to_canonical().0 == raw.0, false),
        }
    }
    assert!(accepted > 190);
}

#[test]
fn sampling_rejects_the_order_itself() {
    assert!(Secp256K1Base::from_random_limbs(ORDER).is_none());
    assert!(Secp256K1Base::from_random_limbs([0xFFFFFFFF; 8]).is_none());
    assert!(Secp256K1Base::from_random_limbs(order_plus(1).0).is_none());
    let below = Secp256K1Base::neg_one().0;
    assert_eq!(Secp256K1Base::from_random_limbs(below).unwrap().0, below);
    assert_eq!(Secp256K1Base::from_random_limbs([0u32; 8]).unwrap().0, [0u32; 8]);
}

#[test]
fn zero_has_no_inverse_and_is_no_divisor() {
    assert!(Secp256K1Base::zero().try_inverse().is_none());
    assert!(Secp256K1Base(ORDER).try_inverse().is_none());
    assert!(Secp256K1Base::one().checked_div(Secp256K1Base::zero()).is_none());
    assert!(Secp256K1Base::one().checked_div(Secp256K1Base(ORDER)).is_none());
    let q = Secp256K1Base::from_canonical_u64(15)
        .checked_div(Secp256K1Base::from_canonical_u64(3))
        .unwrap();
    assert!(q == Secp256K1Base::from_canonical_u64(5));
    assert_eq!(q.0, [5, 0, 0, 0, 0, 0, 0, 0]);
}

#[test]
fn negation_is_an_involution() {
    for a in samples() {
        assert!(-(-a) == a);
    }
    assert_eq!((-Secp256K1Base::zero()).0, [0u32; 8]);
    assert_eq!((-Secp256K1Base(ORDER)).0, [0u32; 8]);
    assert_eq!((-Secp256K1Base::one()).0, Secp256K1Base::neg_one().0);
}

#[test]
fn subtraction_reduces_its_result() {
    let d = Secp256K1Base::neg_one() - Secp256K1Base::zero();
    assert_eq!(d.0, Secp256K1Base::neg_one().0);
    let e = Secp256K1Base::zero() - Secp256K1Base::one();
    assert_eq!(e.0, Secp256K1Base::neg_one().0);
    let f = Secp256K1Base::from_canonical_u64(10) - Secp256K1Base::from_canonical_u64(4);
    assert_eq!(f.0, [6, 0, 0, 0, 0, 0, 0, 0]);
}

#[test]
fn addition_result_is_stored_reduced() {
    let s = Secp256K1Base::neg_one() + Secp256K1Base::two();
    assert_eq!(s.0, [1, 0, 0, 0, 0, 0, 0, 0]);
    let t = Secp256K1Base([0xFFFFFFFF; 8]) + Secp256K1Base([0xFFFFFFFF; 8]);
    assert_eq!(t.0, [1952, 2, 0, 0, 0, 0, 0, 0]);
}

#[test]
fn assign_operators() {
    let mut a = Secp256K1Base::from_canonical_u64(7);
    a.add_assign(Secp256K1Base::from_canonical_u64(5));
    assert_eq!(a.0[0], 12);
    a.sub_assign(Secp256K1Base::from_canonical_u64(2));
    assert_eq!(a.0[0], 10);
    a.mul_assign(Secp256K1Base::from_canonical_u64(3));
    assert_eq!(a.0[0], 30);
    a.div_assign(Secp256K1Base::from_canonical_u64(6));
    assert_eq!(a.0, [5, 0, 0, 0, 0, 0, 0, 0]);
}

#[test]
fn sum_and_product() {
    assert_eq!(Secp256K1Base::sum(&[]).0, [0u32; 8]);
    assert_eq!(Secp256K1Base::product(&[]).0, [1, 0, 0, 0, 0, 0, 0, 0]);
    let items = [
        Secp256K1Base::from_canonical_u64(2),
        Secp256K1Base::from_canonical_u64(3),
        Secp256K1Base::from_canonical_u64(4),
    ];
    assert_eq!(Secp256K1Base::sum(&items).0[0], 9);
    assert_eq!(Secp256K1Base::product(&items).0[0], 24);
    let wrap = [Secp256K1Base::neg_one(), Secp256K1Base::two()];
    assert_eq!(Secp256K1Base::sum(&wrap).0, [1, 0, 0, 0, 0, 0, 0, 0]);
}

#[test]
fn exponentiation_by_square_and_multiply() {
    let two = Secp256K1Base::two();
    assert_eq!(two.exp_biguint(&[10]).0, [1024, 0, 0, 0, 0, 0, 0, 0]);
    assert_eq!(two.exp_biguint(&[]).0, [1, 0, 0, 0, 0, 0, 0, 0]);
    assert_eq!(two.exp_biguint(&[64, 0]).0, [0, 0, 1, 0, 0, 0, 0, 0]);
    // 2^256 is 2^32 + 977 modulo the prime.
    assert_eq!(two.exp_biguint(&[256]).0, [977, 1, 0, 0, 0, 0, 0, 0]);
    // Fermat: a^(p-1) is one.
    let mut pm1 = ORDER;
    pm1[0] -= 1;
    assert!(Secp256K1Base::from_canonical_u64(3).exp_biguint(&pm1) == Secp256K1Base::one());
}

#[test]
fn from_biguint_pads_and_truncates() {
    assert_eq!(Secp256K1Base::from_biguint(&[]).0, [0u32; 8]);
    assert_eq!(Secp256K1Base::from_biguint(&[9, 8]).0, [9, 8, 0, 0, 0, 0, 0, 0]);
    let long = [1, 2, 3, 4, 5, 6, 7, 8, 9, 10];
    assert_eq!(Secp256K1Base::from_biguint(&long).0, [1, 2, 3, 4, 5, 6, 7, 8]);
}

#[test]
fn canonical_digits_and_default() {
    assert_eq!(Secp256K1Base::default().0, [0u32; 8]);
    assert_eq!(order_plus(7).to_canonical_biguint(), vec![7u32]);
    assert!(Secp256K1Base(ORDER).is_zero());
    assert!(!Secp256K1Base::one().is_zero());
}

#[test]
fn characteristic_and_two_adicity() {
    assert_eq!(Secp256K1Base::characteristic(), ORDER);
    assert_eq!(Secp256K1Base::two_adicity(), 1);
    // p - 1 is even, and (p - 1) / 2 is odd.
    assert_eq!(ORDER[0] & 0b11, 0b11);
}

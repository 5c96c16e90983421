use margin_ledger::fixnum::FixedVal;
use margin_ledger::fixnum::SCALE;

#[test]
fn add_sub_neg_exact() {
    let a = FixedVal { raw: 5 * SCALE };
    let b = FixedVal { raw: 3 * SCALE };
    assert_eq!(a.checked_add(b).unwrap().raw, 8 * SCALE);
    assert_eq!(a.checked_sub(b).unwrap().raw, 2 * SCALE);
    assert_eq!(b.checked_sub(a).unwrap().raw, -2 * SCALE);
    assert_eq!(a.checked_neg().unwrap().raw, -5 * SCALE);
    assert!(FixedVal { raw: i128::MIN }.checked_neg().is_none());
}

#[test]
fn add_overflow_detected() {
    let a = FixedVal { raw: i128::MAX };
    let b = FixedVal { raw: 1 };
    assert!(a.checked_add(b).is_none());
    let c = FixedVal { raw: i128::MIN };
    assert!(c.checked_sub(FixedVal { raw: 1 }).is_none());
}

#[test]
fn mul_rounds_floor_and_ceil() {
    // 1.5 * 1.5 = 2.25: floor and ceil agree on the exact product.
    let x = FixedVal { raw: SCALE + SCALE / 2 };
    assert_eq!(x.checked_mul_floor(x).unwrap().raw, 2 * SCALE + SCALE / 4);
    assert_eq!(x.checked_mul_ceil(x).unwrap().raw, 2 * SCALE + SCALE / 4);
    // An inexact product differs by one raw unit between the roundings.
    let third = FixedVal { raw: SCALE / 3 };
    let f = third.checked_mul_floor(third).unwrap().raw;
    let c = third.checked_mul_ceil(third).unwrap().raw;
    assert_eq!(c, f + 1);
    // Negative operands: floor rounds away from zero, ceil toward it.
    let neg_third = FixedVal { raw: -(SCALE / 3) };
    let nf = neg_third.checked_mul_floor(third).unwrap().raw;
    let nc = neg_third.checked_mul_ceil(third).unwrap().raw;
    assert_eq!(nf, -f - 1);
    assert_eq!(nc, -f);
}

#[test]
fn mul_overflow_detected() {
    let big = FixedVal { raw: i128::MAX };
    assert!(big.checked_mul_floor(big).is_none());
    let two = FixedVal { raw: 2 * SCALE };
    assert!(big.checked_mul_ceil(two).is_none());
}

#[test]
fn div_rounds_floor_and_ceil() {
    // 1 / 3 is inexact: the two roundings differ by one raw unit.
    let one = FixedVal::one();
    let three = FixedVal { raw: 3 * SCALE };
    let f = one.checked_div_floor(three).unwrap().raw;
    let c = one.checked_div_ceil(three).unwrap().raw;
    assert_eq!(c, f + 1);
    assert_eq!(f, SCALE / 3);
    // Negative numerator: floor grows the magnitude, ceil shrinks it.
    let neg_one = FixedVal { raw: -SCALE };
    let nf = neg_one.checked_div_floor(three).unwrap().raw;
    let nc = neg_one.checked_div_ceil(three).unwrap().raw;
    assert_eq!(nf, -f - 1);
    assert_eq!(nc, -f);
    // Exact division is the same under both roundings.
    let six = FixedVal { raw: 6 * SCALE };
    let two = FixedVal { raw: 2 * SCALE };
    assert_eq!(six.checked_div_floor(two).unwrap().raw, 3 * SCALE);
    assert_eq!(six.checked_div_ceil(two).unwrap().raw, 3 * SCALE);
}

#[test]
fn div_overflow_detected() {
    // A huge numerator over a sub-unit divisor leaves the range.
    let big = FixedVal { raw: i128::MAX };
    let tiny = FixedVal { raw: 1 };
    assert!(big.checked_div_floor(tiny).is_none());
    assert!(big.checked_div_ceil(tiny).is_none());
}

#[test]
fn from_u64_is_exact() {
    assert_eq!(FixedVal::from_u64(0).raw, 0);
    assert_eq!(FixedVal::from_u64(100).raw, 100 * SCALE);
    assert_eq!(FixedVal::from_u64(u64::MAX).raw, (u64::MAX as i128) * SCALE);
    assert!(FixedVal { raw: -1 }.is_neg());
    assert!(!FixedVal::zero().is_neg());
}

#[test]
fn scale_helpers_round_as_declared() {
    // 10 scaled by 1 over 3: floor truncates, ceil bumps.
    let ten = FixedVal { raw: 10 };
    assert_eq!(ten.checked_scale_floor(1, 3).unwrap().raw, 3);
    assert_eq!(ten.checked_scale_ceil(1, 3).unwrap().raw, 4);
    let neg_ten = FixedVal { raw: -10 };
    assert_eq!(neg_ten.checked_scale_floor(1, 3).unwrap().raw, -4);
    assert_eq!(neg_ten.checked_scale_ceil(1, 3).unwrap().raw, -3);
}

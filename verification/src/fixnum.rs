//! Signed fixed-point numbers with 80 integer and 48 fractional bits.
//!
//! A value is stored as a raw `i128` equal to the represented number times
//! `SCALE` (2^48). Every operation is checked: it reports exactly when the
//! mathematical result leaves the representable range, and its contract pins
//! the returned raw value as an integer formula. Divisions come in a
//! floor and a ceiling flavour so that each call site can round toward the
//! ledger's favor, as the accounting demands.

use vstd::prelude::*;

verus! {

use vstd::arithmetic::div_mod::lemma_fundamental_div_mod;
use vstd::arithmetic::div_mod::lemma_fundamental_div_mod_converse;

/// Raw units per whole unit: 2^48.
pub const SCALE: i128 = 0x1_0000_0000_0000;

/// Magnitude of `i128::MIN`, i.e. 2^127.
pub const I128_MIN_MAG: u128 = 0x8000_0000_0000_0000_0000_0000_0000_0000;

/// Floor division: rounds toward negative infinity for any sign of numerator
/// and denominator.
pub open spec fn fdiv(n: int, d: int) -> int
    recommends
        d != 0,
{
    if d > 0 {
        n / d
    } else {
        (-n) / (-d)
    }
}

/// Ceiling division: rounds toward positive infinity.
pub open spec fn cdiv(n: int, d: int) -> int
    recommends
        d != 0,
{
    -fdiv(-n, d)
}

/// Raw result of a fixed-point product rounded toward negative infinity.
pub open spec fn fmul_raw(a: int, b: int) -> int {
    fdiv(a * b, SCALE as int)
}

/// Raw result of a fixed-point product rounded toward positive infinity.
pub open spec fn cmul_raw(a: int, b: int) -> int {
    cdiv(a * b, SCALE as int)
}

/// Raw result of a fixed-point quotient rounded toward negative infinity.
pub open spec fn fdivq_raw(a: int, b: int) -> int
    recommends
        b != 0,
{
    fdiv(a * (SCALE as int), b)
}

/// Raw result of a fixed-point quotient rounded toward positive infinity.
pub open spec fn cdivq_raw(a: int, b: int) -> int
    recommends
        b != 0,
{
    cdiv(a * (SCALE as int), b)
}

/// Whether an integer is representable as a raw `i128`.
pub open spec fn in_i128(x: int) -> bool {
    i128::MIN <= x <= i128::MAX
}

/// A fixed-point number: the represented value is `raw / 2^48`.
#[derive(Clone, Copy, Debug, PartialEq, Eq, Structural)]
pub struct FixedVal {
    pub raw: i128,
}

/// Floor division by a positive divisor applied to a negated nonnegative
/// numerator, written over the magnitude: `(-m) / d == -(m / d) - adj`,
/// where `adj` is 1 exactly when the division is inexact.
pub proof fn lemma_div_neg(m: int, d: int)
    requires
        m >= 0,
        d > 0,
    ensures
        (-m) / d == -(m / d) - (if m % d == 0 { 0int } else { 1int }),
{
    let q = m / d;
    let r = m % d;
    lemma_fundamental_div_mod(m, d);
    if r == 0 {
        assert(-m == d * (-q) + 0) by (nonlinear_arith)
            requires
                m == d * q + r,
                r == 0,
        ;
        lemma_fundamental_div_mod_converse(-m, d, -q, 0);
    } else {
        assert(-m == d * (-q - 1) + (d - r)) by (nonlinear_arith)
            requires
                m == d * q + r,
        ;
        lemma_fundamental_div_mod_converse(-m, d, -q - 1, d - r);
    }
}

/// Ceiling division of a nonnegative numerator by a positive divisor:
/// `cdiv(m, d) == m / d + adj`, where `adj` is 1 exactly when inexact.
pub proof fn lemma_cdiv_nonneg(m: int, d: int)
    requires
        m >= 0,
        d > 0,
    ensures
        cdiv(m, d) == m / d + (if m % d == 0 { 0int } else { 1int }),
{
    lemma_div_neg(m, d);
}

impl FixedVal {
    /// The zero value.
    pub fn zero() -> (r: FixedVal)
        ensures
            r.raw == 0,
    {
        FixedVal { raw: 0 }
    }

    /// The value one, in raw units.
    pub fn one() -> (r: FixedVal)
        ensures
            r.raw == SCALE,
    {
        FixedVal { raw: SCALE }
    }

    /// Exact conversion of a native token amount.
    pub fn from_u64(v: u64) -> (r: FixedVal)
        ensures
            r.raw == v * SCALE,
    {
        FixedVal { raw: (v as i128) * SCALE }
    }

    /// Whether the value is strictly negative.
    pub fn is_neg(&self) -> (r: bool)
        ensures
            r == (self.raw < 0),
    {
        self.raw < 0
    }

    /// Checked addition; exact.
    pub fn checked_add(self, o: FixedVal) -> (r: Option<FixedVal>)
        ensures
            r is Some <==> in_i128(self.raw + o.raw),
            r matches Some(v) ==> v.raw == self.raw + o.raw,
    {
        if o.raw >= 0 {
            if self.raw > i128::MAX - o.raw {
                None
            } else {
                Some(FixedVal { raw: self.raw + o.raw })
            }
        } else {
            if self.raw < i128::MIN - o.raw {
                None
            } else {
                Some(FixedVal { raw: self.raw + o.raw })
            }
        }
    }

    /// Checked subtraction; exact.
    pub fn checked_sub(self, o: FixedVal) -> (r: Option<FixedVal>)
        ensures
            r is Some <==> in_i128(self.raw - o.raw),
            r matches Some(v) ==> v.raw == self.raw - o.raw,
    {
        if o.raw >= 0 {
            if self.raw < i128::MIN + o.raw {
                None
            } else {
                Some(FixedVal { raw: self.raw - o.raw })
            }
        } else {
            if self.raw > i128::MAX + o.raw {
                None
            } else {
                Some(FixedVal { raw: self.raw - o.raw })
            }
        }
    }

    /// Checked negation; fails only on the most negative value.
    pub fn checked_neg(self) -> (r: Option<FixedVal>)
        ensures
            r is Some <==> in_i128(-self.raw),
            r matches Some(v) ==> v.raw == -self.raw,
    {
        if self.raw == i128::MIN {
            None
        } else {
            Some(FixedVal { raw: -self.raw })
        }
    }

    /// Checked fixed-point product, rounded toward negative infinity.
    pub fn checked_mul_floor(self, o: FixedVal) -> (r: Option<FixedVal>)
        ensures
            r is Some <==> in_i128(fmul_raw(self.raw as int, o.raw as int)),
            r matches Some(v) ==> v.raw == fmul_raw(self.raw as int, o.raw as int),
    {
        let ma: u128 = abs_mag(self.raw);
        let mb: u128 = abs_mag(o.raw);
        let neg: bool = ((self.raw < 0) != (o.raw < 0)) && self.raw != 0 && o.raw != 0;
        let ghost p: int = self.raw * o.raw;
        let ghost m_total: int = ma * mb;
        proof {
            lemma_abs_sign_mul(self.raw as int, o.raw as int);
            vstd::arithmetic::div_mod::lemma_div_pos_is_pos(m_total, SCALE as int);
            if neg {
                lemma_div_neg(m_total, SCALE as int);
            }
        }
        match mag_mul_shift(ma, mb) {
            None => None,
            Some((q, ex)) => {
                match signed_floor(q, ex, neg) {
                    None => None,
                    Some(v) => Some(FixedVal { raw: v }),
                }
            },
        }
    }

    /// Checked fixed-point product, rounded toward positive infinity.
    pub fn checked_mul_ceil(self, o: FixedVal) -> (r: Option<FixedVal>)
        ensures
            r is Some <==> in_i128(cmul_raw(self.raw as int, o.raw as int)),
            r matches Some(v) ==> v.raw == cmul_raw(self.raw as int, o.raw as int),
    {
        let ma: u128 = abs_mag(self.raw);
        let mb: u128 = abs_mag(o.raw);
        let neg: bool = ((self.raw < 0) != (o.raw < 0)) && self.raw != 0 && o.raw != 0;
        let ghost p: int = self.raw * o.raw;
        let ghost m_total: int = ma * mb;
        proof {
            lemma_abs_sign_mul(self.raw as int, o.raw as int);
            vstd::arithmetic::div_mod::lemma_div_pos_is_pos(m_total, SCALE as int);
            if !neg {
                lemma_div_neg(m_total, SCALE as int);
            }
        }
        match mag_mul_shift(ma, mb) {
            None => None,
            Some((q, ex)) => {
                match signed_ceil(q, ex, neg) {
                    None => None,
                    Some(v) => Some(FixedVal { raw: v }),
                }
            },
        }
    }

    /// Raw value scaled by a plain integer factor and divided by a plain
    /// positive integer, rounded toward negative infinity. Fails exactly
    /// when the intermediate product overflows.
    pub fn checked_scale_floor(self, k: i128, d: i128) -> (r: Option<FixedVal>)
        requires
            d > 0,
        ensures
            r is Some <==> in_i128(self.raw * k),
            r matches Some(v) ==> v.raw == fdiv(self.raw * k, d as int),
    {
        let p: i128 = match checked_mul_i128(self.raw, k) {
            None => { return None; },
            Some(p) => p,
        };
        let ma: u128 = abs_mag(p);
        let du: u128 = d as u128;
        let q: u128 = ma / du;
        let ex: bool = ma % du == 0;
        proof {
            lemma_fundamental_div_mod(ma as int, du as int);
            vstd::arithmetic::div_mod::lemma_mod_division_less_than_divisor(ma as int, du as int);
            vstd::arithmetic::div_mod::lemma_div_nonincreasing(ma as int, du as int);
            if du >= 2 {
                vstd::arithmetic::div_mod::lemma_div_is_ordered_by_denominator(ma as int, 2, du as int);
            }
            if p < 0 {
                lemma_div_neg(ma as int, du as int);
            }
        }
        match signed_floor(q, ex, p < 0) {
            None => {
                proof {
                    // The magnitude only shrinks under division, so the
                    // signed result always fits.
                    assert(false);
                }
                None
            },
            Some(v) => Some(FixedVal { raw: v }),
        }
    }

    /// Raw value scaled by a plain integer factor and divided by a plain
    /// positive integer, rounded toward positive infinity. Fails exactly
    /// when the intermediate product overflows.
    pub fn checked_scale_ceil(self, k: i128, d: i128) -> (r: Option<FixedVal>)
        requires
            d > 0,
        ensures
            r is Some <==> in_i128(self.raw * k),
            r matches Some(v) ==> v.raw == cdiv(self.raw * k, d as int),
    {
        let p: i128 = match checked_mul_i128(self.raw, k) {
            None => { return None; },
            Some(p) => p,
        };
        let ma: u128 = abs_mag(p);
        let du: u128 = d as u128;
        let q: u128 = ma / du;
        let ex: bool = ma % du == 0;
        proof {
            lemma_fundamental_div_mod(ma as int, du as int);
            vstd::arithmetic::div_mod::lemma_mod_division_less_than_divisor(ma as int, du as int);
            vstd::arithmetic::div_mod::lemma_div_nonincreasing(ma as int, du as int);
            if du >= 2 {
                vstd::arithmetic::div_mod::lemma_div_is_ordered_by_denominator(ma as int, 2, du as int);
            }
            if p >= 0 {
                lemma_div_neg(ma as int, du as int);
            }
        }
        match signed_ceil(q, ex, p < 0) {
            None => {
                proof {
                    assert(false);
                }
                None
            },
            Some(v) => Some(FixedVal { raw: v }),
        }
    }

    /// Checked fixed-point quotient, rounded toward negative infinity.
    pub fn checked_div_floor(self, o: FixedVal) -> (r: Option<FixedVal>)
        requires
            o.raw != 0,
        ensures
            r is Some <==> in_i128(fdivq_raw(self.raw as int, o.raw as int)),
            r matches Some(v) ==> v.raw == fdivq_raw(self.raw as int, o.raw as int),
    {
        let ma: u128 = abs_mag(self.raw);
        let mb: u128 = abs_mag(o.raw);
        let neg: bool = ((self.raw < 0) != (o.raw < 0)) && self.raw != 0;
        let ghost nm: int = ma * (SCALE as int);
        proof {
            lemma_abs_sign_mul(self.raw as int, SCALE as int);
            vstd::arithmetic::div_mod::lemma_div_pos_is_pos(nm, mb as int);
            if neg {
                lemma_div_neg(nm, mb as int);
            }
        }
        match mag_div_shift(ma, mb) {
            None => None,
            Some((q, ex)) => {
                match signed_floor(q, ex, neg) {
                    None => None,
                    Some(v) => Some(FixedVal { raw: v }),
                }
            },
        }
    }

    /// Checked fixed-point quotient, rounded toward positive infinity.
    pub fn checked_div_ceil(self, o: FixedVal) -> (r: Option<FixedVal>)
        requires
            o.raw != 0,
        ensures
            r is Some <==> in_i128(cdivq_raw(self.raw as int, o.raw as int)),
            r matches Some(v) ==> v.raw == cdivq_raw(self.raw as int, o.raw as int),
    {
        let ma: u128 = abs_mag(self.raw);
        let mb: u128 = abs_mag(o.raw);
        let neg: bool = ((self.raw < 0) != (o.raw < 0)) && self.raw != 0;
        let ghost nm: int = ma * (SCALE as int);
        proof {
            lemma_abs_sign_mul(self.raw as int, SCALE as int);
            vstd::arithmetic::div_mod::lemma_div_pos_is_pos(nm, mb as int);
            if !neg {
                lemma_div_neg(nm, mb as int);
            }
        }
        match mag_div_shift(ma, mb) {
            None => None,
            Some((q, ex)) => {
                match signed_ceil(q, ex, neg) {
                    None => None,
                    Some(v) => Some(FixedVal { raw: v }),
                }
            },
        }
    }
}

/// Checked product of two raw integers; exact.
pub(crate) fn checked_mul_i128(a: i128, b: i128) -> (r: Option<i128>)
    ensures
        r is Some <==> in_i128(a * b),
        r matches Some(v) ==> v == a * b,
{
    let ma: u128 = abs_mag(a);
    let mb: u128 = abs_mag(b);
    let neg: bool = ((a < 0) != (b < 0)) && a != 0 && b != 0;
    proof {
        lemma_abs_sign_mul(a as int, b as int);
    }
    if ma == 0 || mb == 0 {
        return Some(0);
    }
    if ma > u128::MAX / mb {
        proof {
            lemma_fundamental_div_mod(u128::MAX as int, mb as int);
            vstd::arithmetic::div_mod::lemma_mod_division_less_than_divisor(
                u128::MAX as int,
                mb as int,
            );
            assert(ma * mb > u128::MAX) by (nonlinear_arith)
                requires
                    mb > 0,
                    ma > u128::MAX as int / (mb as int),
                    u128::MAX as int == (mb as int) * (u128::MAX as int / (mb as int)) + (
                    u128::MAX as int) % (mb as int),
                    (u128::MAX as int) % (mb as int) < mb,
            ;
        }
        return None;
    }
    proof {
        lemma_fundamental_div_mod(u128::MAX as int, mb as int);
        vstd::arithmetic::div_mod::lemma_mod_division_less_than_divisor(u128::MAX as int, mb as int);
        assert(ma * mb <= u128::MAX) by (nonlinear_arith)
            requires
                mb > 0,
                ma <= u128::MAX as int / (mb as int),
                u128::MAX as int == (mb as int) * (u128::MAX as int / (mb as int)) + (
                u128::MAX as int) % (mb as int),
                (u128::MAX as int) % (mb as int) >= 0,
        ;
    }
    from_mag(ma * mb, neg)
}

/// Magnitude and sign of a product: `|x * y| == |x| * |y|`, and the product
/// is negative exactly when the signs differ and neither factor is zero.
pub proof fn lemma_abs_sign_mul(x: int, y: int)
    ensures
        vstd::math::abs(x * y) == vstd::math::abs(x) * vstd::math::abs(y),
        (x * y < 0) <==> (((x < 0) != (y < 0)) && x != 0 && y != 0),
{
    if x >= 0 && y >= 0 {
        assert(x * y >= 0) by (nonlinear_arith)
            requires
                x >= 0,
                y >= 0,
        ;
    } else if x >= 0 && y < 0 {
        assert(x * y <= 0 && -(x * y) == x * (-y) && (x * y < 0 <==> x != 0)) by (nonlinear_arith)
            requires
                x >= 0,
                y < 0,
        ;
    } else if x < 0 && y >= 0 {
        assert(x * y <= 0 && -(x * y) == (-x) * y && (x * y < 0 <==> y != 0)) by (nonlinear_arith)
            requires
                x < 0,
                y >= 0,
        ;
    } else {
        assert(x * y > 0 && x * y == (-x) * (-y)) by (nonlinear_arith)
            requires
                x < 0,
                y < 0,
        ;
    }
}

/// Applies a sign to a floor-rounded magnitude quotient: for a negative
/// outcome the rounding toward negative infinity adds one to the magnitude
/// when the division was inexact.
pub(crate) fn signed_floor(q: u128, ex: bool, neg: bool) -> (r: Option<i128>)
    ensures
        !neg ==> ((r is Some <==> q <= i128::MAX) && (r matches Some(v) ==> v == q as int)),
        neg ==> ((r is Some <==> q + (if ex { 0int } else { 1int }) <= I128_MIN_MAG) && (
        r matches Some(v) ==> v == -(q as int) - (if ex { 0int } else { 1int }))),
{
    if !neg {
        from_mag(q, false)
    } else if ex {
        from_mag(q, true)
    } else if q == u128::MAX {
        None
    } else {
        from_mag(q + 1, true)
    }
}

/// Applies a sign to a ceiling-rounded magnitude quotient: for a positive
/// outcome the rounding toward positive infinity adds one to the magnitude
/// when the division was inexact.
pub(crate) fn signed_ceil(q: u128, ex: bool, neg: bool) -> (r: Option<i128>)
    ensures
        neg ==> ((r is Some <==> q <= I128_MIN_MAG) && (r matches Some(v) ==> v == -(q as int))),
        !neg ==> ((r is Some <==> q + (if ex { 0int } else { 1int }) <= i128::MAX) && (
        r matches Some(v) ==> v == q as int + (if ex { 0int } else { 1int }))),
{
    if neg {
        from_mag(q, true)
    } else if ex {
        from_mag(q, false)
    } else if q == u128::MAX {
        None
    } else {
        from_mag(q + 1, false)
    }
}

/// Product of two magnitudes, divided by `SCALE` and rounded down, together
/// with a flag telling whether the division was exact. Fails exactly when the
/// rounded quotient does not fit in a `u128`.
pub(crate) fn mag_mul_shift(a: u128, b: u128) -> (r: Option<(u128, bool)>)
    ensures
        r is Some <==> (a * b) / (SCALE as int) <= u128::MAX,
        r matches Some((q, ex)) ==> q == (a * b) / (SCALE as int) && (ex <==> (a * b) % (
        SCALE as int) == 0),
{
    let s: u128 = SCALE as u128;
    let b1: u128 = b / s;
    let b0: u128 = b % s;
    let ah: u128 = a / s;
    let al: u128 = a % s;
    proof {
        lemma_fundamental_div_mod(b as int, s as int);
        lemma_fundamental_div_mod(a as int, s as int);
        // a * b == (a * b1 + ah * b0) * s + al * b0
        assert(a * b == (a * b1 + ah * b0) * s + al * b0) by (nonlinear_arith)
            requires
                b == s * b1 + b0,
                a == s * ah + al,
                s > 0,
        ;
        assert(ah * b0 < 0x1_0000_0000_0000_0000_0000_0000_0000_0000) by (nonlinear_arith)
            requires
                ah <= u128::MAX as int / (SCALE as int),
                b0 < SCALE as int,
                ah * (SCALE as int) <= a,
                a <= u128::MAX,
        ;
        assert(al * b0 <= (SCALE - 1) * (SCALE - 1)) by (nonlinear_arith)
            requires
                al < SCALE as int,
                b0 < SCALE as int,
        ;
    }
    // a * b1 can overflow; if it does, the quotient is out of range.
    let t1_opt: Option<u128> = if b1 == 0 {
        Some(0)
    } else if a <= u128::MAX / b1 {
        proof {
            lemma_fundamental_div_mod(u128::MAX as int, b1 as int);
            vstd::arithmetic::div_mod::lemma_mod_division_less_than_divisor(
                u128::MAX as int,
                b1 as int,
            );
            assert(a * b1 <= u128::MAX) by (nonlinear_arith)
                requires
                    b1 > 0,
                    a <= u128::MAX as int / (b1 as int),
                    u128::MAX as int == (b1 as int) * (u128::MAX as int / (b1 as int)) + (
                    u128::MAX as int) % (b1 as int),
                    (u128::MAX as int) % (b1 as int) >= 0,
            ;
        }
        Some(a * b1)
    } else {
        None
    };
    let ghost total: int = (a * b) / (SCALE as int);
    proof {
        // total == a * b1 + ah * b0 + (al * b0) / s, and the division is exact
        // on a * b exactly when it is exact on al * b0.
        vstd::arithmetic::div_mod::lemma_hoist_over_denominator(
            (al * b0) as int,
            (a * b1 + ah * b0) as int,
            s as nat,
        );
        vstd::arithmetic::div_mod::lemma_mod_multiples_vanish(
            (a * b1 + ah * b0) as int,
            (al * b0) as int,
            s as int,
        );
    }
    match t1_opt {
        None => {
            proof {
                // a * b1 > u128::MAX, and the full quotient is at least a * b1.
                lemma_fundamental_div_mod(u128::MAX as int, b1 as int);
                vstd::arithmetic::div_mod::lemma_mod_division_less_than_divisor(
                    u128::MAX as int,
                    b1 as int,
                );
                assert(a * b1 > u128::MAX) by (nonlinear_arith)
                    requires
                        b1 > 0,
                        a > u128::MAX as int / (b1 as int),
                        u128::MAX as int == (b1 as int) * (u128::MAX as int / (b1 as int)) + (
                        u128::MAX as int) % (b1 as int),
                        (u128::MAX as int) % (b1 as int) < b1,
                ;
            }
            None
        },
        Some(t1) => {
            let t2: u128 = ah * b0;
            let t3: u128 = (al * b0) / s;
            if t1 > u128::MAX - t2 {
                None
            } else if t1 + t2 > u128::MAX - t3 {
                None
            } else {
                let q: u128 = t1 + t2 + t3;
                let ex: bool = (al * b0) % s == 0;
                Some((q, ex))
            }
        },
    }
}

/// Magnitude of a numerator, scaled by `SCALE` and divided by a magnitude
/// divisor, rounded down, together with an exactness flag. Fails exactly when
/// the rounded quotient does not fit in a `u128`. Works by 48 rounds of
/// shift-and-subtract after an initial machine division.
pub(crate) fn mag_div_shift(a: u128, d: u128) -> (r: Option<(u128, bool)>)
    requires
        0 < d <= I128_MIN_MAG,
    ensures
        r is Some <==> (a * (SCALE as int)) / (d as int) <= u128::MAX,
        r matches Some((q, ex)) ==> q == (a * (SCALE as int)) / (d as int) && (ex <==> (a * (
        SCALE as int)) % (d as int) == 0),
{
    let mut q: u128 = a / d;
    let mut rem: u128 = a % d;
    let mut i: usize = 0;
    proof {
        lemma_fundamental_div_mod(a as int, d as int);
        vstd::arithmetic::div_mod::lemma_mod_division_less_than_divisor(a as int, d as int);
        vstd::arithmetic::power2::lemma2_to64();
        vstd::arithmetic::power2::lemma2_to64_rest();
    }
    while i < 48
        invariant
            0 < d <= I128_MIN_MAG,
            i <= 48,
            rem < d,
            a * vstd::arithmetic::power2::pow2(i as nat) == q * d + rem,
        decreases 48 - i,
    {
        let ghost p = vstd::arithmetic::power2::pow2(i as nat);
        if q >= I128_MIN_MAG {
            proof {
                // The final quotient would be at least q * 2^(48 - i), which
                // already exceeds u128::MAX.
                let e = (48 - i) as nat;
                vstd::arithmetic::power2::lemma2_to64();
                vstd::arithmetic::power2::lemma2_to64_rest();
                vstd::arithmetic::power2::lemma_pow2_adds(i as nat, e);
                vstd::arithmetic::power2::lemma_pow2_pos(e);
                vstd::arithmetic::power2::lemma_pow2_strictly_increases(0, e);
                let p2 = vstd::arithmetic::power2::pow2(e);
                assert(a * (SCALE as int) == (q * p2) * d + rem * p2) by (nonlinear_arith)
                    requires
                        a * p == q * d + rem,
                        p * p2 == SCALE as int,
                        SCALE == 0x1_0000_0000_0000,
                        vstd::arithmetic::power2::pow2(48) == 0x1_0000_0000_0000,
                ;
                assert(rem * p2 >= 0) by (nonlinear_arith)
                    requires
                        rem >= 0,
                        p2 >= 0,
                ;
                vstd::arithmetic::div_mod::lemma_div_is_ordered(
                    ((q * p2) * d) as int,
                    (a * (SCALE as int)) as int,
                    d as int,
                );
                vstd::arithmetic::div_mod::lemma_div_by_multiple((q * p2) as int, d as int);
                assert(q * p2 > u128::MAX) by (nonlinear_arith)
                    requires
                        q >= I128_MIN_MAG as int,
                        p2 >= 2,
                        I128_MIN_MAG as int * 2 > u128::MAX,
                ;
            }
            return None;
        }
        let ghost q_old = q;
        let ghost rem_old = rem;
        q = 2 * q;
        let rem2: u128 = 2 * rem;
        if rem2 >= d {
            q = q + 1;
            rem = rem2 - d;
        } else {
            rem = rem2;
        }
        i = i + 1;
        proof {
            vstd::arithmetic::power2::lemma_pow2_unfold(i as nat);
            assert(a * vstd::arithmetic::power2::pow2(i as nat) == q * d + rem)
                by (nonlinear_arith)
                requires
                    a * p == q_old * d + rem_old,
                    vstd::arithmetic::power2::pow2(i as nat) == 2 * p,
                    q == 2 * q_old + (if 2 * rem_old >= d { 1int } else { 0int }),
                    rem == 2 * rem_old - (if 2 * rem_old >= d { d as int } else { 0int }),
            ;
        }
    }
    proof {
        vstd::arithmetic::power2::lemma2_to64();
        vstd::arithmetic::power2::lemma2_to64_rest();
        assert(a * (SCALE as int) == d * (q as int) + rem) by (nonlinear_arith)
            requires
                a * vstd::arithmetic::power2::pow2(48) == q * d + rem,
                vstd::arithmetic::power2::pow2(48) == SCALE as int,
        ;
        lemma_fundamental_div_mod_converse(
            (a * (SCALE as int)) as int,
            d as int,
            q as int,
            rem as int,
        );
    }
    Some((q, rem == 0))
}

/// Magnitude of a raw value as an unsigned integer; covers `i128::MIN`.
pub(crate) fn abs_mag(x: i128) -> (m: u128)
    ensures
        m == vstd::math::abs(x as int),
{
    if x >= 0 {
        x as u128
    } else {
        ((-(x + 1)) as u128) + 1
    }
}

/// Rebuilds a signed raw value from a magnitude and a sign.
pub(crate) fn from_mag(m: u128, neg: bool) -> (r: Option<i128>)
    ensures
        neg ==> ((r is Some <==> m <= I128_MIN_MAG) && (r matches Some(v) ==> v == -(m as int))),
        !neg ==> ((r is Some <==> m <= i128::MAX) && (r matches Some(v) ==> v == m)),
{
    if neg {
        if m > I128_MIN_MAG {
            None
        } else if m == I128_MIN_MAG {
            Some(i128::MIN)
        } else {
            Some(-(m as i128))
        }
    } else {
        if m > i128::MAX as u128 {
            None
        } else {
            Some(m as i128)
        }
    }
}

} // verus!

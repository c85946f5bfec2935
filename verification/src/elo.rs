//! The fixed-point ELO arithmetic: the expected-outcome curve
//! `1 / (1 + 10^((blueAvg - redAvg) / 400))` and the signed update magnitude
//! `K * (result - expected)`, computed entirely in integers.
//!
//! Probabilities are scaled by `PROB_SCALE` (2^30); ratings are in
//! thousandths of a point.  The power of ten is evaluated exactly for the
//! integer part of the exponent and by a 30-step dyadic decomposition for the
//! fractional part, so every function here is a pure, fully specified
//! function of its arguments.

use vstd::prelude::*;
use vstd::arithmetic::div_mod::{
    lemma_div_is_ordered, lemma_div_is_ordered_by_denominator, lemma_div_multiples_vanish,
    lemma_div_nonincreasing, lemma_div_pos_is_pos,
};
use vstd::arithmetic::mul::{lemma_mul_inequality, lemma_mul_upper_bound};
use vstd::arithmetic::power::{pow, lemma_pow_increases};

verus! {

/// The fixed K-factor of the update rule: 16.000 rating points, in
/// thousandths.
pub const K_FACTOR: i64 = 16_000;

/// Fixed-point scale for probabilities: 2^30.
pub const PROB_SCALE: i64 = 1_073_741_824;

/// Half of `PROB_SCALE`: the scaled value of 1/2.
pub const PROB_HALF: i64 = 536_870_912;

/// The ELO exponent divisor, 400 rating points, in thousandths.
pub const EXP_DEN: u64 = 400_000;

/// Rating gaps are clamped to 3600 points (an exponent of 9) before the
/// power of ten is taken; beyond that the expected outcome is saturated
/// anyway.
pub const EXP_CLAMP: u64 = 3_600_000;

/// Truncating (round-toward-zero) division, the rounding that all the
/// engine's rating quotients use.
pub open spec fn tdiv(a: int, b: int) -> int {
    if a >= 0 {
        if b > 0 {
            a / b
        } else {
            -(a / -b)
        }
    } else {
        if b > 0 {
            -((-a) / b)
        } else {
            (-a) / (-b)
        }
    }
}

/// `round(2^30 * 10^(2^-(k+1)))`: the dyadic factors used for the fractional
/// part of the exponent.
pub open spec fn dyadic_pow10(k: int) -> int {
    if k == 0 {
        3395469783
    } else if k == 1 {
        1909412977
    } else if k == 2 {
        1431857735
    } else if k == 3 {
        1239937715
    } else if k == 4 {
        1153851370
    } else if k == 5 {
        1113076131
    } else if k == 6 {
        1093232087
    } else if k == 7 {
        1083443130
    } else if k == 8 {
        1078581570
    } else if k == 9 {
        1076158976
    } else if k == 10 {
        1074949721
    } else if k == 11 {
        1074345603
    } else if k == 12 {
        1074043671
    } else if k == 13 {
        1073892737
    } else if k == 14 {
        1073817278
    } else if k == 15 {
        1073779550
    } else if k == 16 {
        1073760687
    } else if k == 17 {
        1073751255
    } else if k == 18 {
        1073746540
    } else if k == 19 {
        1073744182
    } else if k == 20 {
        1073743003
    } else if k == 21 {
        1073742413
    } else if k == 22 {
        1073742119
    } else if k == 23 {
        1073741971
    } else if k == 24 {
        1073741898
    } else if k == 25 {
        1073741861
    } else if k == 26 {
        1073741842
    } else if k == 27 {
        1073741833
    } else if k == 28 {
        1073741829
    } else if k == 29 {
        1073741826
    } else {
        1
    }
}

/// 10^e for a non-negative exponent.
pub open spec fn pow10_spec(e: int) -> int
    decreases e,
{
    if e <= 0 {
        1
    } else {
        10 * pow10_spec(e - 1)
    }
}

/// The fractional-part power: starting from `value` (scaled by 2^30),
/// multiply in `dyadic_pow10(k)` for each binary digit of `num / EXP_DEN`,
/// for digits `k` up to 30.
pub open spec fn pow10_frac_spec(num: int, k: int, value: int) -> int
    decreases 30 - k,
{
    if k >= 30 {
        value
    } else {
        let n2 = num * 2;
        if n2 >= EXP_DEN {
            pow10_frac_spec(n2 - EXP_DEN, k + 1, value * dyadic_pow10(k) / (PROB_SCALE as int))
        } else {
            pow10_frac_spec(n2, k + 1, value)
        }
    }
}

/// `10^(y / EXP_DEN)`, scaled by 2^30, for `y` in thousandths of a point.
pub open spec fn pow10_scaled_spec(y: int) -> int {
    pow10_spec(y / (EXP_DEN as int)) * pow10_frac_spec(y % (EXP_DEN as int), 0, PROB_SCALE as int)
}

/// The expected outcome for the red alliance, scaled by 2^30:
/// `1 / (1 + 10^((blue_avg - red_avg) / 400))`, with the rating gap clamped
/// to `EXP_CLAMP`; a negative gap is handled through the scaled reciprocal.
pub open spec fn expected_spec(red_avg: int, blue_avg: int) -> int {
    let s = PROB_SCALE as int;
    let d = blue_avg - red_avg;
    if d >= 0 {
        let dd = if d > EXP_CLAMP {
            EXP_CLAMP as int
        } else {
            d
        };
        s * s / (s + pow10_scaled_spec(dd))
    } else {
        let dd = if -d > EXP_CLAMP {
            EXP_CLAMP as int
        } else {
            -d
        };
        let pinv = s * s / pow10_scaled_spec(dd);
        s * s / (s + pinv)
    }
}

/// The match result from red's perspective, scaled by 2^30:
/// win 1, loss 0, tie 1/2.
pub open spec fn outcome_spec(red_score: int, blue_score: int) -> int {
    if red_score > blue_score {
        PROB_SCALE as int
    } else if red_score < blue_score {
        0
    } else {
        PROB_HALF as int
    }
}

/// The signed update magnitude `K * (result - expected)`, in thousandths of
/// a rating point, from red's perspective.
pub open spec fn delta_spec(red_avg: int, blue_avg: int, red_score: int, blue_score: int) -> int {
    tdiv(
        (K_FACTOR as int) * (outcome_spec(red_score, blue_score) - expected_spec(
            red_avg,
            blue_avg,
        )),
        PROB_SCALE as int,
    )
}

fn dyadic_pow10_exec(k: usize) -> (c: u64)
    requires
        k < 30,
    ensures
        c as int == dyadic_pow10(k as int),
        PROB_SCALE < c < 4 * (PROB_SCALE as u64),
{
    match k {
        0 => 3395469783,
        1 => 1909412977,
        2 => 1431857735,
        3 => 1239937715,
        4 => 1153851370,
        5 => 1113076131,
        6 => 1093232087,
        7 => 1083443130,
        8 => 1078581570,
        9 => 1076158976,
        10 => 1074949721,
        11 => 1074345603,
        12 => 1074043671,
        13 => 1073892737,
        14 => 1073817278,
        15 => 1073779550,
        16 => 1073760687,
        17 => 1073751255,
        18 => 1073746540,
        19 => 1073744182,
        20 => 1073743003,
        21 => 1073742413,
        22 => 1073742119,
        23 => 1073741971,
        24 => 1073741898,
        25 => 1073741861,
        26 => 1073741842,
        27 => 1073741833,
        28 => 1073741829,
        29 => 1073741826,
        _ => 1,
    }
}

/// Truncating division on `i128`, matching `tdiv`.
pub(crate) fn div_trunc(a: i128, b: i128) -> (q: i128)
    requires
        b != 0,
        a != i128::MIN,
        b != i128::MIN,
    ensures
        q as int == tdiv(a as int, b as int),
{
    let ua: u128 = if a >= 0 {
        a as u128
    } else {
        (-a) as u128
    };
    let ub: u128 = if b >= 0 {
        b as u128
    } else {
        (-b) as u128
    };
    let mag: u128 = ua / ub;
    proof {
        lemma_div_nonincreasing(ua as int, ub as int);
    }
    if (a < 0) != (b < 0) {
        -(mag as i128)
    } else {
        mag as i128
    }
}

fn pow10_int_exec(e: u64) -> (p: u64)
    requires
        e <= 9,
    ensures
        p as int == pow10_spec(e as int),
        1 <= p <= 1_000_000_000,
{
    let mut p: u64 = 1;
    let mut i: u64 = 0;
    proof {
        lemma_pow10_monotonic(0, 9);
    }
    while i < e
        invariant
            i <= e <= 9,
            p as int == pow10_spec(i as int),
            1 <= p,
            p as int <= pow10_spec(9),
        decreases e - i,
    {
        proof {
            lemma_pow10_monotonic(i as int + 1, 9);
            reveal_with_fuel(pow10_spec, 11);
            assert(pow10_spec(9) == 1_000_000_000);
        }
        p = p * 10;
        i = i + 1;
    }
    proof {
        reveal_with_fuel(pow10_spec, 11);
        assert(pow10_spec(9) == 1_000_000_000);
    }
    p
}

proof fn lemma_pow10_monotonic(a: int, b: int)
    requires
        0 <= a <= b,
    ensures
        pow10_spec(a) <= pow10_spec(b),
        pow10_spec(a) >= 1,
    decreases b,
{
    if a < b {
        lemma_pow10_monotonic(a, b - 1);
    } else if b > 0 {
        lemma_pow10_monotonic(a - 1, b - 1);
    }
}

#[verifier::rlimit(60)]
fn pow10_frac_exec(rem: u64) -> (v: u128)
    requires
        rem < EXP_DEN,
    ensures
        v as int == pow10_frac_spec(rem as int, 0, PROB_SCALE as int),
        PROB_SCALE as int <= v as int <= (PROB_SCALE as int) * pow(4, 30),
{
    let mut value: u128 = PROB_SCALE as u128;
    let mut num: u64 = rem;
    let mut k: usize = 0;
    proof {
        vstd::arithmetic::power::lemma_pow0(4);
    }
    while k < 30
        invariant
            k <= 30,
            num < EXP_DEN,
            PROB_SCALE as int <= value as int,
            value as int <= (PROB_SCALE as int) * pow(4, k as nat),
            pow10_frac_spec(rem as int, 0, PROB_SCALE as int) == pow10_frac_spec(
                num as int,
                k as int,
                value as int,
            ),
        decreases 30 - k,
    {
        proof {
            let s = PROB_SCALE as int;
            let pk = pow(4, k as nat);
            lemma_pow_increases(4, k as nat, 30);
            reveal_with_fuel(pow, 31);
            assert(pow(4, 30) == 0x1000000000000000);
            lemma_mul_inequality(pk, pow(4, 30), s);
            vstd::arithmetic::mul::lemma_mul_is_commutative(pk, s);
            vstd::arithmetic::mul::lemma_mul_is_commutative(pow(4, 30), s);
            assert(s * pow(4, 30) == 0x40000000000000000000000);
            assert(value as int <= 0x40000000000000000000000);
        }
        let n2 = num * 2;
        if n2 >= EXP_DEN {
            num = n2 - EXP_DEN;
            let c = dyadic_pow10_exec(k);
            proof {
                let s = PROB_SCALE as int;
                let v = value as int;
                let ci = c as int;
                let pk = pow(4, k as nat);
                let p1 = pow(4, (k + 1) as nat);
                assert(p1 == 4 * pk);
                // no overflow in value * c
                lemma_mul_upper_bound(v, 0x40000000000000000000000, ci, 0x1_0000_0000);
                // upper bound: value * c / s <= s * pow(4, k + 1)
                lemma_mul_upper_bound(v, s * pk, ci, 4 * s);
                lemma_mul_commute_assoc(s, pk, 4);
                lemma_div_is_ordered(v * ci, (s * p1) * s, s);
                vstd::arithmetic::mul::lemma_mul_is_commutative(s * p1, s);
                lemma_div_multiples_vanish(s * p1, s);
                // lower bound: value * c / s >= value
                lemma_mul_inequality(s, ci, v);
                vstd::arithmetic::mul::lemma_mul_is_commutative(s, v);
                vstd::arithmetic::mul::lemma_mul_is_commutative(ci, v);
                lemma_div_is_ordered(s * v, v * ci, s);
                lemma_div_multiples_vanish(v, s);
            }
            value = value * (c as u128) / (PROB_SCALE as u128);
        } else {
            num = n2;
            proof {
                let s = PROB_SCALE as int;
                let pk = pow(4, k as nat);
                assert(pow(4, (k + 1) as nat) == 4 * pk);
                lemma_mul_inequality(pk, 4 * pk, s);
                vstd::arithmetic::mul::lemma_mul_is_commutative(pk, s);
                vstd::arithmetic::mul::lemma_mul_is_commutative(4 * pk, s);
            }
        }
        k = k + 1;
    }
    value
}

proof fn lemma_mul_commute_assoc(s: int, p: int, f: int)
    ensures
        (s * p) * (f * s) == (s * (f * p)) * s,
{
    vstd::arithmetic::mul::lemma_mul_is_associative(s, p, f * s);
    vstd::arithmetic::mul::lemma_mul_is_associative(p, f, s);
    vstd::arithmetic::mul::lemma_mul_is_commutative(p, f);
    vstd::arithmetic::mul::lemma_mul_is_associative(s, f * p, s);
}

fn pow10_scaled_exec(y: u64) -> (p: u128)
    requires
        y <= EXP_CLAMP,
    ensures
        p as int == pow10_scaled_spec(y as int),
        PROB_SCALE as int <= p as int,
        p as int <= pow10_spec(9) * ((PROB_SCALE as int) * pow(4, 30)),
{
    let q = y / EXP_DEN;
    let rem = y % EXP_DEN;
    proof {
        assert((EXP_CLAMP as int) / (EXP_DEN as int) == 9);
        lemma_div_is_ordered(y as int, EXP_CLAMP as int, EXP_DEN as int);
    }
    let pi = pow10_int_exec(q);
    let pf = pow10_frac_exec(rem);
    proof {
        let s = PROB_SCALE as int;
        let bound = s * pow(4, 30);
        reveal_with_fuel(pow, 31);
        reveal_with_fuel(pow10_spec, 11);
        assert(pow(4, 30) == 0x1000000000000000);
        lemma_mul_upper_bound(pi as int, pow10_spec(9), pf as int, bound);
        lemma_mul_inequality(1, pi as int, pf as int);
        assert(pow10_spec(9) == 1_000_000_000);
    }
    (pi as u128) * pf
}

/// The expected outcome for red, scaled by 2^30.  The result always lies in
/// `[0, PROB_SCALE]` and equals `PROB_HALF` exactly when the averages are
/// equal.
pub fn expected_score(red_avg: i64, blue_avg: i64) -> (e: i64)
    ensures
        e as int == expected_spec(red_avg as int, blue_avg as int),
        0 <= e <= PROB_SCALE,
{
    let s: u128 = PROB_SCALE as u128;
    let d: i128 = blue_avg as i128 - red_avg as i128;
    if d >= 0 {
        let dd: u64 = if d > EXP_CLAMP as i128 {
            EXP_CLAMP
        } else {
            d as u64
        };
        let p = pow10_scaled_exec(dd);
        proof {
            lemma_pow_overflow_bound(p as int);
            let si = PROB_SCALE as int;
            lemma_div_is_ordered_by_denominator(si * si, si, si + p as int);
            lemma_div_multiples_vanish(si, si);
            lemma_div_pos_is_pos(si * si, si + p as int);
        }
        let e = s * s / (s + p);
        e as i64
    } else {
        let nd: i128 = -d;
        let dd: u64 = if nd > EXP_CLAMP as i128 {
            EXP_CLAMP
        } else {
            nd as u64
        };
        let p = pow10_scaled_exec(dd);
        proof {
            lemma_pow_overflow_bound(p as int);
            let si = PROB_SCALE as int;
            lemma_div_is_ordered_by_denominator(si * si, si, p as int);
            lemma_div_multiples_vanish(si, si);
            lemma_div_pos_is_pos(si * si, p as int);
        }
        let pinv = s * s / p;
        proof {
            let si = PROB_SCALE as int;
            lemma_div_is_ordered_by_denominator(si * si, si, si + pinv as int);
            lemma_div_pos_is_pos(si * si, si + pinv as int);
        }
        let e = s * s / (s + pinv);
        e as i64
    }
}

proof fn lemma_pow_overflow_bound(p: int)
    requires
        p <= pow10_spec(9) * ((PROB_SCALE as int) * pow(4, 30)),
        p >= PROB_SCALE as int,
    ensures
        p < 0x1_0000_0000_0000_0000_0000_0000_0000_0000 - 0x8000_0000,
{
    reveal_with_fuel(pow, 31);
    reveal_with_fuel(pow10_spec, 11);
    assert(pow(4, 30) == 0x1000000000000000);
    assert(pow10_spec(9) == 1_000_000_000);
    assert((PROB_SCALE as int) * pow(4, 30) == 0x40000000000000000000000);
    assert(pow10_spec(9) * ((PROB_SCALE as int) * pow(4, 30)) == 1_000_000_000
        * 0x40000000000000000000000);
}

/// The signed ELO update magnitude for one match, in thousandths of a rating
/// point, from red's perspective.
pub fn elo_delta(red_avg: i64, blue_avg: i64, red_score: isize, blue_score: isize) -> (d: i64)
    ensures
        d as int == delta_spec(red_avg as int, blue_avg as int, red_score as int, blue_score as int),
        -K_FACTOR <= d <= K_FACTOR,
{
    let e = expected_score(red_avg, blue_avg);
    let outcome: i64 = if red_score > blue_score {
        PROB_SCALE
    } else if red_score < blue_score {
        0
    } else {
        PROB_HALF
    };
    proof {
        let kf = K_FACTOR as int;
        let s = PROB_SCALE as int;
        let y = outcome - e;
        vstd::arithmetic::mul::lemma_mul_is_distributive_sub(kf, outcome as int, e as int);
        vstd::arithmetic::mul::lemma_mul_is_distributive_sub(kf, e as int, outcome as int);
        if y >= 0 {
            lemma_mul_upper_bound(kf, kf, y, s);
        } else {
            lemma_mul_upper_bound(kf, kf, -y, s);
        }
    }
    let num: i128 = (K_FACTOR as i128) * (outcome as i128 - e as i128);
    let d = div_trunc(num, PROB_SCALE as i128);
    proof {
        lemma_div_bound_by_factor(num as int, PROB_SCALE as int, K_FACTOR as int);
    }
    d as i64
}

/// When `b * lo <= a <= b * hi` with positive `b`, the truncating quotient
/// lies in `[lo, hi]`.
pub proof fn lemma_tdiv_bounds(a: int, b: int, lo: int, hi: int)
    requires
        0 < b,
        lo <= 0 <= hi,
        b * lo <= a <= b * hi,
    ensures
        lo <= tdiv(a, b) <= hi,
{
    vstd::arithmetic::mul::lemma_mul_is_commutative(b, hi);
    vstd::arithmetic::mul::lemma_mul_is_commutative(b, lo);
    if a >= 0 {
        lemma_div_pos_is_pos(a, b);
        lemma_div_is_ordered(a, hi * b, b);
        lemma_div_multiples_vanish(hi, b);
    } else {
        lemma_div_pos_is_pos(-a, b);
        vstd::arithmetic::mul::lemma_mul_unary_negation(lo, b);
        vstd::arithmetic::mul::lemma_mul_is_commutative(b, -lo);
        lemma_div_is_ordered(-a, (-lo) * b, b);
        lemma_div_multiples_vanish(-lo, b);
    }
}

/// When `|a| <= f * b` with positive `b`, the truncating quotient lies in
/// `[-f, f]`.
proof fn lemma_div_bound_by_factor(a: int, b: int, f: int)
    requires
        0 < b,
        0 <= f,
        -(f * b) <= a <= f * b,
    ensures
        -f <= tdiv(a, b) <= f,
{
    vstd::arithmetic::mul::lemma_mul_is_commutative(b, f);
    if a >= 0 {
        lemma_div_is_ordered(a, f * b, b);
        lemma_div_multiples_vanish(f, b);
        lemma_div_pos_is_pos(a, b);
    } else {
        lemma_div_is_ordered(-a, f * b, b);
        lemma_div_multiples_vanish(f, b);
        lemma_div_pos_is_pos(-a, b);
    }
}

} // verus!

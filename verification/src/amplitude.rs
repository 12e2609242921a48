use vstd::prelude::*;

verus! {

// Samples and velocities are held in fixed point: 1_000_000 micro-units
// stand for a linear amplitude of one.

/// Integer division truncated toward zero, for positive divisors. (The
/// spec-level `/` on int is Euclidean; truncation is what the executable
/// arithmetic below implements, and what the timing formulas ask for.)
pub open spec fn trunc_div(a: int, b: int) -> int {
    if a >= 0 {
        a / b
    } else {
        -((-a) / b)
    }
}

/// `x` clamped to the i64 range.
pub open spec fn clamp_i64(x: int) -> i64 {
    if x > i64::MAX as int {
        i64::MAX
    } else if x < i64::MIN as int {
        i64::MIN
    } else {
        x as i64
    }
}

/// A raw sample scaled by a velocity in micro-units, truncated toward zero.
pub open spec fn scaled(raw: int, velocity: u32) -> i64 {
    clamp_i64(trunc_div(raw * velocity, 1000000))
}

/// Saturating signed addition: the mixer's sample-wise operation.
pub fn clamped_add(a: i64, b: i64) -> (r: i64)
    ensures
        r == clamp_i64(a + b),
{
    let wide: i128 = (a as i128) + (b as i128);
    if wide > i64::MAX as i128 {
        i64::MAX
    } else if wide < i64::MIN as i128 {
        i64::MIN
    } else {
        wide as i64
    }
}

/// Every raw oscillator sample is scaled by the note's velocity before it
/// is returned.
pub fn scale_velocity(raw: i64, velocity: u32) -> (r: i64)
    ensures
        r == scaled(raw as int, velocity),
{
    proof {
        assert(-40000000000000000000000000000 < (raw as int) * (velocity as int)
            < 40000000000000000000000000000) by (nonlinear_arith)
            requires
                i64::MIN <= raw <= i64::MAX,
                velocity <= u32::MAX,
        ;
    }
    let prod: i128 = (raw as i128) * (velocity as i128);
    let neg = prod < 0;
    let mag: u128 = if neg {
        (-prod) as u128
    } else {
        prod as u128
    };
    let qm: u128 = mag / 1000000u128;
    let q: i128 = if neg {
        -(qm as i128)
    } else {
        qm as i128
    };
    if q > i64::MAX as i128 {
        i64::MAX
    } else if q < i64::MIN as i128 {
        i64::MIN
    } else {
        q as i64
    }
}

} // verus!

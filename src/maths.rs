use vstd::prelude::*;
use vstd::arithmetic::div_mod::{lemma_div_is_ordered, lemma_div_multiples_vanish};

verus! {

/// The mathematical (non-negative) remainder of `dividend` by `divisor`,
/// also for negative dividends.
pub fn modulo(dividend: i64, divisor: u64) -> (r: u64)
    requires
        divisor > 0,
    ensures
        r as int == (dividend as int) % (divisor as int),
        r < divisor,
{
    if dividend >= 0 {
        (dividend as u64) % divisor
    } else {
        let n: u64 = (0i128 - dividend as i128) as u64;
        let m: u64 = n % divisor;
        proof {
            let d = divisor as int;
            let q = (n as int) / d;
            vstd::arithmetic::div_mod::lemma_fundamental_div_mod(n as int, d);
            if m > 0 {
                assert(dividend as int == (-q - 1) * d + (d - m)) by (nonlinear_arith)
                    requires
                        dividend as int == -(n as int),
                        n as int == d * q + m as int,
                ;
                vstd::arithmetic::div_mod::lemma_fundamental_div_mod_converse(
                    dividend as int,
                    d,
                    -q - 1,
                    d - m,
                );
            } else {
                assert(dividend as int == (-q) * d + 0) by (nonlinear_arith)
                    requires
                        dividend as int == -(n as int),
                        n as int == d * q + m as int,
                        m == 0,
                ;
                vstd::arithmetic::div_mod::lemma_fundamental_div_mod_converse(
                    dividend as int,
                    d,
                    -q,
                    0,
                );
            }
        }
        if m == 0 {
            0
        } else {
            divisor - m
        }
    }
}

/// The full scale of an analog reading: readings lie in `0 ..= ANALOG_IN_MAX`.
pub const ANALOG_IN_MAX: u16 = 1024;

/// Three-way clamp: `low` when `val <= low`, else `high` when `val >= high`,
/// else `val`.
pub open spec fn clamp_spec(val: int, low: int, high: int) -> int {
    if val <= low {
        low
    } else if val >= high {
        high
    } else {
        val
    }
}

/// Clamps `val` into `low ..= high`: unchanged inside, else the nearer bound.
pub fn clamp(val: u32, low: u32, high: u32) -> (r: u32)
    ensures
        r as int == clamp_spec(val as int, low as int, high as int),
        low <= val <= high ==> r == val,
        low <= high && val < low ==> r == low,
        low <= high && val > high ==> r == high,
        low == high ==> r == low,
{
    if val <= low {
        low
    } else if val >= high {
        high
    } else {
        val
    }
}

/// Linear rescale of `val` from the range `0 ..= from` into `0 ..= to`,
/// truncating.
pub fn map_range(val: u32, from: u32, to: u32) -> (r: u32)
    requires
        from > 0,
        val * to <= u32::MAX,
    ensures
        r as int == (val as int * to as int) / (from as int),
{
    val * to / from
}

/// An analog reading scaled into `0 ..= range`.
pub open spec fn analog_scaled(val: int, range: int) -> int {
    (val * range) / (ANALOG_IN_MAX as int)
}

/// Rescales an analog reading into `0 ..= range`, truncating.
pub fn map_analog_value(val: u16, range: u16) -> (r: u16)
    requires
        val <= ANALOG_IN_MAX,
    ensures
        r as int == analog_scaled(val as int, range as int),
        r <= range,
{
    proof {
        lemma_analog_scaled_bounded(val as int, range as int);
    }
    (val as u32 * range as u32 / ANALOG_IN_MAX as u32) as u16
}

/// A reading within the full scale scales to at most `range`.
proof fn lemma_analog_scaled_bounded(val: int, range: int)
    requires
        0 <= val <= ANALOG_IN_MAX,
        0 <= range,
    ensures
        0 <= analog_scaled(val, range) <= range,
{
    assert(0 <= val * range <= ANALOG_IN_MAX * range) by (nonlinear_arith)
        requires
            0 <= val <= ANALOG_IN_MAX,
            0 <= range,
    ;
    lemma_div_is_ordered(val * range, ANALOG_IN_MAX * range, ANALOG_IN_MAX as int);
    lemma_div_is_ordered(0, val * range, ANALOG_IN_MAX as int);
    lemma_div_multiples_vanish(range, ANALOG_IN_MAX as int);
}

/// Scaling an analog reading is monotonic, and the full-scale reading never
/// exceeds the target range.
pub proof fn lemma_map_analog_value_monotonic(a: u16, b: u16, range: u16)
    requires
        a <= b <= ANALOG_IN_MAX,
    ensures
        analog_scaled(a as int, range as int) <= analog_scaled(b as int, range as int),
        analog_scaled(ANALOG_IN_MAX as int, range as int) <= range,
{
    assert(a as int * range as int <= b as int * range as int) by (nonlinear_arith)
        requires
            a <= b,
    ;
    lemma_div_is_ordered(a as int * range as int, b as int * range as int, ANALOG_IN_MAX as int);
    lemma_analog_scaled_bounded(ANALOG_IN_MAX as int, range as int);
}

} // verus!

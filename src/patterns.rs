use vstd::prelude::*;
use vstd::arithmetic::div_mod::{
    lemma_fundamental_div_mod,
    lemma_fundamental_div_mod_converse,
    lemma_mod_multiples_vanish,
    lemma_div_multiples_vanish,
};
use crate::maths::modulo;

verus! {

/// How many onsets an evenly spread `onsets`-of-`steps` pattern places in
/// its first `k` steps: `floor(k * onsets / steps)`.
pub open spec fn onsets_before(steps: int, onsets: int, k: int) -> int {
    (k * onsets) / steps
}

/// Step `k` of the unrotated pattern is an onset when the running count of
/// onsets goes up across it.
pub open spec fn is_onset(steps: int, onsets: int, k: int) -> bool {
    onsets_before(steps, onsets, k + 1) > onsets_before(steps, onsets, k)
}

/// The step of the unrotated pattern that `current_step` plays under
/// `rotation`.
pub open spec fn pattern_index(steps: int, rotation: int, current_step: int) -> int {
    (current_step - (rotation + 1)) % steps
}

/// Whether `current_step` fires in the Euclidean rhythm of `onsets` pulses
/// over `steps` slots, rotated by `rotation`.
pub open spec fn euclidean_spec(steps: int, onsets: int, rotation: int, current_step: int) -> bool {
    if steps <= 0 || onsets <= 0 {
        false
    } else if onsets >= steps {
        true
    } else {
        is_onset(steps, onsets, pattern_index(steps, rotation, current_step))
    }
}

/// How many of the steps `0 .. n` fire.
pub open spec fn onset_count(steps: int, onsets: int, rotation: int, n: nat) -> nat
    decreases n,
{
    if n == 0 {
        0
    } else {
        onset_count(steps, onsets, rotation, (n - 1) as nat) + if euclidean_spec(
            steps,
            onsets,
            rotation,
            n - 1,
        ) {
            1nat
        } else {
            0nat
        }
    }
}

/// One step of the bucket accumulator: the bucket `k * onsets mod steps`
/// overflows on step `k` exactly when step `k` is an onset.
proof fn lemma_bucket_step(steps: int, onsets: int, k: int)
    requires
        0 < onsets < steps,
        k >= 0,
    ensures
        ({
            let m = (k * onsets) % steps;
            &&& ((k + 1) * onsets) % steps == if m + onsets >= steps {
                m + onsets - steps
            } else {
                m + onsets
            }
            &&& is_onset(steps, onsets, k) == (m + onsets >= steps)
            &&& onsets_before(steps, onsets, k + 1) - onsets_before(steps, onsets, k) == if m
                + onsets >= steps {
                1int
            } else {
                0int
            }
        }),
{
    let m = (k * onsets) % steps;
    let q = (k * onsets) / steps;
    lemma_fundamental_div_mod(k * onsets, steps);
    assert((k + 1) * onsets == k * onsets + onsets) by (nonlinear_arith);
    if m + onsets >= steps {
        assert((k + 1) * onsets == (q + 1) * steps + (m + onsets - steps)) by (nonlinear_arith)
            requires
                (k + 1) * onsets == k * onsets + onsets,
                k * onsets == steps * q + m,
        ;
        lemma_fundamental_div_mod_converse((k + 1) * onsets, steps, q + 1, m + onsets - steps);
    } else {
        assert((k + 1) * onsets == q * steps + (m + onsets)) by (nonlinear_arith)
            requires
                (k + 1) * onsets == k * onsets + onsets,
                k * onsets == steps * q + m,
        ;
        lemma_fundamental_div_mod_converse((k + 1) * onsets, steps, q, m + onsets);
    }
}

/// The index into the unrotated pattern, `(current_step - (rotation + 1)) mod steps`,
/// computed without leaving fixed-width arithmetic.
fn pattern_position(steps: u64, rotation: i64, current_step: u64) -> (r: u64)
    requires
        steps > 0,
    ensures
        r as int == pattern_index(steps as int, rotation as int, current_step as int),
        r < steps,
{
    let cs: u64 = current_step % steps;
    let rr: u64 = modulo(rotation, steps);
    let d: u64 = steps - 1 - rr;
    let r: u64 = if cs >= steps - d {
        cs - (steps - d)
    } else {
        cs + d
    };
    proof {
        let st = steps as int;
        let a = (current_step as int) / st;
        let b = (rotation as int) / st;
        lemma_fundamental_div_mod(current_step as int, st);
        lemma_fundamental_div_mod(rotation as int, st);
        let x = current_step as int - (rotation as int + 1);
        if cs >= steps - d {
            assert(x == (a - b) * st + r as int) by (nonlinear_arith)
                requires
                    current_step as int == st * a + cs as int,
                    rotation as int == st * b + rr as int,
                    x == current_step as int - (rotation as int + 1),
                    r as int == cs as int + d as int - st,
                    d as int == st - 1 - rr as int,
            ;
            lemma_fundamental_div_mod_converse(x, st, a - b, r as int);
        } else {
            assert(x == (a - b - 1) * st + r as int) by (nonlinear_arith)
                requires
                    current_step as int == st * a + cs as int,
                    rotation as int == st * b + rr as int,
                    x == current_step as int - (rotation as int + 1),
                    r as int == cs as int + d as int,
                    d as int == st - 1 - rr as int,
            ;
            lemma_fundamental_div_mod_converse(x, st, a - b - 1, r as int);
        }
    }
    r
}

/// Determines whether `current_step` is an onset of the Euclidean rhythm that
/// spreads `onsets` pulses as evenly as possible over `steps` slots, rotated
/// by `rotation`. No pattern (`steps == 0` or `onsets == 0`) is silent; with
/// `onsets >= steps` every step fires.
pub fn euclidean(steps: u64, onsets: u64, rotation: i64, current_step: u64) -> (r: bool)
    ensures
        r == euclidean_spec(steps as int, onsets as int, rotation as int, current_step as int),
{
    if steps == 0 || onsets == 0 {
        return false;
    }
    if onsets >= steps {
        return true;
    }
    let target_step = pattern_position(steps, rotation, current_step);
    let mut bucket: u64 = 0;
    let mut is_on = false;
    let mut i: u64 = 0;
    proof {
        assert(0 * (onsets as int) == 0);
    }
    while i <= target_step
        invariant
            0 < onsets < steps,
            target_step < steps,
            i <= target_step + 1,
            bucket as int == (i as int * onsets as int) % (steps as int),
            i > 0 ==> is_on == is_onset(steps as int, onsets as int, i - 1),
        decreases target_step + 1 - i,
    {
        proof {
            lemma_bucket_step(steps as int, onsets as int, i as int);
        }
        is_on = false;
        if bucket >= steps - onsets {
            bucket = bucket - (steps - onsets);
            is_on = true;
        } else {
            bucket = bucket + onsets;
        }
        i = i + 1;
    }
    is_on
}

/// The pattern repeats every `steps` steps: shifting `current_step` by any
/// whole number of periods leaves the decision unchanged.
pub proof fn lemma_euclidean_periodic(steps: u64, onsets: u64, rotation: i64, current_step: int, k: int)
    requires
        steps > 0,
    ensures
        euclidean_spec(steps as int, onsets as int, rotation as int, current_step + k * steps)
            == euclidean_spec(steps as int, onsets as int, rotation as int, current_step),
{
    let st = steps as int;
    let x = current_step - (rotation as int + 1);
    assert(current_step + k * st - (rotation as int + 1) == st * k + x) by (nonlinear_arith)
        requires
            x == current_step - (rotation as int + 1),
            st == steps as int,
    ;
    lemma_mod_multiples_vanish(k, x, st);
}

/// Where in the unrotated pattern step `s` of one period lands, once the
/// rotation is reduced to `c = (rotation + 1) mod steps`.
proof fn lemma_index_in_period(steps: int, rotation: int, s: int)
    requires
        steps > 0,
        0 <= s < steps,
    ensures
        ({
            let c = (rotation + 1) % steps;
            pattern_index(steps, rotation, s) == if s < c {
                s - c + steps
            } else {
                s - c
            }
        }),
{
    let c = (rotation + 1) % steps;
    let b = (rotation + 1) / steps;
    lemma_fundamental_div_mod(rotation + 1, steps);
    let x = s - (rotation + 1);
    if s < c {
        assert(x == (-b - 1) * steps + (s - c + steps)) by (nonlinear_arith)
            requires
                rotation + 1 == steps * b + c,
                x == s - (rotation + 1),
        ;
        lemma_fundamental_div_mod_converse(x, steps, -b - 1, s - c + steps);
    } else {
        assert(x == (-b) * steps + (s - c)) by (nonlinear_arith)
            requires
                rotation + 1 == steps * b + c,
                x == s - (rotation + 1),
        ;
        lemma_fundamental_div_mod_converse(x, steps, -b, s - c);
    }
}

/// The count of onsets over a prefix of one period, as a difference of
/// running onset counts of the unrotated pattern.
proof fn lemma_count_prefix(steps: int, onsets: int, rotation: int, n: nat)
    requires
        0 < onsets < steps,
        n <= steps,
    ensures
        ({
            let c = (rotation + 1) % steps;
            onset_count(steps, onsets, rotation, n) == if n <= c {
                onsets_before(steps, onsets, n - c + steps) - onsets_before(steps, onsets, steps - c)
            } else {
                onsets_before(steps, onsets, steps) - onsets_before(steps, onsets, steps - c)
                    + onsets_before(steps, onsets, n - c) - onsets_before(steps, onsets, 0)
            }
        }),
    decreases n,
{
    let c = (rotation + 1) % steps;
    if n > 0 {
        let s = n - 1;
        lemma_count_prefix(steps, onsets, rotation, (n - 1) as nat);
        lemma_index_in_period(steps, rotation, s);
        let idx = pattern_index(steps, rotation, s);
        lemma_fundamental_div_mod(idx * onsets, steps);
        lemma_bucket_step(steps, onsets, idx);
    }
}

/// Over one period the pattern fires on exactly `onsets` steps.
pub proof fn lemma_euclidean_density(steps: u64, onsets: u64, rotation: i64)
    requires
        steps > 0,
        onsets <= steps,
    ensures
        onset_count(steps as int, onsets as int, rotation as int, steps as nat) == onsets,
{
    let st = steps as int;
    let on = onsets as int;
    if onsets == 0 || onsets == steps {
        lemma_count_constant(st, on, rotation as int, steps as nat);
    } else {
        lemma_count_prefix(st, on, rotation as int, steps as nat);
        lemma_div_multiples_vanish(on, st);
        assert(0 * on == 0);
        assert(st * on == on * st) by (nonlinear_arith);
    }
}

/// A silent pattern counts no onsets, a full one counts every step.
proof fn lemma_count_constant(steps: int, onsets: int, rotation: int, n: nat)
    requires
        steps > 0,
        onsets == 0 || onsets == steps,
    ensures
        onset_count(steps, onsets, rotation, n) == if onsets == 0 {
            0
        } else {
            n
        },
    decreases n,
{
    if n > 0 {
        lemma_count_constant(steps, onsets, rotation, (n - 1) as nat);
    }
}

/// No steps or no onsets is silent everywhere; as many onsets as steps fires
/// everywhere.
pub proof fn lemma_euclidean_extremes(steps: u64, onsets: u64, rotation: i64, current_step: u64)
    ensures
        steps > 0 ==> !euclidean_spec(steps as int, 0, rotation as int, current_step as int),
        steps > 0 ==> euclidean_spec(steps as int, steps as int, rotation as int, current_step as int),
        !euclidean_spec(0, onsets as int, rotation as int, current_step as int),
{
}

/// Rotation is an index offset of the unrotated pattern: under rotation `r`,
/// step `s` plays what step `(s - r) mod steps` plays unrotated.
pub proof fn lemma_euclidean_rotation_offset(steps: u64, onsets: u64, rotation: i64, current_step: int)
    requires
        steps > 0,
    ensures
        euclidean_spec(steps as int, onsets as int, rotation as int, current_step)
            == euclidean_spec(steps as int, onsets as int, 0, (current_step - rotation) % (steps as int)),
{
    let st = steps as int;
    let y = current_step - rotation;
    let q = y / st;
    lemma_fundamental_div_mod(y, st);
    assert(y - 1 == st * q + (y % st - 1));
    lemma_mod_multiples_vanish(q, y % st - 1, st);
}

/// The shift law with the index written `(s + r) mod steps`. It agrees with
/// the offset law when `2 * r` is a multiple of `steps` (so that `s + r` and
/// `s - r` fall on the same step), and trivially for silent or full patterns.
pub proof fn lemma_euclidean_rotation_shift(steps: u64, onsets: u64, rotation: i64, current_step: int)
    requires
        steps > 0,
        (2 * rotation) % (steps as int) == 0 || onsets == 0 || onsets >= steps,
    ensures
        euclidean_spec(steps as int, onsets as int, rotation as int, current_step)
            == euclidean_spec(steps as int, onsets as int, 0, (current_step + rotation) % (steps as int)),
{
    let st = steps as int;
    if 0 < onsets < steps {
        let r = rotation as int;
        let y = current_step + r;
        let q = y / st;
        lemma_fundamental_div_mod(y, st);
        assert(y - 1 == st * q + (y % st - 1));
        lemma_mod_multiples_vanish(q, y % st - 1, st);
        let j = (2 * r) / st;
        lemma_fundamental_div_mod(2 * r, st);
        assert(current_step + r - 1 == st * j + (current_step - (r + 1)));
        lemma_mod_multiples_vanish(j, current_step - (r + 1), st);
    }
}

} // verus!

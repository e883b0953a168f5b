//! The step size h = round((b - a) / N, p), computed exactly.
use vstd::prelude::*;
use vstd::arithmetic::div_mod::lemma_fundamental_div_mod;
use crate::decimal::{
    pow10, pow10_u64, round_half_away, lemma_pow10_add, lemma_pow10_positive, lemma_pow10_monotone, ONE, MAX_UNITS,
};
use crate::input::{Bounds, MAX_PLACES};

verus! {

/// The step size in units of 10^-places: (upper - lower) / steps rounded to
/// `places` decimal places, where the bounds are in units of 10^-SCALE.
pub open spec fn step_units(lower: int, upper: int, steps: int, places: nat) -> int {
    round_half_away((upper - lower) * pow10(places), ONE * steps)
}

/// A step size with a fixed number of decimal places: its value is
/// `units / 10^places`.
#[derive(Clone, Copy, Debug, PartialEq, Eq, Structural)]
pub struct StepSize {
    pub units: i128,
    pub places: u32,
}

/// The places the step size is rounded to: those asked for, up to
/// `MAX_PLACES`, the most whose rounding fits 128-bit arithmetic.
pub open spec fn rounded_places(places: nat) -> nat {
    if places > MAX_PLACES {
        MAX_PLACES as nat
    } else {
        places
    }
}

/// Splits [lower, upper] into `steps` steps and rounds the length of one to
/// `places` decimal places (at most `MAX_PLACES`), halves away from zero.
pub fn derive_step_size(bounds: Bounds, steps: u64, places: u64) -> (r: StepSize)
    requires
        bounds.lower.wf(),
        bounds.upper.wf(),
        steps >= 1,
    ensures
        r.places == rounded_places(places as nat),
        r.units == step_units(
            bounds.lower.units as int,
            bounds.upper.units as int,
            steps as int,
            rounded_places(places as nat),
        ),
{
    let kept: u32 = if places > MAX_PLACES { MAX_PLACES as u32 } else { places as u32 };
    let d: i128 = bounds.upper.units - bounds.lower.units;
    let negative: bool = d < 0;
    let mag: u128 = if negative { (0 - d) as u128 } else { d as u128 };
    let ghost big_num: int = mag as int * pow10(kept as nat);
    let ghost big_den: int = ONE as int * steps as int;
    proof {
        reveal_with_fuel(pow10, 20);
        lemma_pow10_positive(kept as nat);
    }
    // With ten or more places the scale 10^9 of both terms cancels.
    let (num, den): (u128, u128) = if kept <= 9 {
        let p: u64 = pow10_u64(kept);
        proof {
            lemma_pow10_monotone(kept as nat, 9);
        }
        assert(mag as int * p as int <= 2_000_000_000_000_000_000_000_000_000_000_000_000) by (nonlinear_arith)
            requires
                0 <= mag <= 2 * MAX_UNITS,
                0 <= p <= 1_000_000_000,
        ;
        (mag * p as u128, ONE as u128 * steps as u128)
    } else {
        let p: u64 = pow10_u64(kept - 9);
        proof {
            lemma_pow10_monotone((kept - 9) as nat, 10);
            lemma_pow10_add(9, (kept - 9) as nat);
            assert(9 + (kept - 9) as nat == kept as nat);
        }
        assert(mag as int * p as int <= 20_000_000_000_000_000_000_000_000_000_000_000_000) by (nonlinear_arith)
            requires
                0 <= mag <= 2 * MAX_UNITS,
                0 <= p <= 10_000_000_000,
        ;
        assert(big_num == 1_000_000_000 * (mag as int * p as int)) by (nonlinear_arith)
            requires
                big_num == mag as int * pow10(kept as nat),
                pow10(kept as nat) == 1_000_000_000 * (p as int),
        ;
        (mag * p as u128, steps as u128)
    };
    assert(den >= 1);
    let q: u128 = (2 * num + den) / (2 * den);
    assert(q <= 2 * num + den) by (nonlinear_arith)
        requires
            q == (2 * num + den) / (2 * den),
            den >= 1,
            num >= 0,
    ;
    proof {
        // Both branches compute the quotient of the unscaled terms.
        if kept > 9 {
            vstd::arithmetic::div_mod::lemma_div_multiples_vanish_quotient(
                ONE as int,
                2 * num + den,
                2 * den,
            );
            assert((ONE as int) * (2 * num + den) == 2 * big_num + big_den) by (nonlinear_arith)
                requires
                    big_num == 1_000_000_000 * num,
                    big_den == 1_000_000_000 * den,
                    ONE == 1_000_000_000,
            ;
            assert((ONE as int) * (2 * den) == 2 * big_den);
        }
        assert(q == (2 * big_num + big_den) / (2 * big_den));
        let n = (bounds.upper.units - bounds.lower.units) * pow10(kept as nat);
        assert(n == d as int * pow10(kept as nat));
        if negative {
            assert(-n == big_num) by (nonlinear_arith)
                requires
                    n == d as int * pow10(kept as nat),
                    big_num == mag as int * pow10(kept as nat),
                    mag == -d,
            ;
            assert(n < 0) by (nonlinear_arith)
                requires
                    n == d as int * pow10(kept as nat),
                    d < 0,
                    pow10(kept as nat) >= 1,
            ;
        } else {
            assert(n == big_num);
            assert(n >= 0) by (nonlinear_arith)
                requires
                    n == d as int * pow10(kept as nat),
                    d >= 0,
                    pow10(kept as nat) >= 1,
            ;
        }
    }
    let units: i128 = if negative { 0 - q as i128 } else { q as i128 };
    StepSize { units, places: kept }
}

/// The rounded step size lies within half a unit in its last place of the
/// exact step size: |h - (b - a) / N| <= 10^-p / 2, written without division.
pub proof fn lemma_step_size_nearest(lower: int, upper: int, steps: int, places: nat)
    requires
        steps >= 1,
    ensures
        ({
            let num = (upper - lower) * pow10(places);
            let den = ONE * steps;
            let q = step_units(lower, upper, steps, places);
            -den <= 2 * den * q - 2 * num <= den
        }),
{
    let num = (upper - lower) * pow10(places);
    let den = ONE * steps;
    let q = step_units(lower, upper, steps, places);
    if num >= 0 {
        let a = 2 * num + den;
        lemma_fundamental_div_mod(a, 2 * den);
        assert(0 <= a % (2 * den) < 2 * den) by {
            vstd::arithmetic::div_mod::lemma_mod_bound(a, 2 * den);
        }
        assert(q == a / (2 * den));
        assert(-den <= 2 * den * q - 2 * num <= den) by (nonlinear_arith)
            requires
                a == 2 * den * (a / (2 * den)) + a % (2 * den),
                0 <= a % (2 * den) < 2 * den,
                q == a / (2 * den),
                a == 2 * num + den,
        ;
    } else {
        let a = -2 * num + den;
        lemma_fundamental_div_mod(a, 2 * den);
        assert(0 <= a % (2 * den) < 2 * den) by {
            vstd::arithmetic::div_mod::lemma_mod_bound(a, 2 * den);
        }
        assert(q == -(a / (2 * den)));
        assert(-den <= 2 * den * q - 2 * num <= den) by (nonlinear_arith)
            requires
                a == 2 * den * (a / (2 * den)) + a % (2 * den),
                0 <= a % (2 * den) < 2 * den,
                q == -(a / (2 * den)),
                a == -2 * num + den,
        ;
    }
}

/// The step size depends on the bounds, the step count and the places alone:
/// equal inputs give equal step sizes.
pub proof fn lemma_step_size_deterministic(
    lower: int,
    upper: int,
    steps: int,
    places: nat,
    lower2: int,
    upper2: int,
    steps2: int,
    places2: nat,
)
    requires
        lower == lower2,
        upper == upper2,
        steps == steps2,
        places == places2,
    ensures
        step_units(lower, upper, steps, places) == step_units(lower2, upper2, steps2, places2),
{
}

/// Equal bounds give a step size of zero, whatever the step count and places.
pub proof fn lemma_equal_bounds_zero_step(a: int, steps: int, places: nat)
    requires
        steps >= 1,
    ensures
        step_units(a, a, steps, places) == 0,
{
    let den = ONE * steps;
    assert(den >= 1);
    assert((2 * 0 + den) / (2 * den) == 0) by (nonlinear_arith)
        requires den >= 1;
}

} // verus!

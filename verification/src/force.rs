//! The pairwise force law.
//!
//! The law maps the distance between two particles, normalised by the
//! interaction radius, and the affinity of the ordered pair of their colour
//! classes to the magnitude of the force along the line that joins them. A
//! negative value pushes the particles apart, a positive one pulls them
//! together.
use vstd::prelude::*;
use crate::fixed::{lemma_floor_div, lemma_tdiv_bounds, magnitude, tdiv, ONE};

verus! {

/// The collision margin: the normalised distance below which two particles
/// repel each other whatever their affinity. It stands for one fifth.
pub const MARGIN: i64 = 200_000;

/// How far the normalised distance `r` lies from the middle of the mid range
/// `[MARGIN, ONE]`, counted in half steps: `|2r - 1 - b|`.
pub open spec fn deviation(r: int) -> int {
    magnitude(2 * r - ONE - MARGIN)
}

/// The height of the pulse at the normalised distance `r` of the mid range,
/// in units of which `ONE - MARGIN` make the full height.
pub open spec fn weight(r: int) -> int {
    ONE - MARGIN - deviation(r)
}

/// The force law on fixed-point quantities.
///
/// Below the margin the force is the repulsion `r/b - 1`, which rises linearly
/// from minus one at distance zero to zero at the margin. From the margin up
/// to distance one it is the triangular pulse `a * (1 - |2r - 1 - b| / (1 - b))`,
/// which is zero at both ends and peaks at `a` midway. From distance one on
/// there is no force.
pub open spec fn force_value(r: int, a: int) -> int {
    if r < MARGIN {
        tdiv(r * ONE, MARGIN as int) - ONE
    } else if r < ONE {
        tdiv(a * weight(r), ONE - MARGIN)
    } else {
        0
    }
}

/// The values of the law at the ends and at the middle of its ranges: full
/// repulsion at distance zero, nothing at the margin and at distance one, and
/// the affinity itself halfway between the margin and one.
pub proof fn lemma_force_boundary_values(a: int)
    ensures
        force_value(0, a) == -ONE,
        force_value(MARGIN as int, a) == 0,
        force_value(ONE as int, a) == 0,
        force_value((ONE + MARGIN) / 2, a) == a,
{
    assert(a * 0 == 0);
    assert(tdiv(a * 800_000, 800_000) == a) by {
        if a >= 0 {
            assert((a * 800_000) / 800_000 == a) by (nonlinear_arith)
                requires
                    a >= 0,
            ;
        } else {
            assert((-(a * 800_000)) / 800_000 == -a) by (nonlinear_arith)
                requires
                    a < 0,
            ;
        }
    }
}

/// Below the margin the repulsion is exactly `5r - 1`: it never rounds.
pub proof fn lemma_force_repulsion(r: int, a: int)
    requires
        0 <= r < MARGIN,
    ensures
        force_value(r, a) == 5 * r - ONE,
        -ONE <= force_value(r, a) < 0,
{
    assert((r * 1_000_000) / 200_000 == 5 * r) by (nonlinear_arith)
        requires
            r >= 0,
    ;
}

/// The force never exceeds the larger of one and the affinity in magnitude,
/// and in the mid range it has the sign of the affinity.
pub proof fn lemma_force_bounded(r: int, a: int)
    requires
        0 <= r,
    ensures
        r < MARGIN ==> -ONE <= force_value(r, a) < 0,
        r >= MARGIN ==> magnitude(force_value(r, a)) <= magnitude(a),
        r >= MARGIN && a >= 0 ==> force_value(r, a) >= 0,
        r >= MARGIN && a <= 0 ==> force_value(r, a) <= 0,
{
    if r < MARGIN {
        lemma_force_repulsion(r, a);
    } else if r < ONE {
        let t = weight(r);
        assert(0 <= t <= 800_000);
        let d = 800_000int;
        lemma_tdiv_bounds(a * t, d);
        if a >= 0 {
            assert(0 <= a * t <= a * d) by (nonlinear_arith)
                requires
                    a >= 0,
                    0 <= t <= d,
            ;
            let q = tdiv(a * t, d);
            assert(q <= a) by (nonlinear_arith)
                requires
                    q * d <= a * t,
                    a * t <= a * d,
                    d > 0,
            ;
        } else {
            assert(a * d <= a * t <= 0) by (nonlinear_arith)
                requires
                    a < 0,
                    0 <= t <= d,
            ;
            let q = tdiv(a * t, d);
            assert(q >= a) by (nonlinear_arith)
                requires
                    a * t <= q * d,
                    a * d <= a * t,
                    d > 0,
            ;
        }
    }
}

/// Different affinities give different forces: at a distance of the mid range
/// the stronger of two affinities gives the force of the larger magnitude,
/// wherever the affinities differ in magnitude by enough for the pulse at that
/// distance to carry the difference over the rounding. At the peak of the
/// pulse any difference is enough.
pub proof fn lemma_force_tells_affinities_apart(r: int, a1: int, a2: int)
    requires
        MARGIN <= r < ONE,
        (magnitude(a1) - magnitude(a2)) * weight(r) >= ONE - MARGIN,
    ensures
        magnitude(force_value(r, a1)) > magnitude(force_value(r, a2)),
{
    let d = 800_000int;
    let t = weight(r);
    let m1 = magnitude(a1);
    let m2 = magnitude(a2);
    assert(0 <= t <= d);
    lemma_force_magnitude(r, a1);
    lemma_force_magnitude(r, a2);
    lemma_floor_div(m1 * t, d);
    lemma_floor_div(m2 * t, d);
    let q1 = (m1 * t) / d;
    let q2 = (m2 * t) / d;
    assert(m1 * t >= m2 * t + d) by (nonlinear_arith)
        requires
            (m1 - m2) * t >= d,
    ;
    assert(q1 > q2) by (nonlinear_arith)
        requires
            q1 * d <= m1 * t < (q1 + 1) * d,
            q2 * d <= m2 * t < (q2 + 1) * d,
            m1 * t >= m2 * t + d,
            d > 0,
    ;
}

/// In the mid range the magnitude of the force is the magnitude of the
/// affinity times the height of the pulse, rounded down.
pub proof fn lemma_force_magnitude(r: int, a: int)
    requires
        MARGIN <= r < ONE,
    ensures
        magnitude(force_value(r, a)) == (magnitude(a) * weight(r)) / (ONE - MARGIN),
{
    let d = 800_000int;
    let t = weight(r);
    assert(0 <= t <= d);
    lemma_tdiv_bounds(a * t, d);
    if a >= 0 {
        assert(a * t >= 0) by (nonlinear_arith)
            requires
                a >= 0,
                t >= 0,
        ;
    } else {
        assert(a * t <= 0 && -(a * t) == (-a) * t) by (nonlinear_arith)
            requires
                a < 0,
                t >= 0,
        ;
        lemma_floor_div((-a) * t, d);
    }
}

/// The magnitude of the force at normalised distance `r` for affinity `a`.
pub fn force(r: i64, a: i64) -> (f: i64)
    requires
        0 <= r,
    ensures
        f == force_value(r as int, a as int),
{
    if r < MARGIN {
        proof {
            lemma_force_repulsion(r as int, a as int);
        }
        5 * r - ONE
    } else if r < ONE {
        let twice: i64 = 2 * r - ONE - MARGIN;
        let dev: i64 = if twice < 0 {
            -twice
        } else {
            twice
        };
        let weight: i64 = ONE - MARGIN - dev;
        proof {
            lemma_force_bounded(r as int, a as int);
        }
        assert(-0x8000_0000_0000_0000 * 800_000 <= a * weight <= 0x8000_0000_0000_0000 * 800_000)
            by (nonlinear_arith)
            requires
                -0x8000_0000_0000_0000 <= a <= 0x8000_0000_0000_0000,
                0 <= weight <= 800_000,
        ;
        let p: i128 = (a as i128) * (weight as i128);
        let q: i128 = p / ((ONE - MARGIN) as i128);
        q as i64
    } else {
        0
    }
}

} // verus!

//! Fixed-point arithmetic on `i64` quantities.
//!
//! Every real-valued quantity of the simulation (a coordinate, a velocity, an
//! affinity, a time step) is held as an `i64` count of millionths: the integer
//! `q` stands for the real number `q / ONE`. Intermediate results are computed
//! exactly in `i128`; where a result is handed back as an `i64` it saturates at
//! the ends of the `i64` range instead of wrapping.
use vstd::prelude::*;

verus! {

/// The integer that stands for the real number one.
pub const ONE: i64 = 1_000_000;

/// `x` clamped to the range of `i64`.
pub open spec fn sat(x: int) -> int {
    if x < i64::MIN {
        i64::MIN as int
    } else if x > i64::MAX {
        i64::MAX as int
    } else {
        x
    }
}

/// The quotient of `x` by a positive `d`, rounded toward zero.
pub open spec fn tdiv(x: int, d: int) -> int {
    if x >= 0 {
        x / d
    } else {
        -((-x) / d)
    }
}

/// The fixed-point product of the quantities `a` and `b`: the exact product,
/// brought back to millionths by rounding toward zero, then saturated.
pub open spec fn product(a: int, b: int) -> int {
    sat(tdiv(a * b, ONE as int))
}

/// `r` is the integer square root of `n`: the largest integer whose square
/// does not exceed `n`.
pub open spec fn is_floor_sqrt(r: int, n: int) -> bool {
    0 <= r && r * r <= n < (r + 1) * (r + 1)
}

/// The integer square root of a non-negative `n`.
pub open spec fn floor_sqrt(n: int) -> int {
    choose|r: int| is_floor_sqrt(r, n)
}

/// The representative of `d` modulo `w` that is nearest to zero: the one in
/// the half-open interval `(-w/2, w/2]`.
pub open spec fn shortest(d: int, w: int) -> int {
    let m = d % w;
    if 2 * m > w {
        m - w
    } else {
        m
    }
}

/// The absolute value of `x`.
pub open spec fn magnitude(x: int) -> int {
    if x < 0 {
        -x
    } else {
        x
    }
}

/// At most one integer is the integer square root of `n`.
pub proof fn lemma_floor_sqrt_unique(r1: int, r2: int, n: int)
    requires
        is_floor_sqrt(r1, n),
        is_floor_sqrt(r2, n),
    ensures
        r1 == r2,
{
    if r1 < r2 {
        assert((r1 + 1) * (r1 + 1) <= r2 * r2) by (nonlinear_arith)
            requires
                0 <= r1 + 1 <= r2,
        ;
    } else if r2 < r1 {
        assert((r2 + 1) * (r2 + 1) <= r1 * r1) by (nonlinear_arith)
            requires
                0 <= r2 + 1 <= r1,
        ;
    }
}

/// Whoever exhibits an integer square root of `n` has found `floor_sqrt(n)`.
pub proof fn lemma_floor_sqrt_is(r: int, n: int)
    requires
        is_floor_sqrt(r, n),
    ensures
        floor_sqrt(n) == r,
{
    lemma_floor_sqrt_unique(floor_sqrt(n), r, n);
}

/// Rounding toward zero never increases a magnitude: dividing `x` by a
/// positive `d` gives a quotient between zero and `x / d`.
pub proof fn lemma_tdiv_bounds(x: int, d: int)
    requires
        d > 0,
    ensures
        x >= 0 ==> 0 <= tdiv(x, d) && tdiv(x, d) * d <= x < (tdiv(x, d) + 1) * d,
        x <= 0 ==> tdiv(x, d) <= 0 && (tdiv(x, d) - 1) * d < x <= tdiv(x, d) * d,
        tdiv(-x, d) == -tdiv(x, d),
{
    if x >= 0 {
        lemma_floor_div(x, d);
    }
    if x <= 0 {
        lemma_floor_div(-x, d);
        let q = (-x) / d;
        assert((-q - 1) * d == -((q + 1) * d)) by (nonlinear_arith);
        assert((-q) * d == -(q * d)) by (nonlinear_arith);
    }
}

/// For a non-negative `x` and a positive `d`, `x / d` is the floor of the
/// quotient.
pub proof fn lemma_floor_div(x: int, d: int)
    requires
        d > 0,
    ensures
        (x / d) * d <= x < (x / d + 1) * d,
        x >= 0 ==> x / d >= 0,
{
    vstd::arithmetic::div_mod::lemma_fundamental_div_mod(x, d);
    vstd::arithmetic::div_mod::lemma_mod_bound(x, d);
    assert((x / d + 1) * d == (x / d) * d + d) by (nonlinear_arith);
    assert(d * (x / d) == (x / d) * d) by (nonlinear_arith);
    if x >= 0 {
        vstd::arithmetic::div_mod::lemma_div_pos_is_pos(x, d);
    }
}

/// The shortest representative is congruent to `d` modulo `w`, lies in
/// `(-w/2, w/2]`, and no other representative of `d` is nearer to zero.
pub proof fn lemma_shortest(d: int, w: int)
    requires
        w > 0,
    ensures
        (shortest(d, w) - d) % w == 0,
        -w < 2 * shortest(d, w) <= w,
        forall|k: int| magnitude(shortest(d, w)) <= magnitude(#[trigger] (d + k * w)),
{
    let m = d % w;
    let s = shortest(d, w);
    vstd::arithmetic::div_mod::lemma_fundamental_div_mod(d, w);
    vstd::arithmetic::div_mod::lemma_mod_bound(d, w);
    let q = d / w;
    assert(d == w * q + m);
    if 2 * m > w {
        assert(s - d == w * (-q - 1)) by (nonlinear_arith)
            requires
                s == m - w,
                d == w * q + m,
        ;
        vstd::arithmetic::div_mod::lemma_mod_multiples_basic(-q - 1, w);
        assert(((-q - 1) * w) == w * (-q - 1)) by (nonlinear_arith);
    } else {
        assert(s - d == w * (-q)) by (nonlinear_arith)
            requires
                s == m,
                d == w * q + m,
        ;
        vstd::arithmetic::div_mod::lemma_mod_multiples_basic(-q, w);
        assert(((-q) * w) == w * (-q)) by (nonlinear_arith);
    }
    assert forall|k: int| magnitude(s) <= magnitude(#[trigger] (d + k * w)) by {
        // d + k * w is s + j * w for the j below
        let j = if 2 * m > w {
            k + q + 1
        } else {
            k + q
        };
        assert(d + k * w == s + j * w) by (nonlinear_arith)
            requires
                d == w * q + m,
                s == if 2 * m > w {
                    m - w
                } else {
                    m
                },
                j == if 2 * m > w {
                    k + q + 1
                } else {
                    k + q
                },
        ;
        if j >= 1 {
            assert(j * w >= w) by (nonlinear_arith)
                requires
                    j >= 1,
                    w > 0,
            ;
        } else if j <= -1 {
            assert(j * w <= -w) by (nonlinear_arith)
                requires
                    j <= -1,
                    w > 0,
            ;
        } else {
            assert(j * w == 0) by (nonlinear_arith)
                requires
                    j == 0,
            ;
        }
    }
}

/// The integer square root of a sum of two squares is at least as large as
/// the magnitude of either term.
pub proof fn lemma_sqrt_dominates(dx: int, dy: int, r: int)
    requires
        is_floor_sqrt(r, dx * dx + dy * dy),
    ensures
        magnitude(dx) <= r,
        magnitude(dy) <= r,
{
    let ax = magnitude(dx);
    let ay = magnitude(dy);
    assert(ax * ax == dx * dx) by (nonlinear_arith)
        requires
            ax == dx || ax == -dx,
    ;
    assert(ay * ay == dy * dy) by (nonlinear_arith)
        requires
            ay == dy || ay == -dy,
    ;
    assert(0 <= ax * ax && 0 <= ay * ay) by (nonlinear_arith);
    if ax > r {
        assert((r + 1) * (r + 1) <= ax * ax) by (nonlinear_arith)
            requires
                0 <= r + 1 <= ax,
        ;
    }
    if ay > r {
        assert((r + 1) * (r + 1) <= ay * ay) by (nonlinear_arith)
            requires
                0 <= r + 1 <= ay,
        ;
    }
}

/// The integer square root of a positive number below `reach * reach` is
/// positive and below `reach`.
pub proof fn lemma_sqrt_within(r: int, n: int, reach: int)
    requires
        is_floor_sqrt(r, n),
        0 < n < reach * reach,
        reach > 0,
    ensures
        1 <= r < reach,
{
    if r >= reach {
        assert(reach * reach <= r * r) by (nonlinear_arith)
            requires
                0 < reach <= r,
        ;
    }
    if r == 0 {
        assert((r + 1) * (r + 1) == 1);
    }
}

/// Scaling `f` by a ratio `x / r` of magnitude at most one gives a value of
/// magnitude at most that of `f`.
pub proof fn lemma_tdiv_ratio(x: int, f: int, r: int)
    requires
        r >= 1,
        magnitude(x) <= r,
    ensures
        magnitude(tdiv(x * f, r)) <= magnitude(f),
{
    let p = x * f;
    let m = magnitude(f);
    assert(magnitude(p) <= r * m) by (nonlinear_arith)
        requires
            p == x * f,
            -r <= x <= r,
            m >= 0,
            f == m || f == -m,
    ;
    lemma_tdiv_bounds(p, r);
    let q = tdiv(p, r);
    if p >= 0 {
        assert(q <= m) by (nonlinear_arith)
            requires
                q * r <= p,
                p <= r * m,
                r >= 1,
        ;
    } else {
        assert(q >= -m) by (nonlinear_arith)
            requires
                p <= q * r,
                -(r * m) <= p,
                r >= 1,
        ;
    }
}

/// Between two points of a circle that lie more than half the circumference
/// apart the shortest way leads over the seam: from `x1` up to `x2` the
/// displacement is `x2 - x1 - w`, whose magnitude is what is left of the
/// circumference.
pub proof fn lemma_shortest_over_seam(x1: int, x2: int, w: int)
    requires
        0 <= x1 < w,
        0 <= x2 < w,
        2 * (x2 - x1) > w,
    ensures
        shortest(x2 - x1, w) == x2 - x1 - w,
        magnitude(shortest(x2 - x1, w)) == w - (x2 - x1),
        shortest(x1 - x2, w) == x1 - x2 + w,
{
    vstd::arithmetic::div_mod::lemma_small_mod((x2 - x1) as nat, w as nat);
    vstd::arithmetic::div_mod::lemma_small_mod((x1 - x2 + w) as nat, w as nat);
    vstd::arithmetic::div_mod::lemma_mod_add_multiples_vanish(x1 - x2, w);
}

/// A fixed-point product with zero is zero.
pub proof fn lemma_product_zero(b: int)
    ensures
        product(0, b) == 0,
        product(b, 0) == 0,
{
    assert(0 * b == 0 && b * 0 == 0) by (nonlinear_arith);
}

/// Clamps an exact intermediate result to the range of `i64`.
pub fn saturate(x: i128) -> (r: i64)
    ensures
        r == sat(x as int),
{
    if x < i64::MIN as i128 {
        i64::MIN
    } else if x > i64::MAX as i128 {
        i64::MAX
    } else {
        x as i64
    }
}

/// The fixed-point product of two quantities.
pub fn times(a: i64, b: i64) -> (r: i64)
    ensures
        r == product(a as int, b as int),
{
    assert(-0x4000_0000_0000_0000_0000_0000_0000_0000 <= a * b
        <= 0x4000_0000_0000_0000_0000_0000_0000_0000) by (nonlinear_arith)
        requires
            -0x8000_0000_0000_0000 <= a <= 0x8000_0000_0000_0000,
            -0x8000_0000_0000_0000 <= b <= 0x8000_0000_0000_0000,
    ;
    let p: i128 = (a as i128) * (b as i128);
    saturate(p / (ONE as i128))
}

/// The integer square root of `n`.
pub fn isqrt(n: u128) -> (r: u64)
    ensures
        is_floor_sqrt(r as int, n as int),
        r == floor_sqrt(n as int),
{
    let mut lo: u128 = 0;
    let mut hi: u128 = 0x1_0000_0000_0000_0000;
    assert(0x1_0000_0000_0000_0000int * 0x1_0000_0000_0000_0000int
        == 0x1_0000_0000_0000_0000_0000_0000_0000_0000int) by (nonlinear_arith);
    while hi - lo > 1
        invariant
            lo < hi <= 0x1_0000_0000_0000_0000,
            lo * lo <= n < hi * hi,
        decreases hi - lo,
    {
        let mid: u128 = lo + (hi - lo) / 2;
        assert(mid * mid <= 0xffff_ffff_ffff_ffff * 0xffff_ffff_ffff_ffff) by (nonlinear_arith)
            requires
                0 <= mid <= 0xffff_ffff_ffff_ffff,
        ;
        if mid * mid <= n {
            lo = mid;
        } else {
            hi = mid;
        }
    }
    proof {
        lemma_floor_sqrt_is(lo as int, n as int);
    }
    lo as u64
}

/// The quotient of `x` by a positive `d`, rounded toward minus infinity.
pub fn floor_div(x: i64, d: i64) -> (q: i64)
    requires
        d > 0,
    ensures
        q == (x as int) / (d as int),
{
    proof {
        lemma_floor_div(x as int, d as int);
        let q = (x as int) / (d as int);
        assert(i64::MIN <= q <= i64::MAX) by (nonlinear_arith)
            requires
                q * d <= x < (q + 1) * d,
                d >= 1,
                i64::MIN <= x <= i64::MAX,
        ;
    }
    match x.checked_div_euclid(d) {
        Some(q) => q,
        None => 0,
    }
}

/// Reduces `x` into `[0, w)`: the non-negative remainder of `x` modulo `w`.
pub fn wrap(x: i128, w: i64) -> (r: i64)
    requires
        w > 0,
    ensures
        r == (x as int) % (w as int),
        0 <= r < w,
{
    proof {
        vstd::arithmetic::div_mod::lemma_mod_bound(x as int, w as int);
    }
    match x.checked_rem_euclid(w as i128) {
        Some(m) => m as i64,
        None => 0,
    }
}

/// The shortest signed displacement on a circle of circumference `w` that is
/// congruent to the raw displacement `d`.
pub fn wrap_delta(d: i64, w: i64) -> (r: i64)
    requires
        w > 0,
    ensures
        r == shortest(d as int, w as int),
        -w < 2 * r <= w,
{
    proof {
        lemma_shortest(d as int, w as int);
    }
    let m: i64 = wrap(d as i128, w);
    if m > w - m {
        m - w
    } else {
        m
    }
}

} // verus!

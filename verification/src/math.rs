use vstd::arithmetic::div_mod::lemma_fundamental_div_mod;
use vstd::math::abs;
use vstd::prelude::*;

verus! {

/// One full turn (360°) in nanodegrees.
pub const FULL_TURN: i64 = 360_000_000_000;

/// Half a turn (180°) in nanodegrees.
pub const HALF_TURN: i64 = 180_000_000_000;

/// Quotient of `a / b` rounded toward zero, as C's integer division.
pub open spec fn spec_trunc_div(a: int, b: int) -> int {
    if (a >= 0) == (b >= 0) {
        (abs(a) as int) / (abs(b) as int)
    } else {
        -((abs(a) as int) / (abs(b) as int))
    }
}

/// Truncating modulus: the remainder left by `spec_trunc_div`, which has the
/// sign of `a` (C `fmod` semantics, not the Euclidean remainder).
pub open spec fn spec_fmod(a: int, b: int) -> int {
    a - b * spec_trunc_div(a, b)
}

/// Quotient of `a / b` rounded to the nearest integer, halves away from zero.
pub open spec fn spec_round_div(a: int, b: int) -> int {
    if (a >= 0) == (b >= 0) {
        (2 * (abs(a) as int) + abs(b)) / (2 * (abs(b) as int))
    } else {
        -((2 * (abs(a) as int) + abs(b)) / (2 * (abs(b) as int)))
    }
}

/// Remainder of `n` by `d` after rounding the quotient to the nearest
/// integer, so the result lies within `[-|d|/2, |d|/2]`.
pub open spec fn spec_remainder(n: int, d: int) -> int {
    n - d * spec_round_div(n, d)
}

/// Angle reduced to the half-open range `(-180°, 180°]`, with `-180°`
/// mapped to `180°`.
pub open spec fn spec_angle_normalize(d: int) -> int {
    let x = spec_remainder(d, FULL_TURN as int);
    if x == -(HALF_TURN as int) {
        HALF_TURN as int
    } else {
        x
    }
}

/// Normalized difference `y - x` between two angles.
pub open spec fn spec_angle_diff(x: int, y: int) -> int {
    spec_angle_normalize(
        spec_remainder(-x, FULL_TURN as int) + spec_remainder(y, FULL_TURN as int),
    )
}

/// Truncating modulus of a nanodegree pair, with the sign of `a`.
pub fn fmod(a: i64, b: i64) -> (r: i64)
    requires
        b != 0,
        a != i64::MIN,
        b != i64::MIN,
    ensures
        r == spec_fmod(a as int, b as int),
{
    let am: u64 = if a >= 0 {
        a as u64
    } else {
        (-a) as u64
    };
    let bm: u64 = if b >= 0 {
        b as u64
    } else {
        (-b) as u64
    };
    let rm: u64 = am % bm;
    proof {
        let d = (am as int) / (bm as int);
        lemma_fundamental_div_mod(am as int, bm as int);
        assert(a as int - (b as int) * spec_trunc_div(a as int, b as int) == (if a >= 0 {
            rm as int
        } else {
            -(rm as int)
        })) by (nonlinear_arith)
            requires
                am as int == (bm as int) * d + rm as int,
                spec_trunc_div(a as int, b as int) == (if (a >= 0) == (b >= 0) {
                    d
                } else {
                    -d
                }),
                a as int == (if a >= 0 {
                    am as int
                } else {
                    -(am as int)
                }),
                b as int == (if b >= 0 {
                    bm as int
                } else {
                    -(bm as int)
                }),
        ;
    }
    if a >= 0 {
        rm as i64
    } else {
        -(rm as i64)
    }
}

/// Remainder of `numer` by `denom` with the quotient rounded to nearest
/// (halves away from zero), matching the IEEE-style remainder reduction.
pub fn remainder(numer: i64, denom: i64) -> (r: i64)
    requires
        denom != 0,
        denom != i64::MIN,
        -(i64::MAX - abs(denom as int)) <= numer <= i64::MAX - abs(denom as int),
    ensures
        r == spec_remainder(numer as int, denom as int),
        -abs(denom as int) <= 2 * r <= abs(denom as int),
{
    let nm: u64 = if numer >= 0 {
        numer as u64
    } else {
        (-numer) as u64
    };
    let dm: u64 = if denom >= 0 {
        denom as u64
    } else {
        (-denom) as u64
    };
    proof {
        let qi = (2 * (nm as int) + dm as int) / (2 * (dm as int));
        lemma_fundamental_div_mod(2 * (nm as int) + dm as int, 2 * (dm as int));
        assert((qi * (dm as int)) * 2 == 2 * (nm as int) + dm as int - ((2 * (nm as int)
            + dm as int) % (2 * (dm as int)))) by (nonlinear_arith)
            requires
                2 * (nm as int) + dm as int == (2 * (dm as int)) * qi + ((2 * (nm as int)
                    + dm as int) % (2 * (dm as int))),
        ;
    }
    let qm: u64 = (2 * nm + dm) / (2 * dm);
    let t: u64 = qm * dm;
    proof {
        let q = spec_round_div(numer as int, denom as int);
        assert(numer as int - (denom as int) * q == (if numer >= 0 {
            nm as int - t as int
        } else {
            t as int - nm as int
        })) by (nonlinear_arith)
            requires
                t as int == qm as int * (dm as int),
                q == (if (numer >= 0) == (denom >= 0) {
                    qm as int
                } else {
                    -(qm as int)
                }),
                numer as int == (if numer >= 0 {
                    nm as int
                } else {
                    -(nm as int)
                }),
                denom as int == (if denom >= 0 {
                    dm as int
                } else {
                    -(dm as int)
                }),
        ;
    }
    if numer >= 0 {
        if t <= nm {
            (nm - t) as i64
        } else {
            -((t - nm) as i64)
        }
    } else {
        if t <= nm {
            -((nm - t) as i64)
        } else {
            (t - nm) as i64
        }
    }
}

/// Angle in nanodegrees reduced to `(-180°, 180°]`; exactly `-180°` comes
/// back as `180°`.
pub fn angle_normalize(d: i64) -> (r: i64)
    requires
        -(i64::MAX - FULL_TURN) <= d <= i64::MAX - FULL_TURN,
    ensures
        r == spec_angle_normalize(d as int),
        -HALF_TURN < r <= HALF_TURN,
{
    let x: i64 = remainder(d, FULL_TURN);
    if x != -HALF_TURN {
        x
    } else {
        HALF_TURN
    }
}

/// Normalized difference `y - x` of two nanodegree angles, reduced as by
/// `angle_normalize` while avoiding intermediate overflow.
pub fn angle_diff(x: i64, y: i64) -> (r: i64)
    requires
        -(i64::MAX - FULL_TURN) <= x <= i64::MAX - FULL_TURN,
        -(i64::MAX - FULL_TURN) <= y <= i64::MAX - FULL_TURN,
    ensures
        r == spec_angle_diff(x as int, y as int),
        -HALF_TURN < r <= HALF_TURN,
{
    let a: i64 = remainder(-x, FULL_TURN);
    let b: i64 = remainder(y, FULL_TURN);
    angle_normalize(a + b)
}

} // verus!

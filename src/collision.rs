//! Collision detection and resolution: overlapping bodies merge, or shatter
//! where the impact carries more energy than a body can absorb.
use vstd::prelude::*;
use crate::body::{
    Body, Point, body_wf, lemma_radius_bound, quot, div_toward_zero, total_mass,
    total_momentum, lemma_totals_push, lemma_totals_update, AREA_SCALE,
};
use crate::containment::clamp_spec;
use crate::gravity::fits_i64;
use crate::body::radius_spec;
use crate::geometry::{floor_sqrt, isqrt, checked_scaled, scaled, scaled_fits};
use vstd::arithmetic::div_mod::{lemma_fundamental_div_mod, lemma_mod_bound, lemma_div_is_ordered};

verus! {

/// The kinetic energy, per mass unit, that a body absorbs without shattering
/// (square pixels per second squared).
pub const KE_THRESHOLD: u128 = 10;

/// Two bodies overlap when their centres are no farther apart than the sum of
/// their radii.
pub open spec fn overlap_spec(b1: Body, b2: Body) -> bool {
    let dx = b2.position.x - b1.position.x;
    let dy = b2.position.y - b1.position.y;
    let rs = b1.radius + b2.radius;
    dx * dx + dy * dy <= rs * rs
}

pub fn overlapping(b1: &Body, b2: &Body) -> (r: bool)
    requires
        body_wf(*b1),
        body_wf(*b2),
    ensures
        r == overlap_spec(*b1, *b2),
{
    proof {
        lemma_radius_bound(b1.mass);
        lemma_radius_bound(b2.mass);
    }
    let rs: i128 = b1.radius as i128 + b2.radius as i128;
    let dx: i128 = b2.position.x as i128 - b1.position.x as i128;
    let dy: i128 = b2.position.y as i128 - b1.position.y as i128;
    if dx > rs || -dx > rs || dy > rs || -dy > rs {
        assert(dx * dx + dy * dy > rs * rs) by (nonlinear_arith)
            requires
                rs >= 0,
                dx > rs || -dx > rs || dy > rs || -dy > rs,
        ;
        return false;
    }
    assert(0 <= dx * dx <= 0x4_0000_0000_0000_0000_0000_0000 && 0 <= dy * dy
        <= 0x4_0000_0000_0000_0000_0000_0000 && rs * rs <= 0x4_0000_0000_0000_0000_0000_0000)
        by (nonlinear_arith)
        requires
            0 <= rs <= 0x2_0000_0000_0000,
            -rs <= dx <= rs,
            -rs <= dy <= rs,
    ;
    let sx: i128 = dx * dx;
    let sy: i128 = dy * dy;
    sx + sy <= rs * rs
}

/// A body's velocity, per axis the momentum over the mass rounded toward
/// zero, in micro-pixels per second.
pub open spec fn velocity_spec(b: Body) -> (int, int) {
    (quot(b.momentum.x as int, b.mass as int), quot(b.momentum.y as int, b.mass as int))
}

/// Whether the energy `0.5 * |vr|^2 * other` with which the other body strikes
/// this one exceeds this body's absorption threshold `KE_THRESHOLD * mass`
/// (`vr_sq` in square micro-pixels per second squared).
pub open spec fn shatters(vr_sq: int, mass: int, other: int) -> bool {
    vr_sq * other > 2 * KE_THRESHOLD * AREA_SCALE * mass
}

/// What a pair of bodies does this step.
#[derive(Clone, Copy, PartialEq, Eq, Structural, Debug)]
pub enum Outcome {
    /// They do not touch.
    Apart,
    /// They touch with the same velocity: nothing is done.
    Degenerate,
    /// They touch gently and merge into one.
    Merge,
    /// They touch hard, and each body flagged shatters.
    Shatter { first: bool, second: bool },
}

pub open spec fn outcome_spec(b1: Body, b2: Body) -> Outcome {
    if !overlap_spec(b1, b2) {
        Outcome::Apart
    } else {
        let v1 = velocity_spec(b1);
        let v2 = velocity_spec(b2);
        if v1 == v2 {
            Outcome::Degenerate
        } else {
            let vx = v1.0 - v2.0;
            let vy = v1.1 - v2.1;
            let vr_sq = vx * vx + vy * vy;
            let s1 = shatters(vr_sq, b1.mass as int, b2.mass as int);
            let s2 = shatters(vr_sq, b2.mass as int, b1.mass as int);
            if !s1 && !s2 {
                Outcome::Merge
            } else {
                Outcome::Shatter { first: s1, second: s2 }
            }
        }
    }
}

/// The exact test of `shatters`, where the squared relative speed is the sum
/// of the squares of `vx` and `vy`.
fn exceeds(vx: i128, vy: i128, mass: u64, other: u64) -> (r: bool)
    requires
        -0x1_0000_0000_0000_0000 < vx < 0x1_0000_0000_0000_0000,
        -0x1_0000_0000_0000_0000 < vy < 0x1_0000_0000_0000_0000,
    ensures
        r == shatters(vx * vx + vy * vy, mass as int, other as int),
{
    assert(0 <= vx * vx <= 0xffff_ffff_ffff_fffe_0000_0000_0000_0001 && 0 <= vy * vy
        <= 0xffff_ffff_ffff_fffe_0000_0000_0000_0001) by (nonlinear_arith)
        requires
            -0x1_0000_0000_0000_0000 < vx < 0x1_0000_0000_0000_0000,
            -0x1_0000_0000_0000_0000 < vy < 0x1_0000_0000_0000_0000,
    ;
    let mx: u128 = if vx < 0 { (-vx) as u128 } else { vx as u128 };
    let my: u128 = if vy < 0 { (-vy) as u128 } else { vy as u128 };
    assert(mx * mx == vx * vx && my * my == vy * vy) by (nonlinear_arith)
        requires
            mx == vx || mx == -vx,
            my == vy || my == -vy,
    ;
    let ax: u128 = mx * mx;
    let ay: u128 = my * my;
    assert(2 * KE_THRESHOLD * AREA_SCALE == 20_000_000_000_000);
    let limit: u128 = 20_000_000_000_000 * mass as u128;
    match ax.checked_add(ay) {
        None => {
            assert((vx * vx + vy * vy) * other >= (vx * vx + vy * vy) || other == 0)
                by (nonlinear_arith)
                requires
                    vx * vx + vy * vy >= 0,
                    other >= 0,
            ;
            if other == 0 {
                assert((vx * vx + vy * vy) * other == 0) by (nonlinear_arith)
                    requires
                        other == 0,
                ;
                false
            } else {
                true
            }
        },
        Some(sq) => match sq.checked_mul(other as u128) {
            None => true,
            Some(e) => e > limit,
        },
    }
}

/// Decides what a pair of bodies does this step.
pub fn classify(b1: &Body, b2: &Body) -> (r: Outcome)
    requires
        body_wf(*b1),
        body_wf(*b2),
    ensures
        r == outcome_spec(*b1, *b2),
{
    if !overlapping(b1, b2) {
        return Outcome::Apart;
    }
    let v1 = b1.velocity();
    let v2 = b2.velocity();
    if v1.x == v2.x && v1.y == v2.y {
        return Outcome::Degenerate;
    }
    let vx: i128 = v1.x as i128 - v2.x as i128;
    let vy: i128 = v1.y as i128 - v2.y as i128;
    let s1 = exceeds(vx, vy, b1.mass, b2.mass);
    let s2 = exceeds(vx, vy, b2.mass, b1.mass);
    if !s1 && !s2 {
        Outcome::Merge
    } else {
        Outcome::Shatter { first: s1, second: s2 }
    }
}

/// Whether two bodies can merge within the machine range: the summed mass
/// and momentum fit.
pub open spec fn merge_fits(b1: Body, b2: Body) -> bool {
    b1.mass + b2.mass <= u64::MAX && i64::MIN <= b1.momentum.x + b2.momentum.x <= i64::MAX
        && i64::MIN <= b1.momentum.y + b2.momentum.y <= i64::MAX
}

/// A perfectly inelastic merge. The survivor has the summed mass and the
/// summed momentum (so its velocity is the combined momentum over the
/// combined mass), and stands where the heavier body stood (the first, on
/// equal masses).
pub fn merge(b1: &Body, b2: &Body) -> (r: Option<Body>)
    requires
        body_wf(*b1),
        body_wf(*b2),
    ensures
        r is Some <==> merge_fits(*b1, *b2),
        r matches Some(s) ==> body_wf(s) && s.mass == b1.mass + b2.mass && s.momentum.x
            == b1.momentum.x + b2.momentum.x && s.momentum.y == b1.momentum.y + b2.momentum.y
            && s.position == (if b1.mass >= b2.mass {
            b1.position
        } else {
            b2.position
        }),
{
    let mass = match b1.mass.checked_add(b2.mass) {
        Some(m) => m,
        None => return None,
    };
    let px = match b1.momentum.x.checked_add(b2.momentum.x) {
        Some(v) => v,
        None => return None,
    };
    let py = match b1.momentum.y.checked_add(b2.momentum.y) {
        Some(v) => v,
        None => return None,
    };
    let position = if b1.mass >= b2.mass {
        b1.position
    } else {
        b2.position
    };
    Body::new(position, Point { x: px, y: py }, mass)
}

/// Speeds at or beyond this many micro-pixels per second on an axis are out
/// of the range in which the angle between two velocities is measured.
pub const SPEED_RANGE: i64 = 0x100_0000_0000;

pub open spec fn in_speed_range(v: (int, int)) -> bool {
    -SPEED_RANGE < v.0 < SPEED_RANGE && -SPEED_RANGE < v.1 < SPEED_RANGE
}

/// The cosine of the angle between two velocities in thousandths, from -1000
/// (head-on) to 1000 (parallel), rounded toward zero. It is 0, as for a right
/// angle, where either velocity is zero or out of range.
pub open spec fn cos_permille_spec(v1: (int, int), v2: (int, int)) -> int {
    let l = floor_sqrt((v1.0 * v1.0 + v1.1 * v1.1) as nat) * floor_sqrt(
        (v2.0 * v2.0 + v2.1 * v2.1) as nat,
    );
    if !(in_speed_range(v1) && in_speed_range(v2)) || l == 0 {
        0
    } else {
        clamp_spec(quot(1000 * (v1.0 * v2.0 + v1.1 * v2.1), l as int), -1000, 1000)
    }
}

pub fn cos_permille(v1: Point, v2: Point) -> (r: i64)
    ensures
        r == cos_permille_spec((v1.x as int, v1.y as int), (v2.x as int, v2.y as int)),
        -1000 <= r <= 1000,
{
    if !(-SPEED_RANGE < v1.x && v1.x < SPEED_RANGE && -SPEED_RANGE < v1.y && v1.y < SPEED_RANGE
        && -SPEED_RANGE < v2.x && v2.x < SPEED_RANGE && -SPEED_RANGE < v2.y && v2.y
        < SPEED_RANGE) {
        return 0;
    }
    let (ax, ay, bx, by) = (v1.x as i128, v1.y as i128, v2.x as i128, v2.y as i128);
    assert(0 <= ax * ax <= 0x1_0000_0000_0000_0000_0000 && 0 <= ay * ay
        <= 0x1_0000_0000_0000_0000_0000 && 0 <= bx * bx <= 0x1_0000_0000_0000_0000_0000 && 0
        <= by * by <= 0x1_0000_0000_0000_0000_0000 && -0x1_0000_0000_0000_0000_0000 <= ax * bx
        <= 0x1_0000_0000_0000_0000_0000 && -0x1_0000_0000_0000_0000_0000 <= ay * by
        <= 0x1_0000_0000_0000_0000_0000 && 0 <= ax * ax + ay * ay <= 0x2_0000_0000_0000_0000_0000 && 0 <= bx * bx + by * by
        <= 0x2_0000_0000_0000_0000_0000 && -0x2_0000_0000_0000_0000_0000 <= ax * bx + ay * by
        <= 0x2_0000_0000_0000_0000_0000) by (nonlinear_arith)
        requires
            -0x100_0000_0000 < ax < 0x100_0000_0000,
            -0x100_0000_0000 < ay < 0x100_0000_0000,
            -0x100_0000_0000 < bx < 0x100_0000_0000,
            -0x100_0000_0000 < by < 0x100_0000_0000,
    ;
    let s1 = isqrt((ax * ax + ay * ay) as u128);
    let s2 = isqrt((bx * bx + by * by) as u128);
    proof {
        crate::geometry::lemma_floor_sqrt_bounds((ax * ax + ay * ay) as nat);
        crate::geometry::lemma_floor_sqrt_bounds((bx * bx + by * by) as nat);
        assert(s1 <= 0x2_0000_0000_0000 && s2 <= 0x2_0000_0000_0000) by (nonlinear_arith)
            requires
                s1 * s1 <= 0x2_0000_0000_0000_0000_0000,
                s2 * s2 <= 0x2_0000_0000_0000_0000_0000,
        ;
        assert(s1 * s2 <= 0x4_0000_0000_0000_0000_0000_0000) by (nonlinear_arith)
            requires
                0 <= s1 <= 0x2_0000_0000_0000,
                0 <= s2 <= 0x2_0000_0000_0000,
        ;
    }
    let l: i128 = s1 as i128 * s2 as i128;
    if l == 0 {
        return 0;
    }
    let num: i128 = 1000 * (ax * bx + ay * by);
    let mag: i128 = if num < 0 { -num } else { num };
    let q0: i128 = mag / l;
    let q: i128 = if num < 0 { -q0 } else { q0 };
    if q < -1000 {
        -1000
    } else if q > 1000 {
        1000
    } else {
        q as i64
    }
}

/// The number of fragments a shattering body breaks into, for the cosine `c`
/// (in thousandths) between the two velocities: 2 when they are parallel,
/// up to 6 when they meet head-on.
pub open spec fn fragment_count_spec(c: int) -> int {
    2 + (1000 - c) / 500
}

/// The spread of the fragments, as the ratio in thousandths of the outermost
/// fragment's sideways momentum to its forward momentum: 0 (no spread) when
/// the velocities are parallel, 1000 (a fan of 90 degrees) head-on.
pub open spec fn spread_spec(c: int) -> int {
    (1000 - c) / 2
}

/// The more head-on the impact, the more fragments and the wider their fan.
pub proof fn fragment_rule_monotonic(c1: int, c2: int)
    requires
        -1000 <= c1 <= c2 <= 1000,
    ensures
        fragment_count_spec(c1) >= fragment_count_spec(c2),
        spread_spec(c1) >= spread_spec(c2),
        2 <= fragment_count_spec(c2) <= 6,
        0 <= spread_spec(c2) <= 1000,
{
    lemma_div_is_ordered(1000 - c2, 1000 - c1, 500);
    lemma_div_is_ordered(1000 - c2, 1000 - c1, 2);
    lemma_div_is_ordered(0, 1000 - c2, 500);
    lemma_div_is_ordered(1000 - c2, 2000, 500);
    lemma_div_is_ordered(0, 1000 - c2, 2);
    lemma_div_is_ordered(1000 - c2, 2000, 2);
}

/// How many fragments a body of `mass` makes: the count of the rule, but no
/// more than its mass, so that each fragment keeps a positive mass.
pub open spec fn pieces_spec(c: int, mass: int) -> int {
    if fragment_count_spec(c) <= mass {
        fragment_count_spec(c)
    } else {
        mass
    }
}

/// The fragments before they fan out: `n = pieces_spec(c, mass)` of them at
/// the body's position, each with mass `mass / n` and momentum `quot(p, n)`
/// per axis, the first also carrying both remainders.
pub open spec fn forward_spec(b: Body, c: int) -> Seq<Body> {
    let n = pieces_spec(c, b.mass as int);
    let share = b.mass as int / n;
    let fm = share + b.mass as int % n;
    let qx = quot(b.momentum.x as int, n);
    let qy = quot(b.momentum.y as int, n);
    let first = Body {
        position: b.position,
        momentum: Point {
            x: (b.momentum.x - (n - 1) * qx) as i64,
            y: (b.momentum.y - (n - 1) * qy) as i64,
        },
        mass: fm as u64,
        radius: radius_spec(fm as nat) as u64,
    };
    let rest = Body {
        position: b.position,
        momentum: Point { x: qx as i64, y: qy as i64 },
        mass: share as u64,
        radius: radius_spec(share as nat) as u64,
    };
    Seq::new(n as nat, |k: int| if k == 0 { first } else { rest })
}

/// Fragments `k` and `n - 1 - k` receive the sideways momenta `+l` and `-l`,
/// with `l` the perpendicular `(-qy, qx)` of the forward share times
/// `(n - 1 - 2k) * spread / (1000 * (n - 1))`; unchanged where a value would
/// leave the machine range.
pub open spec fn sideways_pair(s: Seq<Body>, k: int, qx: int, qy: int, spread: nat) -> Seq<Body> {
    let n = s.len() as int;
    let j = n - 1 - k;
    let w = ((n - 1 - 2 * k) * spread) as nat;
    let den = (1000 * (n - 1)) as nat;
    if qy != i64::MIN && scaled_fits(-qy, w, den) && scaled_fits(qx, w, den) {
        let lx = scaled(-qy, w, den);
        let ly = scaled(qx, w, den);
        let a = s[k];
        let b = s[j];
        if fits_i64(a.momentum.x + lx) && fits_i64(a.momentum.y + ly) && fits_i64(
            b.momentum.x - lx,
        ) && fits_i64(b.momentum.y - ly) {
            s.update(
                k,
                Body {
                    momentum: Point {
                        x: (a.momentum.x + lx) as i64,
                        y: (a.momentum.y + ly) as i64,
                    },
                    ..a
                },
            ).update(
                j,
                Body {
                    momentum: Point {
                        x: (b.momentum.x - lx) as i64,
                        y: (b.momentum.y - ly) as i64,
                    },
                    ..b
                },
            )
        } else {
            s
        }
    } else {
        s
    }
}

/// `sideways_pair` applied for `k` from the given one up to `n / 2`.
pub open spec fn sideways_from(s: Seq<Body>, n: nat, k: nat, qx: int, qy: int, spread: nat) -> Seq<Body>
    decreases n / 2 - k,
{
    if k >= n / 2 {
        s
    } else {
        sideways_from(sideways_pair(s, k as int, qx, qy, spread), n, k + 1, qx, qy, spread)
    }
}

/// The sideways direction of a forward share: its perpendicular, or the y
/// axis where there is none.
pub open spec fn apart_dir(qx: int, qy: int) -> (int, int) {
    if (qx == 0 && qy == 0) || qy == i64::MIN {
        (0, 1)
    } else {
        (-qy, qx)
    }
}

/// Fragments `k` and `n - 1 - k` move by `+o` and `-o`, with `o` the unit
/// sideways direction times `(n - 1 - 2k) * half_gap`; unchanged where a
/// value would leave the machine range.
pub open spec fn apart_pair(s: Seq<Body>, k: int, qx: int, qy: int, half_gap: nat) -> Seq<Body> {
    let n = s.len() as int;
    let j = n - 1 - k;
    let d = apart_dir(qx, qy);
    let len = floor_sqrt((d.0 * d.0 + d.1 * d.1) as nat);
    let w = ((n - 1 - 2 * k) * half_gap) as nat;
    if scaled_fits(d.0, w, len) && scaled_fits(d.1, w, len) {
        let ox = scaled(d.0, w, len);
        let oy = scaled(d.1, w, len);
        let a = s[k];
        let b = s[j];
        if fits_i64(a.position.x + ox) && fits_i64(a.position.y + oy) && fits_i64(
            b.position.x - ox,
        ) && fits_i64(b.position.y - oy) {
            s.update(
                k,
                Body {
                    position: Point {
                        x: (a.position.x + ox) as i64,
                        y: (a.position.y + oy) as i64,
                    },
                    ..a
                },
            ).update(
                j,
                Body {
                    position: Point {
                        x: (b.position.x - ox) as i64,
                        y: (b.position.y - oy) as i64,
                    },
                    ..b
                },
            )
        } else {
            s
        }
    } else {
        s
    }
}

/// `apart_pair` applied for `k` from the given one up to `n / 2`.
pub open spec fn apart_from(s: Seq<Body>, n: nat, k: nat, qx: int, qy: int, half_gap: nat) -> Seq<Body>
    decreases n / 2 - k,
{
    if k >= n / 2 {
        s
    } else {
        apart_from(apart_pair(s, k as int, qx, qy, half_gap), n, k + 1, qx, qy, half_gap)
    }
}

/// The fragments of a shattering body, as `fragment` makes them.
pub open spec fn fragment_spec(b: Body, c: int) -> Seq<Body> {
    let n = pieces_spec(c, b.mass as int);
    let qx = quot(b.momentum.x as int, n);
    let qy = quot(b.momentum.y as int, n);
    apart_from(
        sideways_from(forward_spec(b, c), n as nat, 0, qx, qy, spread_spec(c) as nat),
        n as nat,
        0,
        qx,
        qy,
        (b.radius + 1) as nat,
    )
}

/// Shatters a body into fragments. The fragments share its mass and its
/// momentum exactly: each carries an equal forward share (the first also the
/// remainders), and the pairs of fragments placed symmetrically in the fan
/// receive opposite sideways momenta, growing with `spread_spec(c)` toward
/// the outside of the fan. They stand in a row across the direction of
/// motion, centred on the body, each a body's diameter and more from the
/// next, so that no two of them overlap as they start.
pub fn fragment(b: &Body, c: i64) -> (r: Vec<Body>)
    requires
        body_wf(*b),
        -1000 <= c <= 1000,
    ensures
        r@.len() == pieces_spec(c as int, b.mass as int),
        total_mass(r@) == b.mass,
        total_momentum(r@) == (b.momentum.x as int, b.momentum.y as int),
        forall|i: int| 0 <= i < r@.len() ==> body_wf(#[trigger] r@[i]),
        r@ == fragment_spec(*b, c as int),
{
    proof {
        fragment_rule_monotonic(c as int, c as int);
        lemma_radius_bound(b.mass);
    }
    let count: u64 = (2 + (1000 - c) / 500) as u64;
    let n: u64 = if count <= b.mass {
        count
    } else {
        b.mass
    };
    let share: u64 = b.mass / n;
    proof {
        lemma_fundamental_div_mod(b.mass as int, n as int);
        lemma_mod_bound(b.mass as int, n as int);
        assert(share + b.mass % n <= b.mass) by (nonlinear_arith)
            requires
                b.mass == n * share + b.mass % n,
                n >= 1,
                share >= 0,
        ;
    }
    let first_mass: u64 = share + b.mass % n;
    let qx = div_toward_zero(b.momentum.x, n);
    let qy = div_toward_zero(b.momentum.y, n);
    proof {
        lemma_fundamental_div_mod(b.mass as int, n as int);
        lemma_mod_bound(b.mass as int, n as int);
        lemma_share_bounds(b.momentum.x as int, n as int);
        lemma_share_bounds(b.momentum.y as int, n as int);
        assert(share >= 1) by (nonlinear_arith)
            requires
                b.mass == n * share + b.mass % n,
                b.mass % n < n,
                n <= b.mass,
                n >= 1,
        ;
    }
    let first_x: i64 = (b.momentum.x as i128 - (n as i128 - 1) * qx as i128) as i64;
    let first_y: i64 = (b.momentum.y as i128 - (n as i128 - 1) * qy as i128) as i64;
    let mut out: Vec<Body> = Vec::new();
    let first = Body {
        position: b.position,
        momentum: Point { x: first_x, y: first_y },
        mass: first_mass,
        radius: crate::body::radius_of(first_mass),
    };
    out.push(first);
    proof {
        lemma_totals_push(Seq::empty(), first);
        assert(out@ =~= Seq::<Body>::empty().push(first));
        assert(total_mass(Seq::<Body>::empty()) == 0);
        assert(total_momentum(Seq::<Body>::empty()) == (0int, 0int));
        assert(total_mass(out@) == first_mass);
        assert(total_momentum(out@) == (first_x as int, first_y as int));
        assert((1 - 1) * share == 0 && (1 - 1) * qx == 0 && (1 - 1) * qy == 0) by (nonlinear_arith);
    }
    let rest = Body {
        position: b.position,
        momentum: Point { x: qx, y: qy },
        mass: share,
        radius: crate::body::radius_of(share),
    };
    let mut k: u64 = 1;
    while k < n
        invariant
            1 <= k <= n,
            out@.len() == k,
            total_mass(out@) == first_mass + (k - 1) * share,
            total_momentum(out@) == (first_x + (k - 1) * qx, first_y + (k - 1) * qy),
            body_wf(rest),
            rest.position == b.position,
            rest.mass == share,
            rest.momentum == (Point { x: qx, y: qy }),
            forall|i: int| 0 <= i < k ==> #[trigger] out@[i] == if i == 0 {
                first
            } else {
                rest
            },
            forall|i: int|
                0 <= i < out@.len() ==> body_wf(#[trigger] out@[i]) && out@[i].position
                    == b.position,
        decreases n - k,
    {
        proof {
            lemma_totals_push(out@, rest);
            assert(first_mass + (k - 1) * share + share == first_mass + ((k + 1) - 1) * share
                && first_x + (k - 1) * qx + qx == first_x + ((k + 1) - 1) * qx && first_y + (k
                - 1) * qy + qy == first_y + ((k + 1) - 1) * qy) by (nonlinear_arith);
        }
        let ghost before = out@;
        out.push(rest);
        assert(out@ == before.push(rest));
        k += 1;
    }
    proof {
        assert(first_mass + (n - 1) * share == b.mass) by (nonlinear_arith)
            requires
                first_mass == share + b.mass % n,
                b.mass == n * share + b.mass % n,
        ;
        assert(first_x + (n - 1) * qx == b.momentum.x && first_y + (n - 1) * qy == b.momentum.y)
            by (nonlinear_arith)
            requires
                first_x == b.momentum.x - (n - 1) * qx,
                first_y == b.momentum.y - (n - 1) * qy,
        ;
    }
    proof {
        assert(out@ =~= forward_spec(*b, c as int));
    }
    spread_sideways(&mut out, qx, qy, ((1000 - c) / 2) as u128);
    let ghost fanned = out@;
    spread_apart(&mut out, qx, qy, b.radius + 1);
    proof {
        assert forall|i: int| 0 <= i < out@.len() implies (#[trigger] out@[i]).mass
            == fanned[i].mass && out@[i].momentum == fanned[i].momentum by {
            assert(out@[i] == (Body { position: out@[i].position, ..fanned[i] }));
        }
        crate::body::lemma_same_masses(out@, fanned);
        crate::body::lemma_same_momenta(out@, fanned);
    }
    out
}

/// `quot(p, n)` is a share of `p`: it does not exceed `p` in size, and
/// `p - (n - 1) * quot(p, n)` lies between 0 and `p`.
proof fn lemma_share_bounds(p: int, n: int)
    requires
        n >= 1,
    ensures
        p >= 0 ==> 0 <= quot(p, n) && 0 <= p - (n - 1) * quot(p, n) <= p,
        p < 0 ==> quot(p, n) <= 0 && p <= p - (n - 1) * quot(p, n) <= 0,
{
    let a = if p >= 0 { p } else { -p };
    lemma_fundamental_div_mod(a, n);
    lemma_mod_bound(a, n);
    let q = a / n;
    assert(q >= 0 && (n - 1) * q <= a && (n - 1) * q >= 0 && (n - 1) * (-q) == -((n - 1) * q))
        by (nonlinear_arith)
        requires
            a == n * q + a % n,
            0 <= a % n < n,
            a >= 0,
            n >= 1,
    ;
}

/// Moves the pairs of fragments placed symmetrically in the row apart along
/// the sideways direction of the forward share `(qx, qy)` (or the y axis,
/// for a share of zero), fragment `k` by `(n - 1 - 2k) * half_gap`; a pair
/// whose positions would leave the machine range stays.
fn spread_apart(out: &mut Vec<Body>, qx: i64, qy: i64, half_gap: u64)
    requires
        old(out)@.len() >= 1,
    ensures
        final(out)@.len() == old(out)@.len(),
        forall|i: int|
            0 <= i < final(out)@.len() ==> #[trigger] final(out)@[i] == (Body {
                position: final(out)@[i].position,
                ..old(out)@[i]
            }),
        final(out)@ == apart_from(old(out)@, old(out)@.len(), 0, qx as int, qy as int, half_gap as nat),
{
    let (dx, dy) = if qx == 0 && qy == 0 || qy == i64::MIN {
        (0i64, 1i64)
    } else {
        (-qy, qx)
    };
    assert(0 <= dx * dx <= 0x4000_0000_0000_0000_0000_0000_0000_0000 && 0 <= dy * dy
        <= 0x4000_0000_0000_0000_0000_0000_0000_0000 && (dx != 0 || dy != 0 ==> dx * dx + dy * dy
        >= 1)) by (nonlinear_arith)
        requires
            i64::MIN <= dx <= i64::MAX,
            i64::MIN <= dy <= i64::MAX,
    ;
    let dsq: u128 = (dx as i128 * dx as i128) as u128 + (dy as i128 * dy as i128) as u128;
    let len = isqrt(dsq);
    proof {
        crate::geometry::lemma_floor_sqrt_bounds(dsq as nat);
        assert(len >= 1) by (nonlinear_arith)
            requires
                dsq >= 1,
                dsq < (len + 1) * (len + 1),
                len >= 0,
        {
            if len == 0 {
                assert((len + 1) * (len + 1) == 1);
            }
        }
    }
    let n: usize = out.len();
    let half: usize = n / 2;
    let mut k: usize = 0;
    while k < half
        invariant
            n == out@.len(),
            n == old(out)@.len(),
            half == n / 2,
            0 <= k <= half,
            len >= 1,
            (dx as int, dy as int) == apart_dir(qx as int, qy as int),
            len == floor_sqrt((dx * dx + dy * dy) as nat),
            forall|i: int|
                0 <= i < n ==> #[trigger] out@[i] == (Body {
                    position: out@[i].position,
                    ..old(out)@[i]
                }),
            apart_from(out@, n as nat, k as nat, qx as int, qy as int, half_gap as nat)
                == apart_from(old(out)@, n as nat, 0, qx as int, qy as int, half_gap as nat),
        decreases half - k,
    {
        assert(n - 1 - 2 * k >= 1);
        assert((n - 1 - 2 * k) * half_gap <= 0xffff_ffff_ffff_ffff * 0xffff_ffff_ffff_ffff)
            by (nonlinear_arith)
            requires
                0 <= n - 1 - 2 * k <= 0xffff_ffff_ffff_ffff,
                0 <= half_gap <= 0xffff_ffff_ffff_ffff,
        ;
        let j: usize = n - 1 - k;
        let weight: u128 = ((n - 1 - 2 * k) as u128) * half_gap as u128;
        let ox = checked_scaled(dx, weight, len as u128);
        let oy = checked_scaled(dy, weight, len as u128);
        if let (Some(ox), Some(oy)) = (ox, oy) {
            let a = out[k];
            let b = out[j];
            if let (Some(ax), Some(ay), Some(bx), Some(by)) = (
                a.position.x.checked_add(ox),
                a.position.y.checked_add(oy),
                b.position.x.checked_sub(ox),
                b.position.y.checked_sub(oy),
            ) {
                let ghost cur = out@;
                out.set(k, Body { position: Point { x: ax, y: ay }, ..a });
                out.set(j, Body { position: Point { x: bx, y: by }, ..b });
                assert(out@ =~= apart_pair(cur, k as int, qx as int, qy as int, half_gap as nat));
            }
        }
        k += 1;
    }
}

/// Gives the pairs of fragments placed symmetrically in the fan opposite
/// sideways momenta, perpendicular to the forward share `(qx, qy)`; a pair
/// whose momenta would leave the machine range is left as it is.
fn spread_sideways(out: &mut Vec<Body>, qx: i64, qy: i64, spread: u128)
    requires
        old(out)@.len() >= 1,
        spread <= 1000,
    ensures
        final(out)@.len() == old(out)@.len(),
        total_mass(final(out)@) == total_mass(old(out)@),
        total_momentum(final(out)@) == total_momentum(old(out)@),
        forall|i: int|
            0 <= i < final(out)@.len() ==> (#[trigger] final(out)@[i]).mass == old(out)@[i].mass
                && final(out)@[i].radius == old(out)@[i].radius && final(out)@[i].position
                == old(out)@[i].position,
        final(out)@ == sideways_from(old(out)@, old(out)@.len(), 0, qx as int, qy as int, spread as nat),
{
    let n: usize = out.len();
    let half: usize = n / 2;
    let mut k: usize = 0;
    while k < half
        invariant
            n == out@.len(),
            n == old(out)@.len(),
            n >= 1,
            half == n / 2,
            0 <= k <= half,
            spread <= 1000,
            total_mass(out@) == total_mass(old(out)@),
            total_momentum(out@) == total_momentum(old(out)@),
            forall|i: int|
                0 <= i < n ==> (#[trigger] out@[i]).mass == old(out)@[i].mass && out@[i].radius
                    == old(out)@[i].radius && out@[i].position == old(out)@[i].position,
            sideways_from(out@, n as nat, k as nat, qx as int, qy as int, spread as nat)
                == sideways_from(old(out)@, n as nat, 0, qx as int, qy as int, spread as nat),
        decreases half - k,
    {
        assert(n - 1 - 2 * k >= 1);
        let j: usize = n - 1 - k;
        assert((n - 1 - 2 * k) * spread <= 0xffff_ffff_ffff_ffff * 1000) by (nonlinear_arith)
            requires
                0 <= n - 1 - 2 * k <= 0xffff_ffff_ffff_ffff,
                0 <= spread <= 1000,
        ;
        let weight: u128 = ((n - 1 - 2 * k) as u128) * spread;
        let den: u128 = 1000 * (n - 1) as u128;
        let lx = if qy == i64::MIN {
            None
        } else {
            checked_scaled(-qy, weight, den)
        };
        let ly = checked_scaled(qx, weight, den);
        if let (Some(lx), Some(ly)) = (lx, ly) {
            let a = out[k];
            let b = out[j];
            if let (Some(ax), Some(ay), Some(bx), Some(by)) = (
                a.momentum.x.checked_add(lx),
                a.momentum.y.checked_add(ly),
                b.momentum.x.checked_sub(lx),
                b.momentum.y.checked_sub(ly),
            ) {
                let na = Body { momentum: Point { x: ax, y: ay }, ..a };
                let nb = Body { momentum: Point { x: bx, y: by }, ..b };
                proof {
                    lemma_totals_update(out@, k as int, na);
                    lemma_totals_update(out@.update(k as int, na), j as int, nb);
                }
                let ghost cur = out@;
                out.set(k, na);
                out.set(j, nb);
                assert(out@ =~= sideways_pair(cur, k as int, qx as int, qy as int, spread as nat));
            }
        }
        k += 1;
    }
}

/// Whether a pair, when neither body has had an event this step, has one: a
/// merge that fits the machine range, or a shattering.
pub open spec fn pair_event(a: Body, b: Body) -> bool {
    match outcome_spec(a, b) {
        Outcome::Merge => merge_fits(a, b),
        Outcome::Shatter { .. } => true,
        _ => false,
    }
}

/// The event flags after the pairs from `(i, j)` on, in index order, are
/// scanned: a pair of bodies that are both still unflagged and have an event
/// flags both.
pub open spec fn flags_from(s: Seq<Body>, i: nat, j: nat, used: Seq<bool>) -> Seq<bool>
    decreases s.len() - i, s.len() - j,
{
    if i >= s.len() {
        used
    } else if j >= s.len() {
        flags_from(s, i + 1, i + 2, used)
    } else if !used[i as int] && !used[j as int] && pair_event(s[i as int], s[j as int]) {
        flags_from(s, i, j + 1, used.update(i as int, true).update(j as int, true))
    } else {
        flags_from(s, i, j + 1, used)
    }
}

/// The survivor of a merge, as `merge` makes it.
pub open spec fn merged_spec(a: Body, b: Body) -> Body {
    Body {
        position: if a.mass >= b.mass {
            a.position
        } else {
            b.position
        },
        momentum: Point {
            x: (a.momentum.x + b.momentum.x) as i64,
            y: (a.momentum.y + b.momentum.y) as i64,
        },
        mass: (a.mass + b.mass) as u64,
        radius: radius_spec((a.mass + b.mass) as nat) as u64,
    }
}

/// What a body leaves after a shattering impact: its fragments when it
/// shatters, itself otherwise.
pub open spec fn pieces_of(b: Body, shatter: bool, c: int) -> Seq<Body> {
    if shatter {
        fragment_spec(b, c)
    } else {
        seq![b]
    }
}

/// What an event between two bodies produces: the survivor of a merge, or
/// the pieces of both bodies of a shattering impact, the first body's first.
pub open spec fn event_products(a: Body, b: Body) -> Seq<Body> {
    match outcome_spec(a, b) {
        Outcome::Merge => seq![merged_spec(a, b)],
        Outcome::Shatter { first, second } => {
            let c = cos_permille_spec(velocity_spec(a), velocity_spec(b));
            pieces_of(a, first, c) + pieces_of(b, second, c)
        },
        _ => Seq::empty(),
    }
}

/// The products of the events of the pairs from `(i, j)` on, appended to
/// `made`, the scan as in `flags_from`.
pub open spec fn products_from(s: Seq<Body>, i: nat, j: nat, used: Seq<bool>, made: Seq<Body>) -> Seq<Body>
    decreases s.len() - i, s.len() - j,
{
    if i >= s.len() {
        made
    } else if j >= s.len() {
        products_from(s, i + 1, i + 2, used, made)
    } else if !used[i as int] && !used[j as int] && pair_event(s[i as int], s[j as int]) {
        products_from(
            s,
            i,
            j + 1,
            used.update(i as int, true).update(j as int, true),
            made + event_products(s[i as int], s[j as int]),
        )
    } else {
        products_from(s, i, j + 1, used, made)
    }
}

/// What this step's events produce, event by event in scan order.
pub open spec fn collision_products(s: Seq<Body>) -> Seq<Body> {
    products_from(s, 0, 1, Seq::new(s.len(), |k: int| false), Seq::empty())
}

/// The store after collision resolution: the bodies without an event, in
/// order, then what the events produced.
pub open spec fn resolved(s: Seq<Body>) -> Seq<Body> {
    kept(s, event_flags(s)) + collision_products(s)
}

/// A store of two bodies that merge resolves to their one survivor, which
/// carries their summed mass and momentum.
pub proof fn merging_pair_becomes_one(a: Body, b: Body)
    requires
        outcome_spec(a, b) == Outcome::Merge,
        merge_fits(a, b),
    ensures
        resolved(seq![a, b]) == seq![merged_spec(a, b)],
        merged_spec(a, b).mass == a.mass + b.mass,
        merged_spec(a, b).momentum.x == a.momentum.x + b.momentum.x,
        merged_spec(a, b).momentum.y == a.momentum.y + b.momentum.y,
{
    let s = seq![a, b];
    let none = Seq::new(2, |k: int| false);
    let both = none.update(0, true).update(1, true);
    assert(flags_from(s, 0, 1, none) == flags_from(s, 0, 2, both));
    assert(flags_from(s, 0, 2, both) == flags_from(s, 1, 2, both));
    assert(flags_from(s, 1, 2, both) == flags_from(s, 2, 3, both));
    let m = Seq::<Body>::empty() + event_products(a, b);
    assert(products_from(s, 0, 1, none, Seq::empty()) == products_from(s, 0, 2, both, m));
    assert(products_from(s, 0, 2, both, m) == products_from(s, 1, 2, both, m));
    assert(products_from(s, 1, 2, both, m) == products_from(s, 2, 3, both, m));
    assert(event_flags(s) == both);
    assert(s.drop_last() =~= seq![a]);
    assert(both.drop_last() =~= seq![true]);
    assert(seq![a].drop_last() =~= Seq::<Body>::empty());
    assert(seq![true].drop_last() =~= Seq::<bool>::empty());
    assert(both.last());
    assert(kept(s, both) == kept(seq![a], seq![true]));
    assert(kept(seq![a], seq![true]) == kept(Seq::<Body>::empty(), Seq::<bool>::empty()));
    assert(kept(s, both) =~= Seq::<Body>::empty());
    assert(m =~= seq![merged_spec(a, b)]);
    assert(resolved(s) =~= seq![merged_spec(a, b)]);
}

/// The bodies of a store that take part in an event this step.
pub open spec fn event_flags(s: Seq<Body>) -> Seq<bool> {
    flags_from(s, 0, 1, Seq::new(s.len(), |k: int| false))
}

/// No two bodies of the store overlap.
pub open spec fn no_overlap(s: Seq<Body>) -> bool {
    forall|i: int, j: int| 0 <= i < j < s.len() ==> !overlap_spec(#[trigger] s[i], #[trigger] s[j])
}

/// The bodies of `s` whose flag in `used` is clear, in order.
pub open spec fn kept(s: Seq<Body>, used: Seq<bool>) -> Seq<Body>
    decreases s.len(),
{
    if s.len() == 0 {
        Seq::empty()
    } else {
        let r = kept(s.drop_last(), used.drop_last());
        if used.last() {
            r
        } else {
            r.push(s.last())
        }
    }
}

proof fn lemma_kept_mark(s: Seq<Body>, used: Seq<bool>, i: int)
    requires
        s.len() == used.len(),
        0 <= i < s.len(),
        !used[i],
    ensures
        total_mass(kept(s, used.update(i, true))) == total_mass(kept(s, used)) - s[i].mass,
        total_momentum(kept(s, used.update(i, true))) == (total_momentum(kept(s, used)).0
            - s[i].momentum.x, total_momentum(kept(s, used)).1 - s[i].momentum.y),
    decreases s.len(),
{
    let u = used.update(i, true);
    if i == s.len() - 1 {
        assert(u.drop_last() =~= used.drop_last());
        lemma_totals_push(kept(s.drop_last(), used.drop_last()), s.last());
    } else {
        assert(u.drop_last() =~= used.drop_last().update(i, true));
        lemma_kept_mark(s.drop_last(), used.drop_last(), i);
        if !used.last() {
            lemma_totals_push(kept(s.drop_last(), used.drop_last()), s.last());
            lemma_totals_push(kept(s.drop_last(), u.drop_last()), s.last());
        }
    }
}

proof fn lemma_kept_wf(s: Seq<Body>, used: Seq<bool>)
    requires
        s.len() == used.len(),
        forall|k: int| 0 <= k < s.len() ==> body_wf(#[trigger] s[k]),
    ensures
        forall|k: int| 0 <= k < kept(s, used).len() ==> body_wf(#[trigger] kept(s, used)[k]),
    decreases s.len(),
{
    if s.len() > 0 {
        lemma_kept_wf(s.drop_last(), used.drop_last());
        let r = kept(s.drop_last(), used.drop_last());
        assert(body_wf(s[s.len() - 1]));
        if !used.last() {
            let t = r.push(s.last());
            assert forall|k: int| 0 <= k < t.len() implies body_wf(#[trigger] t[k]) by {
                if k < r.len() {
                    assert(t[k] == r[k]);
                }
            }
        }
    }
}

pub proof fn lemma_totals_concat(a: Seq<Body>, b: Seq<Body>)
    ensures
        total_mass(a + b) == total_mass(a) + total_mass(b),
        total_momentum(a + b) == (total_momentum(a).0 + total_momentum(b).0, total_momentum(a).1
            + total_momentum(b).1),
    decreases b.len(),
{
    if b.len() > 0 {
        lemma_totals_concat(a, b.drop_last());
        assert((a + b).drop_last() =~= a + b.drop_last());
    } else {
        assert(a + b =~= a);
    }
}

/// The pieces that a body leaves after a shattering impact: its fragments
/// when it shatters, itself otherwise.
fn pieces(b: &Body, shatter: bool, c: i64) -> (r: Vec<Body>)
    requires
        body_wf(*b),
        -1000 <= c <= 1000,
    ensures
        total_mass(r@) == b.mass,
        total_momentum(r@) == (b.momentum.x as int, b.momentum.y as int),
        forall|i: int| 0 <= i < r@.len() ==> body_wf(#[trigger] r@[i]),
        r@ == pieces_of(*b, shatter, c as int),
{
    if shatter {
        fragment(b, c)
    } else {
        let mut v: Vec<Body> = Vec::new();
        v.push(*b);
        proof {
            lemma_totals_push(Seq::empty(), *b);
            assert(v@ =~= Seq::<Body>::empty().push(*b));
            assert(total_mass(Seq::<Body>::empty()) == 0);
            assert(total_momentum(Seq::<Body>::empty()) == (0int, 0int));
            assert(v@ =~= seq![*b]);
        }
        v
    }
}

/// Resolves this step's collisions. Pairs are taken in index order, and a
/// body takes part in at most one event per step: a pair of which either
/// body has already merged or shattered this step waits for the next step.
/// Merging pairs become their survivor; shattering bodies become their
/// fragments. The result holds the untouched bodies in their order, then what
/// the events produced. The total mass and the total momentum of the store
/// are unchanged.
pub fn resolve_collisions(bodies: &Vec<Body>) -> (r: Vec<Body>)
    requires
        forall|i: int| 0 <= i < bodies@.len() ==> body_wf(#[trigger] bodies@[i]),
    ensures
        forall|i: int| 0 <= i < r@.len() ==> body_wf(#[trigger] r@[i]),
        total_mass(r@) == total_mass(bodies@),
        total_momentum(r@) == total_momentum(bodies@),
        no_overlap(bodies@) ==> r@ == bodies@,
        r@ == resolved(bodies@),
        r@.len() >= kept(bodies@, event_flags(bodies@)).len(),
        r@.subrange(0, kept(bodies@, event_flags(bodies@)).len() as int) == kept(
            bodies@,
            event_flags(bodies@),
        ),
{
    let n = bodies.len();
    let mut used: Vec<bool> = Vec::new();
    let mut k: usize = 0;
    while k < n
        invariant
            used@.len() == k,
            k <= n,
            forall|m: int| 0 <= m < k ==> !(#[trigger] used@[m]),
        decreases n - k,
    {
        used.push(false);
        k += 1;
    }
    proof {
        assert(used@.len() == n);
        assert(used@ =~= Seq::new(bodies@.len(), |m: int| false));
        let u = used@;
        assert(forall|m: int| 0 <= m < n ==> !(#[trigger] u[m]));
        lemma_kept_none_used(bodies@, u);
    }
    let mut produced: Vec<Body> = Vec::new();
    let mut i: usize = 0;
    while i < n
        invariant
            n == bodies@.len(),
            n == used@.len(),
            0 <= i <= n,
            forall|m: int| 0 <= m < n ==> body_wf(#[trigger] bodies@[m]),
            forall|m: int| 0 <= m < produced@.len() ==> body_wf(#[trigger] produced@[m]),
            no_overlap(bodies@) ==> produced@.len() == 0 && forall|m: int|
                0 <= m < n ==> !(#[trigger] used@[m]),
            flags_from(bodies@, i as nat, (i + 1) as nat, used@) == event_flags(bodies@),
            products_from(bodies@, i as nat, (i + 1) as nat, used@, produced@)
                == collision_products(bodies@),
            total_mass(kept(bodies@, used@)) + total_mass(produced@) == total_mass(bodies@),
            total_momentum(kept(bodies@, used@)).0 + total_momentum(produced@).0 == total_momentum(
                bodies@,
            ).0,
            total_momentum(kept(bodies@, used@)).1 + total_momentum(produced@).1 == total_momentum(
                bodies@,
            ).1,
        decreases n - i,
    {
        let mut j: usize = i + 1;
        while j < n
            invariant
                n == bodies@.len(),
                n == used@.len(),
                0 <= i < n,
                i + 1 <= j <= n,
                forall|m: int| 0 <= m < n ==> body_wf(#[trigger] bodies@[m]),
                forall|m: int| 0 <= m < produced@.len() ==> body_wf(#[trigger] produced@[m]),
                no_overlap(bodies@) ==> produced@.len() == 0 && forall|m: int|
                    0 <= m < n ==> !(#[trigger] used@[m]),
                flags_from(bodies@, i as nat, j as nat, used@) == event_flags(bodies@),
                products_from(bodies@, i as nat, j as nat, used@, produced@)
                    == collision_products(bodies@),
                total_mass(kept(bodies@, used@)) + total_mass(produced@) == total_mass(bodies@),
                total_momentum(kept(bodies@, used@)).0 + total_momentum(produced@).0
                    == total_momentum(bodies@).0,
                total_momentum(kept(bodies@, used@)).1 + total_momentum(produced@).1
                    == total_momentum(bodies@).1,
            decreases n - j,
        {
            if !used[i] && !used[j] {
                let a = bodies[i];
                let b = bodies[j];
                let mut made: Vec<Body> = Vec::new();
                let mut event = false;
                assert(a == bodies@[i as int] && b == bodies@[j as int]);
                match classify(&a, &b) {
                    Outcome::Merge => {
                        if let Some(s) = merge(&a, &b) {
                            made.push(s);
                            event = true;
                            proof {
                                lemma_radius_bound((a.mass + b.mass) as u64);
                                assert(s == merged_spec(a, b));
                                lemma_totals_push(Seq::empty(), s);
                                assert(made@ =~= Seq::<Body>::empty().push(s));
                                assert(total_mass(Seq::<Body>::empty()) == 0);
                                assert(total_momentum(Seq::<Body>::empty()) == (0int, 0int));
                            }
                        }
                    },
                    Outcome::Shatter { first, second } => {
                        let c = cos_permille(a.velocity(), b.velocity());
                        made = pieces(&a, first, c);
                        let mut more = pieces(&b, second, c);
                        assert(c == cos_permille_spec(velocity_spec(a), velocity_spec(b)));
                        proof {
                            lemma_totals_concat(made@, more@);
                        }
                        made.append(&mut more);
                        event = true;
                    },
                    _ => {},
                }
                assert(event == pair_event(a, b));
                assert(event ==> made@ == event_products(a, b));
                if event {
                    proof {
                        lemma_kept_mark(bodies@, used@, i as int);
                        lemma_kept_mark(bodies@, used@.update(i as int, true), j as int);
                        lemma_totals_concat(produced@, made@);
                    }
                    used.set(i, true);
                    used.set(j, true);
                    produced.append(&mut made);
                }
            }
            j += 1;
        }
        i += 1;
    }
    let mut out: Vec<Body> = Vec::new();
    let mut k: usize = 0;
    while k < n
        invariant
            n == bodies@.len(),
            n == used@.len(),
            0 <= k <= n,
            out@ == kept(bodies@.take(k as int), used@.take(k as int)),
        decreases n - k,
    {
        proof {
            assert(bodies@.take(k + 1).drop_last() =~= bodies@.take(k as int));
            assert(used@.take(k + 1).drop_last() =~= used@.take(k as int));
        }
        if !used[k] {
            out.push(bodies[k]);
        }
        k += 1;
    }
    proof {
        assert(bodies@.take(n as int) =~= bodies@);
        assert(used@.take(n as int) =~= used@);
        lemma_kept_wf(bodies@, used@);
        lemma_totals_concat(out@, produced@);
        assert((out@ + produced@).subrange(0, out@.len() as int) =~= out@);
        assert(produced@ == collision_products(bodies@));
        if no_overlap(bodies@) {
            lemma_kept_none_used(bodies@, used@);
            assert(out@ + produced@ =~= bodies@);
        }
    }
    out.append(&mut produced);
    out
}

proof fn lemma_kept_none_used(s: Seq<Body>, used: Seq<bool>)
    requires
        s.len() == used.len(),
        forall|m: int| 0 <= m < used.len() ==> !(#[trigger] used[m]),
    ensures
        kept(s, used) == s,
    decreases s.len(),
{
    if s.len() > 0 {
        lemma_kept_none_used(s.drop_last(), used.drop_last());
        assert(s.drop_last().push(s.last()) =~= s);
    } else {
        assert(s =~= Seq::empty());
    }
}

} // verus!

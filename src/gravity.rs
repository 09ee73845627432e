//! Pairwise gravitational attraction.
use vstd::prelude::*;
use crate::body::{Body, Point, body_wf, total_momentum, lemma_totals_update};
use crate::collision::velocity_spec;
use crate::geometry::{floor_sqrt, isqrt, scaled, scaled_fits, checked_scaled};

verus! {

/// The gravitational constant `G = 0.01` (pixels cubed per mass unit per
/// second squared), expressed in micro-pixels and milliseconds.
pub const GRAVITY: u128 = 10_000_000_000_000;

/// Pairs whose squared separation (in square micro-pixels) is below this are
/// coincident, and exert no pull on each other.
pub const MIN_SEPARATION_SQ: u128 = 1;

pub open spec fn fits_i64(v: int) -> bool {
    i64::MIN <= v <= i64::MAX
}

/// The impulse that `b2` gives `b1` over `dt` milliseconds: `G * dt * m1 * m2
/// * d / |d|^3`, with `d` pointing from `b1` to `b2`, `|d|` the rounded-down
/// square root and each axis rounded toward zero. `None` where the pair is
/// coincident, or where a quantity or a resulting momentum leaves the machine
/// range.
pub open spec fn pair_impulse(b1: Body, b2: Body, dt: nat) -> Option<(int, int)> {
    let dx = b2.position.x - b1.position.x;
    let dy = b2.position.y - b1.position.y;
    let dsq = dx * dx + dy * dy;
    let den = dsq * floor_sqrt(dsq as nat);
    let n = GRAVITY * dt * b1.mass * b2.mass;
    if !(fits_i64(dx) && fits_i64(dy)) || dsq < MIN_SEPARATION_SQ {
        None
    } else if !(den <= u128::MAX && n <= u128::MAX && scaled_fits(dx, n as nat, den as nat)
        && scaled_fits(dy, n as nat, den as nat)) {
        None
    } else {
        let jx = scaled(dx, n as nat, den as nat);
        let jy = scaled(dy, n as nat, den as nat);
        if fits_i64(b1.momentum.x + jx) && fits_i64(b1.momentum.y + jy) && fits_i64(
            b2.momentum.x - jx,
        ) && fits_i64(b2.momentum.y - jy) {
            Some((jx, jy))
        } else {
            None
        }
    }
}

/// The momenta of `b1` and `b2` after they attract each other for `dt`
/// milliseconds. Each gains the impulse toward the other; the pair's total
/// momentum is unchanged.
pub fn gravity_pair(b1: &Body, b2: &Body, dt: u64) -> (r: (Point, Point))
    requires
        body_wf(*b1),
        body_wf(*b2),
    ensures
        pair_impulse(*b1, *b2, dt as nat) is None ==> r == (b1.momentum, b2.momentum),
        pair_impulse(*b1, *b2, dt as nat) matches Some((jx, jy)) ==> r.0.x == b1.momentum.x + jx
            && r.0.y == b1.momentum.y + jy && r.1.x == b2.momentum.x - jx && r.1.y
            == b2.momentum.y - jy,
        r.0.x - b1.momentum.x == -(r.1.x - b2.momentum.x),
        r.0.y - b1.momentum.y == -(r.1.y - b2.momentum.y),
{
    let unchanged = (b1.momentum, b2.momentum);
    let dx = match b2.position.x.checked_sub(b1.position.x) {
        Some(v) => v,
        None => return unchanged,
    };
    let dy = match b2.position.y.checked_sub(b1.position.y) {
        Some(v) => v,
        None => return unchanged,
    };
    assert(dx * dx <= 0x4000_0000_0000_0000_0000_0000_0000_0000 && dy * dy
        <= 0x4000_0000_0000_0000_0000_0000_0000_0000 && dx * dx >= 0 && dy * dy >= 0)
        by (nonlinear_arith)
        requires
            i64::MIN <= dx <= i64::MAX,
            i64::MIN <= dy <= i64::MAX,
    ;
    let ax: u128 = (dx as i128 * dx as i128) as u128;
    let ay: u128 = (dy as i128 * dy as i128) as u128;
    let dsq: u128 = ax + ay;
    if dsq < MIN_SEPARATION_SQ {
        return unchanged;
    }
    let s = isqrt(dsq);
    let den = match dsq.checked_mul(s as u128) {
        Some(v) => v,
        None => return unchanged,
    };
    proof {
        crate::geometry::lemma_floor_sqrt_bounds(dsq as nat);
    }
    assert(den > 0) by (nonlinear_arith)
        requires
            den == dsq * s,
            dsq >= 1,
            s * s <= dsq,
            dsq < (s + 1) * (s + 1),
    {
        if s == 0 {
            assert(dsq < 1);
        }
    }
    assert(b1.mass * b2.mass <= 0xffff_ffff_ffff_fffe_0000_0000_0000_0001u128) by (nonlinear_arith)
        requires
            b1.mass <= 0xffff_ffff_ffff_ffffu64,
            b2.mass <= 0xffff_ffff_ffff_ffffu64,
            b1.mass >= 0,
            b2.mass >= 0,
    ;
    let m12: u128 = b1.mass as u128 * b2.mass as u128;
    let n = match m12.checked_mul(dt as u128) {
        Some(v) => match v.checked_mul(GRAVITY) {
            Some(w) => w,
            None => {
                proof {
                    assert(GRAVITY * dt * b1.mass * b2.mass == (m12 * dt) * GRAVITY)
                        by (nonlinear_arith)
                        requires
                            m12 == b1.mass * b2.mass,
                    ;
                }
                return unchanged;
            },
        },
        None => {
            proof {
                assert(GRAVITY * dt * b1.mass * b2.mass >= m12 * dt) by (nonlinear_arith)
                    requires
                        m12 == b1.mass * b2.mass,
                        GRAVITY >= 1,
                        dt >= 0,
                ;
            }
            return unchanged;
        },
    };
    assert(n == GRAVITY * dt * b1.mass * b2.mass) by (nonlinear_arith)
        requires
            n == (m12 * dt) * GRAVITY,
            m12 == b1.mass * b2.mass,
    ;
    let jx = match checked_scaled(dx, n, den) {
        Some(v) => v,
        None => return unchanged,
    };
    let jy = match checked_scaled(dy, n, den) {
        Some(v) => v,
        None => return unchanged,
    };
    match (
        b1.momentum.x.checked_add(jx),
        b1.momentum.y.checked_add(jy),
        b2.momentum.x.checked_sub(jx),
        b2.momentum.y.checked_sub(jy),
    ) {
        (Some(p1x), Some(p1y), Some(p2x), Some(p2y)) => {
            assert(dsq == dx * dx + dy * dy);
            assert(den == dsq * floor_sqrt(dsq as nat));
            assert(pair_impulse(*b1, *b2, dt as nat) == Some((jx as int, jy as int)));
            (
            Point { x: p1x, y: p1y },
            Point { x: p2x, y: p2y },
        )
        },
        _ => {
            assert(dsq == dx * dx + dy * dy);
            assert(den == dsq * floor_sqrt(dsq as nat));
            unchanged
        },
    }
}

/// The store after gravity: the same bodies, in the same order, where only
/// momenta may differ.
pub open spec fn same_but_momenta(a: Seq<Body>, b: Seq<Body>) -> bool {
    a.len() == b.len() && forall|i: int|
        0 <= i < a.len() ==> (#[trigger] a[i]).position == b[i].position && a[i].mass == b[i].mass
            && a[i].radius == b[i].radius
}

/// The store after bodies `i` and `j` attract each other once.
pub open spec fn pair_step(s: Seq<Body>, i: int, j: int, dt: nat) -> Seq<Body> {
    match pair_impulse(s[i], s[j], dt) {
        None => s,
        Some((jx, jy)) => s.update(
            i,
            Body {
                momentum: Point {
                    x: (s[i].momentum.x + jx) as i64,
                    y: (s[i].momentum.y + jy) as i64,
                },
                ..s[i]
            },
        ).update(
            j,
            Body {
                momentum: Point {
                    x: (s[j].momentum.x - jx) as i64,
                    y: (s[j].momentum.y - jy) as i64,
                },
                ..s[j]
            },
        ),
    }
}

/// Newton's third law for a pair: the momentum one body of the pair gains
/// the other loses, so the store's total momentum is unchanged.
pub proof fn pair_step_keeps_momentum(s: Seq<Body>, i: int, j: int, dt: nat)
    requires
        0 <= i < s.len(),
        0 <= j < s.len(),
        i != j,
    ensures
        total_momentum(pair_step(s, i, j, dt)) == total_momentum(s),
        pair_step(s, i, j, dt).len() == s.len(),
{
    if let Some((jx, jy)) = pair_impulse(s[i], s[j], dt) {
        let bi = Body {
            momentum: Point { x: (s[i].momentum.x + jx) as i64, y: (s[i].momentum.y + jy) as i64 },
            ..s[i]
        };
        let bj = Body {
            momentum: Point { x: (s[j].momentum.x - jx) as i64, y: (s[j].momentum.y - jy) as i64 },
            ..s[j]
        };
        lemma_totals_update(s, i, bi);
        lemma_totals_update(s.update(i, bi), j, bj);
    }
}

/// Two bodies of equal mass `m` at rest, alone in the store, pull each other
/// to equal and opposite velocities after one gravity step: the first gains
/// the momentum `G * dt * m * m * d / |d|^3` per axis (rounded toward zero,
/// with `d` pointing to the second body), the second loses it, and neither
/// moves yet. Stated where the pull stays within the machine range.
pub proof fn equal_bodies_attract(b1: Body, b2: Body, dt: nat)
    requires
        body_wf(b1),
        body_wf(b2),
        b1.mass == b2.mass,
        b1.momentum == (Point { x: 0, y: 0 }),
        b2.momentum == (Point { x: 0, y: 0 }),
        pair_impulse(b1, b2, dt) is Some,
    ensures
        ({
            let r = gravity_from(seq![b1, b2], 0, 1, dt);
            let dx = b2.position.x - b1.position.x;
            let dy = b2.position.y - b1.position.y;
            let dsq = dx * dx + dy * dy;
            let den = (dsq * floor_sqrt(dsq as nat)) as nat;
            let n = (GRAVITY * dt * b1.mass * b1.mass) as nat;
            &&& r.len() == 2
            &&& r[0].position == b1.position && r[1].position == b2.position
            &&& r[0].momentum.x == scaled(dx, n, den) && r[0].momentum.y == scaled(dy, n, den)
            &&& r[1].momentum.x == -r[0].momentum.x && r[1].momentum.y == -r[0].momentum.y
            &&& velocity_spec(r[0]).0 == -velocity_spec(r[1]).0
            &&& velocity_spec(r[0]).1 == -velocity_spec(r[1]).1
        }),
{
    let s = seq![b1, b2];
    let t = pair_step(s, 0, 1, dt);
    assert(t.len() == 2);
    assert(gravity_from(s, 0, 1, dt) == gravity_from(t, 0, 2, dt));
    assert(gravity_from(t, 0, 2, dt) == gravity_from(t, 1, 2, dt));
    assert(gravity_from(t, 1, 2, dt) == gravity_from(t, 2, 3, dt));
    assert(gravity_from(t, 2, 3, dt) == t);
}

/// The store after the pairs from `(i, j)` on, in index order (`i < j`, by
/// `i` and then by `j`), attract each other in turn.
pub open spec fn gravity_from(s: Seq<Body>, i: nat, j: nat, dt: nat) -> Seq<Body>
    decreases s.len() - i, s.len() - j,
    via gravity_from_decreases
{
    if i >= s.len() {
        s
    } else if j >= s.len() {
        gravity_from(s, i + 1, i + 2, dt)
    } else {
        gravity_from(pair_step(s, i as int, j as int, dt), i, j + 1, dt)
    }
}

#[via_fn]
proof fn gravity_from_decreases(s: Seq<Body>, i: nat, j: nat, dt: nat) {
    if i < s.len() && j < s.len() {
        if pair_impulse(s[i as int], s[j as int], dt) is Some {
            assert(pair_step(s, i as int, j as int, dt).len() == s.len());
        }
    }
}

/// Lets every unordered pair of bodies attract each other once, pair by pair
/// in index order. Only momenta change, and the total momentum of the store
/// is unchanged.
pub fn apply_gravity(bodies: &mut Vec<Body>, dt: u64)
    requires
        forall|i: int| 0 <= i < old(bodies)@.len() ==> body_wf(#[trigger] old(bodies)@[i]),
    ensures
        final(bodies)@ == gravity_from(old(bodies)@, 0, 1, dt as nat),
        same_but_momenta(old(bodies)@, final(bodies)@),
        forall|i: int| 0 <= i < final(bodies)@.len() ==> body_wf(#[trigger] final(bodies)@[i]),
        total_momentum(final(bodies)@) == total_momentum(old(bodies)@),
{
    let n = bodies.len();
    let mut i: usize = 0;
    while i < n
        invariant
            n == bodies@.len(),
            0 <= i <= n,
            same_but_momenta(old(bodies)@, bodies@),
            forall|k: int| 0 <= k < n ==> body_wf(#[trigger] bodies@[k]),
            total_momentum(bodies@) == total_momentum(old(bodies)@),
            gravity_from(bodies@, i as nat, (i + 1) as nat, dt as nat) == gravity_from(
                old(bodies)@,
                0,
                1,
                dt as nat,
            ),
        decreases n - i,
    {
        let mut j: usize = i + 1;
        while j < n
            invariant
                n == bodies@.len(),
                0 <= i < n,
                i + 1 <= j <= n,
                same_but_momenta(old(bodies)@, bodies@),
                forall|k: int| 0 <= k < n ==> body_wf(#[trigger] bodies@[k]),
                total_momentum(bodies@) == total_momentum(old(bodies)@),
                gravity_from(bodies@, i as nat, j as nat, dt as nat) == gravity_from(
                    old(bodies)@,
                    0,
                    1,
                    dt as nat,
                ),
            decreases n - j,
        {
            let a = bodies[i];
            let b = bodies[j];
            let (pa, pb) = gravity_pair(&a, &b, dt);
            let na = Body { momentum: pa, ..a };
            let nb = Body { momentum: pb, ..b };
            let ghost cur = bodies@;
            bodies.set(i, na);
            bodies.set(j, nb);
            proof {
                assert(bodies@ =~= pair_step(cur, i as int, j as int, dt as nat));
                pair_step_keeps_momentum(cur, i as int, j as int, dt as nat);
            }
            j += 1;
        }
        i += 1;
    }
}

} // verus!

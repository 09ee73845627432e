//! Bodies, the store that holds them, and the coupling of radius to mass.
use vstd::prelude::*;
use crate::geometry::{floor_sqrt, isqrt};

verus! {

/// Micro-pixels per pixel.
pub const LENGTH_SCALE: i64 = 1_000_000;

/// Square micro-pixels per square pixel.
pub const AREA_SCALE: u128 = 1_000_000_000_000;

/// Numerator of the value of pi used by the radius law.
pub const PI_NUM: u128 = 314;

/// Denominator of the value of pi used by the radius law.
pub const PI_DEN: u128 = 100;

/// The coefficient `C` of the radius law: a larger value gives smaller bodies.
pub const RADIUS_COEFFICIENT: u128 = 1000;

/// The mass of a body made by the spawn gesture.
pub const DEFAULT_MASS: u64 = 10_000;

/// A pair of integer coordinates: a position, a momentum or a velocity.
#[derive(Clone, Copy, PartialEq, Eq, Structural, Debug)]
pub struct Point {
    pub x: i64,
    pub y: i64,
}

impl Point {
    pub fn new(x: i64, y: i64) -> (r: Point)
        ensures
            r == (Point { x, y }),
    {
        Point { x, y }
    }

    pub fn zero() -> (r: Point)
        ensures
            r.x == 0 && r.y == 0,
    {
        Point { x: 0, y: 0 }
    }
}

/// A circular body. Its velocity is `momentum / mass`, per axis.
#[derive(Clone, Copy, PartialEq, Eq, Structural, Debug)]
pub struct Body {
    /// Centre, in micro-pixels.
    pub position: Point,
    /// Mass times velocity, in mass units times micro-pixels per second.
    pub momentum: Point,
    pub mass: u64,
    /// Radius in micro-pixels, recomputed from the mass each step.
    pub radius: u64,
}

/// The radius that belongs to a mass: `sqrt(mass / (pi * C))` pixels, in
/// micro-pixels, rounded down.
pub open spec fn radius_spec(mass: nat) -> nat {
    floor_sqrt(((mass * AREA_SCALE * PI_DEN) as int / (PI_NUM * RADIUS_COEFFICIENT) as int) as nat)
}

/// A body may exist only with a positive mass, and its radius follows from
/// its mass.
pub open spec fn body_wf(b: Body) -> bool {
    b.mass > 0 && radius_coupled(b)
}

/// Every radius that the law gives is below 2^48 micro-pixels.
pub proof fn lemma_radius_bound(mass: u64)
    ensures
        radius_spec(mass as nat) < 0x1_0000_0000_0000,
{
    let x = ((mass * AREA_SCALE * PI_DEN) as int / (PI_NUM * RADIUS_COEFFICIENT) as int) as nat;
    assert(x <= 0xffff_ffff_ffff_ffff * 100_000_000_000_000 / 314_000) by (nonlinear_arith)
        requires
            x == (mass * 100_000_000_000_000) / 314_000,
            0 <= mass <= 0xffff_ffff_ffff_ffff,
    ;
    crate::geometry::lemma_floor_sqrt_bounds(x);
    let r = floor_sqrt(x);
    if r >= 0x1_0000_0000_0000 {
        assert(r * r >= 0x1_0000_0000_0000 * 0x1_0000_0000_0000) by (nonlinear_arith)
            requires
                r >= 0x1_0000_0000_0000,
        ;
    }
}

/// The radius law holds of a body.
pub open spec fn radius_coupled(b: Body) -> bool {
    b.radius == radius_spec(b.mass as nat)
}

/// The sum of the masses of a sequence of bodies.
pub open spec fn total_mass(s: Seq<Body>) -> int
    decreases s.len(),
{
    if s.len() == 0 {
        0
    } else {
        total_mass(s.drop_last()) + s.last().mass
    }
}

/// The sum of the momenta of a sequence of bodies, per axis.
pub open spec fn total_momentum(s: Seq<Body>) -> (int, int)
    decreases s.len(),
{
    if s.len() == 0 {
        (0, 0)
    } else {
        let t = total_momentum(s.drop_last());
        (t.0 + s.last().momentum.x, t.1 + s.last().momentum.y)
    }
}

pub proof fn lemma_totals_push(s: Seq<Body>, b: Body)
    ensures
        total_mass(s.push(b)) == total_mass(s) + b.mass,
        total_momentum(s.push(b)) == (total_momentum(s).0 + b.momentum.x, total_momentum(s).1
            + b.momentum.y),
{
    assert(s.push(b).drop_last() =~= s);
}

pub proof fn lemma_totals_update(s: Seq<Body>, i: int, b: Body)
    requires
        0 <= i < s.len(),
    ensures
        total_mass(s.update(i, b)) == total_mass(s) - s[i].mass + b.mass,
        total_momentum(s.update(i, b)) == (total_momentum(s).0 - s[i].momentum.x + b.momentum.x,
        total_momentum(s).1 - s[i].momentum.y + b.momentum.y),
    decreases s.len(),
{
    let u = s.update(i, b);
    if i == s.len() - 1 {
        assert(u.drop_last() =~= s.drop_last());
    } else {
        lemma_totals_update(s.drop_last(), i, b);
        assert(u.drop_last() =~= s.drop_last().update(i, b));
    }
}

/// Stores whose bodies have, one for one, the same masses have the same
/// total mass.
pub proof fn lemma_same_masses(a: Seq<Body>, b: Seq<Body>)
    requires
        a.len() == b.len(),
        forall|i: int| 0 <= i < a.len() ==> (#[trigger] a[i]).mass == b[i].mass,
    ensures
        total_mass(a) == total_mass(b),
    decreases a.len(),
{
    if a.len() > 0 {
        lemma_same_masses(a.drop_last(), b.drop_last());
    }
}

/// Stores whose bodies have, one for one, the same momenta have the same
/// total momentum.
pub proof fn lemma_same_momenta(a: Seq<Body>, b: Seq<Body>)
    requires
        a.len() == b.len(),
        forall|i: int| 0 <= i < a.len() ==> (#[trigger] a[i]).momentum == b[i].momentum,
    ensures
        total_momentum(a) == total_momentum(b),
    decreases a.len(),
{
    if a.len() > 0 {
        lemma_same_momenta(a.drop_last(), b.drop_last());
    }
}

/// Computes the radius of a body of the given mass.
pub fn radius_of(mass: u64) -> (r: u64)
    ensures
        r as nat == radius_spec(mass as nat),
{
    let factor: u128 = AREA_SCALE * PI_DEN;
    assert((mass as u128) * factor <= 0xffff_ffff_ffff_ffffu128 * 100_000_000_000_000u128)
        by (nonlinear_arith)
        requires
            mass <= 0xffff_ffff_ffff_ffffu64,
            factor == 100_000_000_000_000u128,
    ;
    let scaled: u128 = (mass as u128) * factor;
    isqrt(scaled / (PI_NUM * RADIUS_COEFFICIENT))
}

impl Body {
    /// A body at `position` with the given momentum and mass, its radius
    /// coupled to the mass; `None` for a mass of zero.
    pub fn new(position: Point, momentum: Point, mass: u64) -> (r: Option<Body>)
        ensures
            mass == 0 <==> r is None,
            r matches Some(b) ==> b.position == position && b.momentum == momentum && b.mass
                == mass && radius_coupled(b),
    {
        if mass == 0 {
            None
        } else {
            Some(Body { position, momentum, mass, radius: radius_of(mass) })
        }
    }

    /// A body moving at `velocity`; `None` for a mass of zero or where the
    /// momentum does not fit.
    pub fn with_velocity(position: Point, velocity: Point, mass: u64) -> (r: Option<Body>)
        ensures
            r is Some <==> mass > 0 && i64::MIN <= velocity.x * mass <= i64::MAX && i64::MIN
                <= velocity.y * mass <= i64::MAX,
            r matches Some(b) ==> b.position == position && b.momentum.x == velocity.x * mass
                && b.momentum.y == velocity.y * mass && b.mass == mass && radius_coupled(b),
    {
        if mass == 0 {
            return None;
        }
        let m = mass as i128;
        assert(velocity.x * m <= 0x7fff_ffff_ffff_ffff_ffff_ffff_ffff_ffffi128 && velocity.x * m
            >= -0x7fff_ffff_ffff_ffff_ffff_ffff_ffff_ffffi128 && velocity.y * m
            <= 0x7fff_ffff_ffff_ffff_ffff_ffff_ffff_ffffi128 && velocity.y * m
            >= -0x7fff_ffff_ffff_ffff_ffff_ffff_ffff_ffffi128) by (nonlinear_arith)
            requires
                0 < m <= 0xffff_ffff_ffff_ffffi128,
                -0x8000_0000_0000_0000i128 <= velocity.x <= 0x7fff_ffff_ffff_ffffi128,
                -0x8000_0000_0000_0000i128 <= velocity.y <= 0x7fff_ffff_ffff_ffffi128,
        ;
        let px: i128 = velocity.x as i128 * m;
        let py: i128 = velocity.y as i128 * m;
        if px < i64::MIN as i128 || px > i64::MAX as i128 || py < i64::MIN as i128 || py
            > i64::MAX as i128 {
            None
        } else {
            Some(
                Body {
                    position,
                    momentum: Point { x: px as i64, y: py as i64 },
                    mass,
                    radius: radius_of(mass),
                },
            )
        }
    }

    /// The velocity, rounded toward zero per axis, in micro-pixels per second.
    pub fn velocity(&self) -> (r: Point)
        requires
            body_wf(*self),
        ensures
            r.x == quot(self.momentum.x as int, self.mass as int),
            r.y == quot(self.momentum.y as int, self.mass as int),
    {
        Point { x: div_toward_zero(self.momentum.x, self.mass), y: div_toward_zero(self.momentum.y, self.mass) }
    }
}

/// `a / b` rounded toward zero, for `b > 0`.
pub open spec fn quot(a: int, b: int) -> int {
    if a >= 0 {
        a / b
    } else {
        -((-a) / b)
    }
}

pub fn div_toward_zero(a: i64, b: u64) -> (r: i64)
    requires
        b > 0,
    ensures
        r == quot(a as int, b as int),
{
    let mag: u64 = if a < 0 { (-(a as i128)) as u64 } else { a as u64 };
    let q = mag / b;
    if a < 0 {
        (-(q as i128)) as i64
    } else {
        q as i64
    }
}

/// Recomputes every body's radius from its mass.
pub fn couple_radii(bodies: &mut Vec<Body>)
    ensures
        final(bodies)@.len() == old(bodies)@.len(),
        forall|i: int|
            0 <= i < final(bodies)@.len() ==> final(bodies)@[i] == (Body {
                radius: radius_spec(old(bodies)@[i].mass as nat) as u64,
                ..old(bodies)@[i]
            }),
        forall|i: int| 0 <= i < final(bodies)@.len() ==> radius_coupled(#[trigger] final(bodies)@[i]),
{
    let n = bodies.len();
    let mut i: usize = 0;
    while i < n
        invariant
            n == bodies@.len(),
            bodies@.len() == old(bodies)@.len(),
            0 <= i <= n,
            forall|j: int|
                0 <= j < i ==> bodies@[j] == (Body {
                    radius: radius_spec(old(bodies)@[j].mass as nat) as u64,
                    ..old(bodies)@[j]
                }),
            forall|j: int| i <= j < n ==> bodies@[j] == old(bodies)@[j],
            forall|j: int| 0 <= j < i ==> radius_coupled(#[trigger] bodies@[j]),
        decreases n - i,
    {
        let mut b = bodies[i];
        b.radius = radius_of(b.mass);
        bodies.set(i, b);
        i += 1;
    }
}

} // verus!

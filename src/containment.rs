//! Boundary containment: a hard clamp into the viewport and a soft push
//! toward its centre that grows with the inverse cube of the distance to the
//! nearer edge.
use vstd::prelude::*;
use crate::body::{Body, Point, LENGTH_SCALE};

verus! {

/// The largest viewport side accepted, in pixels.
pub const MAX_EXTENT: i64 = 1_000_000;

/// The strength of the push: a velocity change of `1000 / e^3` pixels per
/// second at `e` pixels from an edge, expressed in micro-pixels.
pub const PUSH: u128 = 1_000_000_000_000_000_000_000_000_000;

/// A rectangular viewport with its origin at (0, 0), in whole pixels.
#[derive(Clone, Copy, PartialEq, Eq, Structural, Debug)]
pub struct Viewport {
    pub width: i64,
    pub height: i64,
}

pub open spec fn extent_ok(e: int) -> bool {
    2 < e <= MAX_EXTENT
}

pub open spec fn viewport_wf(v: Viewport) -> bool {
    extent_ok(v.width as int) && extent_ok(v.height as int)
}

impl Viewport {
    /// A viewport of the given size; `None` unless both sides exceed two
    /// pixels and are at most `MAX_EXTENT`.
    pub fn new(width: i64, height: i64) -> (r: Option<Viewport>)
        ensures
            r is Some <==> extent_ok(width as int) && extent_ok(height as int),
            r matches Some(v) ==> v.width == width && v.height == height && viewport_wf(v),
    {
        if 2 < width && width <= MAX_EXTENT && 2 < height && height <= MAX_EXTENT {
            Some(Viewport { width, height })
        } else {
            None
        }
    }
}

pub open spec fn clamp_spec(v: int, lo: int, hi: int) -> int {
    if v < lo {
        lo
    } else if v > hi {
        hi
    } else {
        v
    }
}

/// The clamped coordinate on an axis of `extent` pixels: within one pixel of
/// either edge at most.
pub open spec fn clamped_coord(p: int, extent: int) -> int {
    clamp_spec(p, LENGTH_SCALE as int, (extent - 1) * LENGTH_SCALE)
}

/// The velocity change, in micro-pixels per second, at the (clamped)
/// coordinate `c` of an axis of `extent` pixels: toward the centre, of
/// magnitude `PUSH / e^3` for the distance `e` to the nearer edge. At the
/// centre itself the push is toward the origin.
pub open spec fn push_spec(c: int, extent: int) -> int {
    let far = extent * LENGTH_SCALE;
    let e = if c <= far - c {
        c
    } else {
        far - c
    };
    let mag = PUSH as int / (e * e * e);
    if 2 * c >= far {
        -mag
    } else {
        mag
    }
}

/// The new coordinate and momentum on one axis: the coordinate clamped, the
/// momentum given `mass` times the push, or left as it is where that sum
/// does not fit.
pub open spec fn contain_axis_spec(p: int, extent: int, momentum: int, mass: int) -> (int, int) {
    let c = clamped_coord(p, extent);
    let m = momentum + mass * push_spec(c, extent);
    (c, if i64::MIN <= m <= i64::MAX {
        m
    } else {
        momentum
    })
}

/// Containment on one axis of `extent` pixels.
pub fn contain_axis(p: i64, extent: i64, momentum: i64, mass: u64) -> (r: (i64, i64))
    requires
        extent_ok(extent as int),
    ensures
        r.0 == contain_axis_spec(p as int, extent as int, momentum as int, mass as int).0,
        r.1 == contain_axis_spec(p as int, extent as int, momentum as int, mass as int).1,
        LENGTH_SCALE <= r.0 <= (extent - 1) * LENGTH_SCALE,
{
    let lo: i64 = LENGTH_SCALE;
    let hi: i64 = (extent - 1) * LENGTH_SCALE;
    let c: i64 = if p < lo {
        lo
    } else if p > hi {
        hi
    } else {
        p
    };
    let far: i64 = extent * LENGTH_SCALE;
    let e: i64 = if c <= far - c {
        c
    } else {
        far - c
    };
    let eu: u128 = e as u128;
    assert(1_000_000_000_000u128 <= eu * eu <= 1_000_000_000_000_000_000_000_000u128)
        by (nonlinear_arith)
        requires
            1_000_000u128 <= eu <= 1_000_000_000_000u128,
    ;
    assert(1_000_000_000_000_000_000u128 <= eu * eu * eu
        <= 1_000_000_000_000_000_000_000_000_000_000_000_000u128) by (nonlinear_arith)
        requires
            1_000_000u128 <= eu <= 1_000_000_000_000u128,
    ;
    let cube: u128 = eu * eu * eu;
    let mag: u128 = PUSH / cube;
    assert(mag <= 1_000_000_000u128) by (nonlinear_arith)
        requires
            mag == PUSH / cube,
            cube >= 1_000_000_000_000_000_000u128,
            PUSH == 1_000_000_000_000_000_000_000_000_000u128,
    ;
    let push: i128 = if 2 * c >= far {
        -(mag as i128)
    } else {
        mag as i128
    };
    assert(mass * push <= 0xffff_ffff_ffff_ffff * 1_000_000_000 && mass * push >= -(
    0xffff_ffff_ffff_ffff * 1_000_000_000)) by (nonlinear_arith)
        requires
            0 <= mass <= 0xffff_ffff_ffff_ffff,
            -1_000_000_000 <= push <= 1_000_000_000,
    ;
    let m: i128 = momentum as i128 + (mass as i128) * push;
    let out: i64 = if i64::MIN as i128 <= m && m <= i64::MAX as i128 {
        m as i64
    } else {
        momentum
    };
    (c, out)
}

/// Clamps a body into the viewport and pushes it toward the centre.
pub fn contain(b: &Body, vp: &Viewport) -> (r: Body)
    requires
        viewport_wf(*vp),
    ensures
        r.mass == b.mass && r.radius == b.radius,
        (r.position.x as int, r.momentum.x as int) == contain_axis_spec(
            b.position.x as int,
            vp.width as int,
            b.momentum.x as int,
            b.mass as int,
        ),
        (r.position.y as int, r.momentum.y as int) == contain_axis_spec(
            b.position.y as int,
            vp.height as int,
            b.momentum.y as int,
            b.mass as int,
        ),
        inside(r, *vp),
{
    let (px, mx) = contain_axis(b.position.x, vp.width, b.momentum.x, b.mass);
    let (py, my) = contain_axis(b.position.y, vp.height, b.momentum.y, b.mass);
    Body { position: Point { x: px, y: py }, momentum: Point { x: mx, y: my }, ..*b }
}

/// A body's centre lies in `[1, W - 1] x [1, H - 1]` pixels.
pub open spec fn inside(b: Body, vp: Viewport) -> bool {
    LENGTH_SCALE <= b.position.x <= (vp.width - 1) * LENGTH_SCALE && LENGTH_SCALE
        <= b.position.y <= (vp.height - 1) * LENGTH_SCALE
}

/// The body after containment, as `contain` computes it.
pub open spec fn contained(b: Body, vp: Viewport) -> Body {
    let x = contain_axis_spec(b.position.x as int, vp.width as int, b.momentum.x as int, b.mass as int);
    let y = contain_axis_spec(b.position.y as int, vp.height as int, b.momentum.y as int, b.mass as int);
    Body {
        position: Point { x: x.0 as i64, y: y.0 as i64 },
        momentum: Point { x: x.1 as i64, y: y.1 as i64 },
        ..b
    }
}

/// Applies containment to every body of the store.
pub fn contain_all(bodies: &mut Vec<Body>, vp: &Viewport)
    requires
        viewport_wf(*vp),
    ensures
        final(bodies)@.len() == old(bodies)@.len(),
        forall|i: int| 0 <= i < final(bodies)@.len() ==> inside(#[trigger] final(bodies)@[i], *vp),
        forall|i: int|
            0 <= i < final(bodies)@.len() ==> #[trigger] final(bodies)@[i] == contained(
                old(bodies)@[i],
                *vp,
            ),
{
    let n = bodies.len();
    let mut i: usize = 0;
    while i < n
        invariant
            n == bodies@.len(),
            bodies@.len() == old(bodies)@.len(),
            viewport_wf(*vp),
            0 <= i <= n,
            forall|j: int| 0 <= j < i ==> inside(#[trigger] bodies@[j], *vp),
            forall|j: int| 0 <= j < i ==> #[trigger] bodies@[j] == contained(old(bodies)@[j], *vp),
            forall|j: int| i <= j < n ==> #[trigger] bodies@[j] == old(bodies)@[j],
        decreases n - i,
    {
        let b = contain(&bodies[i], vp);
        bodies.set(i, b);
        i += 1;
    }
}

} // verus!

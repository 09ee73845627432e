//! The integrator: positions advance by velocity times elapsed time.
use vstd::prelude::*;
use crate::body::{Body, Point, body_wf};
use crate::geometry::{scaled, scaled_fits, checked_scaled};

verus! {

/// A coordinate after `dt` milliseconds at the velocity `momentum / mass`:
/// it moves by `momentum * dt / (1000 * mass)`, rounded toward zero. Where the
/// move or the new coordinate leaves the machine range, it stays.
pub open spec fn advance_spec(pos: int, momentum: int, mass: nat, dt: nat) -> int {
    let d = 1000 * mass;
    if scaled_fits(momentum, dt, d) && i64::MIN <= pos + scaled(momentum, dt, d) <= i64::MAX {
        pos + scaled(momentum, dt, d)
    } else {
        pos
    }
}

/// A body after `dt` milliseconds of motion.
pub open spec fn advanced(b: Body, dt: nat) -> Body {
    Body {
        position: Point {
            x: advance_spec(b.position.x as int, b.momentum.x as int, b.mass as nat, dt) as i64,
            y: advance_spec(b.position.y as int, b.momentum.y as int, b.mass as nat, dt) as i64,
        },
        ..b
    }
}

pub fn advance_coord(pos: i64, momentum: i64, mass: u64, dt: u64) -> (r: i64)
    requires
        mass > 0,
    ensures
        r == advance_spec(pos as int, momentum as int, mass as nat, dt as nat),
{
    let d: u128 = 1000 * mass as u128;
    match checked_scaled(momentum, dt as u128, d) {
        None => pos,
        Some(step) => match pos.checked_add(step) {
            Some(p) => p,
            None => pos,
        },
    }
}

/// Moves every body by its velocity over `dt` milliseconds; nothing else
/// changes.
pub fn integrate(bodies: &mut Vec<Body>, dt: u64)
    requires
        forall|i: int| 0 <= i < old(bodies)@.len() ==> body_wf(#[trigger] old(bodies)@[i]),
    ensures
        final(bodies)@.len() == old(bodies)@.len(),
        forall|i: int|
            0 <= i < final(bodies)@.len() ==> #[trigger] final(bodies)@[i] == advanced(old(bodies)@[i], dt as nat),
{
    let n = bodies.len();
    let mut i: usize = 0;
    while i < n
        invariant
            n == bodies@.len(),
            n == old(bodies)@.len(),
            0 <= i <= n,
            forall|j: int| 0 <= j < n ==> body_wf(#[trigger] old(bodies)@[j]),
            forall|j: int| i <= j < n ==> #[trigger] bodies@[j] == old(bodies)@[j],
            forall|j: int|
                0 <= j < i ==> #[trigger] bodies@[j] == advanced(old(bodies)@[j], dt as nat),
        decreases n - i,
    {
        let b = bodies[i];
        let x = advance_coord(b.position.x, b.momentum.x, b.mass, dt);
        let y = advance_coord(b.position.y, b.momentum.y, b.mass, dt);
        bodies.set(i, Body { position: Point { x, y }, ..b });
        i += 1;
    }
}

} // verus!

//! The simulation step: spawn, gravity, collisions, radii, containment,
//! integration, in that order.
use vstd::prelude::*;
use crate::body::{
    Body, Point, body_wf, couple_radii, total_mass, lemma_same_masses, lemma_totals_push, radius_spec,
    lemma_radius_bound, DEFAULT_MASS,
};
use crate::collision::{resolve_collisions, resolved};
use crate::containment::{Viewport, viewport_wf, contain_all, contained};
use crate::gravity::{apply_gravity, gravity_from};
use crate::integrator::{integrate, advanced};
use crate::spawn::{Gesture, SpawnController, next_gesture, completed_drag, launch_momentum_spec, spawn_body};

verus! {

/// What the surroundings hand the simulation each step.
#[derive(Clone, Copy, PartialEq, Eq, Structural, Debug)]
pub struct StepInput {
    /// Elapsed time since the previous step, in milliseconds.
    pub dt: u64,
    /// The viewport, where one is available.
    pub viewport: Option<Viewport>,
    /// The pointer position in micro-pixels, where one is available.
    pub cursor: Option<Point>,
    /// The spawn button went down this step.
    pub pressed: bool,
    /// The spawn button went up this step.
    pub released: bool,
    /// The speed, in micro-pixels per second, to launch a body with should a
    /// drag end this step.
    pub launch_speed: u64,
}

/// The body store and the spawn gesture.
pub struct World {
    pub bodies: Vec<Body>,
    pub spawner: SpawnController,
}

/// The body that this step's input launches, if a drag ends here and its
/// launch stays within the machine range.
pub open spec fn launched(g: Gesture, input: StepInput) -> Option<Body> {
    match completed_drag(g, input.pressed, input.released, input.cursor) {
        Some((anchor, release)) => match launch_momentum_spec(
            anchor,
            release,
            input.launch_speed as nat,
        ) {
            Some(p) => Some(
                Body {
                    position: anchor,
                    momentum: Point { x: p.0 as i64, y: p.1 as i64 },
                    mass: DEFAULT_MASS,
                    radius: radius_spec(DEFAULT_MASS as nat) as u64,
                },
            ),
            None => None,
        },
        None => None,
    }
}

/// Whether this step's input ends a drag that launches a body.
pub open spec fn launches(g: Gesture, input: StepInput) -> bool {
    launched(g, input) is Some
}

/// The store after one step: the launched body added, gravity, collision
/// resolution, radii recomputed, containment where a viewport is given (none
/// otherwise), then integration.
pub open spec fn step_spec(s: Seq<Body>, g: Gesture, input: StepInput) -> Seq<Body> {
    let s1 = match launched(g, input) {
        Some(b) => s.push(b),
        None => s,
    };
    let s2 = gravity_from(s1, 0, 1, input.dt as nat);
    let s3 = resolved(s2);
    let s4 = Seq::new(
        s3.len(),
        |i: int| Body { radius: radius_spec(s3[i].mass as nat) as u64, ..s3[i] },
    );
    let s5 = match input.viewport {
        Some(v) => Seq::new(s4.len(), |i: int| contained(s4[i], v)),
        None => s4,
    };
    Seq::new(s5.len(), |i: int| advanced(s5[i], input.dt as nat))
}

pub open spec fn world_wf(w: World) -> bool {
    forall|i: int| 0 <= i < w.bodies@.len() ==> body_wf(#[trigger] w.bodies@[i])
}

impl World {
    pub fn new() -> (r: World)
        ensures
            world_wf(r),
            r.bodies@.len() == 0,
            r.spawner.gesture is Idle,
    {
        World { bodies: Vec::new(), spawner: SpawnController::new() }
    }

    /// Adds a body to the store.
    pub fn add(&mut self, b: Body)
        requires
            world_wf(*old(self)),
            body_wf(b),
        ensures
            world_wf(*final(self)),
            final(self).bodies@ == old(self).bodies@.push(b),
            final(self).spawner == old(self).spawner,
    {
        self.bodies.push(b);
    }

    /// Runs one step of the simulation, as `step_spec` says. The gesture moves on by
    /// `next_gesture`; a drag that ends launches a body; then gravity,
    /// collisions, radii, containment (where a viewport is given) and
    /// integration follow.
    pub fn step(&mut self, input: &StepInput)
        requires
            world_wf(*old(self)),
            input.viewport matches Some(v) ==> viewport_wf(v),
        ensures
            world_wf(*final(self)),
            final(self).bodies@ == step_spec(old(self).bodies@, old(self).spawner.gesture, *input),
            final(self).spawner.gesture == next_gesture(
                old(self).spawner.gesture,
                input.pressed,
                input.released,
                input.cursor,
            ),
            total_mass(final(self).bodies@) == total_mass(old(self).bodies@) + if launches(
                old(self).spawner.gesture,
                *input,
            ) {
                DEFAULT_MASS as int
            } else {
                0
            },
    {
        if let Some((anchor, release)) = self.spawner.on_input(
            input.pressed,
            input.released,
            input.cursor,
        ) {
            if let Some(b) = spawn_body(anchor, release, input.launch_speed) {
                proof {
                    lemma_radius_bound(DEFAULT_MASS);
                    assert(Some(b) == launched(old(self).spawner.gesture, *input));
                    lemma_totals_push(self.bodies@, b);
                }
                self.bodies.push(b);
                assert(forall|i: int|
                    0 <= i < self.bodies@.len() ==> body_wf(#[trigger] self.bodies@[i]));
            }
        }
        let ghost s1 = self.bodies@;
        assert(s1 == match launched(old(self).spawner.gesture, *input) {
            Some(b) => old(self).bodies@.push(b),
            None => old(self).bodies@,
        });
        let mut bodies = Vec::new();
        std::mem::swap(&mut bodies, &mut self.bodies);
        let ghost start = bodies@;
        apply_gravity(&mut bodies, input.dt);
        proof {
            lemma_same_masses(start, bodies@);
        }
        let mut bodies = resolve_collisions(&bodies);
        let ghost merged = bodies@;
        couple_radii(&mut bodies);
        proof {
            lemma_same_masses(merged, bodies@);
        }
        if let Some(vp) = input.viewport {
            let ghost before = bodies@;
            contain_all(&mut bodies, &vp);
            proof {
                lemma_same_masses(before, bodies@);
            }
        }
        let ghost s3 = merged;
        let ghost s4 = Seq::new(
            s3.len(),
            |i: int| Body { radius: radius_spec(s3[i].mass as nat) as u64, ..s3[i] },
        );
        let ghost before = bodies@;
        proof {
            assert(merged == resolved(gravity_from(s1, 0, 1, input.dt as nat)));
            assert(before =~= match input.viewport {
                Some(v) => Seq::new(s4.len(), |i: int| contained(s4[i], v)),
                None => s4,
            });
        }
        integrate(&mut bodies, input.dt);
        proof {
            lemma_same_masses(before, bodies@);
            assert(bodies@ =~= step_spec(old(self).bodies@, old(self).spawner.gesture, *input));
        }
        self.bodies = bodies;
    }
}

} // verus!

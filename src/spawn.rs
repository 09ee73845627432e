//! The spawn controller: a click-drag gesture that launches a new body.
use vstd::prelude::*;
use crate::body::{Body, Point, body_wf, DEFAULT_MASS};
use crate::geometry::{floor_sqrt, isqrt, scaled, scaled_fits, checked_scaled};

verus! {

/// The state of the spawn gesture: at most one drag is under way.
#[derive(Clone, Copy, PartialEq, Eq, Structural, Debug)]
pub enum Gesture {
    Idle,
    Dragging { anchor: Point },
}

/// The gesture after one step's input. A press with no drag under way starts
/// one at the cursor; otherwise a release ends the drag under way. Without a
/// cursor nothing changes.
pub open spec fn next_gesture(g: Gesture, pressed: bool, released: bool, cursor: Option<Point>) -> Gesture {
    match cursor {
        None => g,
        Some(c) => if pressed && g is Idle {
            Gesture::Dragging { anchor: c }
        } else if released && g is Dragging {
            Gesture::Idle
        } else {
            g
        },
    }
}

/// The drag that one step's input completes, as its anchor and its release
/// point.
pub open spec fn completed_drag(g: Gesture, pressed: bool, released: bool, cursor: Option<Point>) -> Option<(Point, Point)> {
    match (g, cursor) {
        (Gesture::Dragging { anchor }, Some(c)) => if released && !(pressed && g is Idle) {
            Some((anchor, c))
        } else {
            None
        },
        _ => None,
    }
}

/// The drag preview's instruction for one step.
#[derive(Clone, Copy, PartialEq, Eq, Structural, Debug)]
pub enum PreviewLine {
    /// Show the segment between the two points.
    Show { from: Point, to: Point },
    /// Hide the segment.
    Hide,
    /// Leave the segment as it was.
    Keep,
}

pub struct SpawnController {
    pub gesture: Gesture,
}

impl SpawnController {
    pub fn new() -> (r: SpawnController)
        ensures
            r.gesture is Idle,
    {
        SpawnController { gesture: Gesture::Idle }
    }

    /// Feeds one step's button edges and cursor to the controller; returns
    /// the anchor and the release point of a drag that ends here.
    pub fn on_input(&mut self, pressed: bool, released: bool, cursor: Option<Point>) -> (r: Option<
        (Point, Point),
    >)
        ensures
            final(self).gesture == next_gesture(old(self).gesture, pressed, released, cursor),
            r == completed_drag(old(self).gesture, pressed, released, cursor),
    {
        let c = match cursor {
            None => return None,
            Some(c) => c,
        };
        match self.gesture {
            Gesture::Idle => {
                if pressed {
                    self.gesture = Gesture::Dragging { anchor: c };
                }
                None
            },
            Gesture::Dragging { anchor } => {
                if released {
                    self.gesture = Gesture::Idle;
                    Some((anchor, c))
                } else {
                    None
                }
            },
        }
    }

    /// What the drag preview shows this step: the segment from the anchor to
    /// the cursor while a drag is under way, hidden when none is, and left as
    /// it was when there is no cursor.
    pub fn preview(&self, cursor: Option<Point>) -> (r: PreviewLine)
        ensures
            r == (match (self.gesture, cursor) {
                (_, None) => PreviewLine::Keep,
                (Gesture::Dragging { anchor }, Some(c)) => PreviewLine::Show { from: anchor, to: c },
                (Gesture::Idle, Some(_)) => PreviewLine::Hide,
            }),
    {
        match (self.gesture, cursor) {
            (_, None) => PreviewLine::Keep,
            (Gesture::Dragging { anchor }, Some(c)) => PreviewLine::Show { from: anchor, to: c },
            (Gesture::Idle, Some(_)) => PreviewLine::Hide,
        }
    }
}

/// A second press while a drag is under way is ignored: pressing twice
/// without a release leaves one drag, anchored where the first press was.
pub proof fn second_press_is_ignored(g: Gesture, first: Point, second: Point)
    requires
        g is Idle,
    ensures
        next_gesture(next_gesture(g, true, false, Some(first)), true, false, Some(second))
            == (Gesture::Dragging { anchor: first }),
        completed_drag(next_gesture(g, true, false, Some(first)), true, false, Some(second))
            is None,
{
}

/// The launch velocity of a drag from `anchor` to `release`: zero for a drag
/// of length zero, else of magnitude `speed` (per axis rounded toward zero)
/// pointing from the release point back to the anchor. `None` where the drag
/// or the velocity leaves the machine range.
pub open spec fn launch_velocity_spec(anchor: Point, release: Point, speed: nat) -> Option<(int, int)> {
    let dx = anchor.x - release.x;
    let dy = anchor.y - release.y;
    let len = floor_sqrt((dx * dx + dy * dy) as nat);
    if !(i64::MIN <= dx <= i64::MAX && i64::MIN <= dy <= i64::MAX) {
        None
    } else if dx == 0 && dy == 0 {
        Some((0, 0))
    } else if scaled_fits(dx, speed, len) && scaled_fits(dy, speed, len) {
        Some((scaled(dx, speed, len), scaled(dy, speed, len)))
    } else {
        None
    }
}

pub fn launch_velocity(anchor: Point, release: Point, speed: u64) -> (r: Option<Point>)
    ensures
        r is None <==> launch_velocity_spec(anchor, release, speed as nat) is None,
        r matches Some(v) ==> launch_velocity_spec(anchor, release, speed as nat) == Some(
            (v.x as int, v.y as int),
        ),
{
    let dx = match anchor.x.checked_sub(release.x) {
        Some(v) => v,
        None => return None,
    };
    let dy = match anchor.y.checked_sub(release.y) {
        Some(v) => v,
        None => return None,
    };
    if dx == 0 && dy == 0 {
        return Some(Point { x: 0, y: 0 });
    }
    assert(0 <= dx * dx <= 0x4000_0000_0000_0000_0000_0000_0000_0000 && 0 <= dy * dy
        <= 0x4000_0000_0000_0000_0000_0000_0000_0000) by (nonlinear_arith)
        requires
            i64::MIN <= dx <= i64::MAX,
            i64::MIN <= dy <= i64::MAX,
    ;
    let dsq: u128 = (dx as i128 * dx as i128) as u128 + (dy as i128 * dy as i128) as u128;
    assert(dsq >= 1) by (nonlinear_arith)
        requires
            dsq == dx * dx + dy * dy,
            dx != 0 || dy != 0,
    ;
    let len = isqrt(dsq);
    proof {
        crate::geometry::lemma_floor_sqrt_bounds(dsq as nat);
        assert(len >= 1) by (nonlinear_arith)
            requires
                dsq >= 1,
                dsq < (len + 1) * (len + 1),
                len >= 0,
        {
            if len == 0 {
                assert((len + 1) * (len + 1) == 1);
            }
        }
    }
    match (checked_scaled(dx, speed as u128, len as u128), checked_scaled(dy, speed as u128, len as u128)) {
        (Some(vx), Some(vy)) => Some(Point { x: vx, y: vy }),
        _ => None,
    }
}

/// The momentum of the body that a completed drag launches: the default mass
/// times `launch_velocity_spec`; `None` where either leaves the machine range.
pub open spec fn launch_momentum_spec(anchor: Point, release: Point, speed: nat) -> Option<(int, int)> {
    match launch_velocity_spec(anchor, release, speed) {
        Some(v) => {
            let p = (v.0 * DEFAULT_MASS, v.1 * DEFAULT_MASS);
            if i64::MIN <= p.0 <= i64::MAX && i64::MIN <= p.1 <= i64::MAX {
                Some(p)
            } else {
                None
            }
        },
        None => None,
    }
}

/// The body that a completed drag launches: at the anchor, of the default
/// mass, with `launch_momentum_spec`.
pub fn spawn_body(anchor: Point, release: Point, speed: u64) -> (r: Option<Body>)
    ensures
        r is Some <==> launch_momentum_spec(anchor, release, speed as nat) is Some,
        r matches Some(b) ==> body_wf(b) && b.position == anchor && b.mass == DEFAULT_MASS
            && launch_momentum_spec(anchor, release, speed as nat) == Some(
            (b.momentum.x as int, b.momentum.y as int),
        ),
{
    match launch_velocity(anchor, release, speed) {
        None => None,
        Some(v) => Body::with_velocity(anchor, v, DEFAULT_MASS),
    }
}

} // verus!

use nbody_sandbox::body::{Body, Point, DEFAULT_MASS, LENGTH_SCALE};
use nbody_sandbox::containment::Viewport;
use nbody_sandbox::spawn::{launch_velocity, spawn_body, Gesture, PreviewLine, SpawnController};
use nbody_sandbox::world::{StepInput, World};

const PX: i64 = LENGTH_SCALE;

#[test]
fn zero_length_drag_gives_body_at_rest() {
    let p = Point::new(100 * PX, 100 * PX);
    assert_eq!(launch_velocity(p, p, 12_345), Some(Point::zero()));
    let b = spawn_body(p, p, 12_345).unwrap();
    assert_eq!(b.position, p);
    assert_eq!(b.mass, DEFAULT_MASS);
    assert_eq!(b.momentum, Point::zero());
}

#[test]
fn drag_launches_opposite_to_the_drag() {
    let anchor = Point::new(0, 0);
    let release = Point::new(100 * PX, 0);
    assert_eq!(launch_velocity(anchor, release, 7_000), Some(Point::new(-7_000, 0)));
    let b = spawn_body(anchor, release, 7_000).unwrap();
    assert_eq!(b.position, anchor);
    assert_eq!(b.velocity(), Point::new(-7_000, 0));
    // a diagonal drag of length 5 px
    assert_eq!(
        launch_velocity(Point::new(3 * PX, 4 * PX), Point::zero(), 1_000),
        Some(Point::new(600, 800))
    );
}

#[test]
fn second_press_keeps_one_gesture() {
    let mut c = SpawnController::new();
    let first = Point::new(10, 20);
    let second = Point::new(30, 40);
    assert_eq!(c.on_input(true, false, Some(first)), None);
    assert_eq!(c.on_input(true, false, Some(second)), None);
    assert_eq!(c.gesture, Gesture::Dragging { anchor: first });
    assert_eq!(c.preview(Some(second)), PreviewLine::Show { from: first, to: second });
    assert_eq!(c.preview(None), PreviewLine::Keep);
    let end = Point::new(50, 60);
    assert_eq!(c.on_input(false, true, Some(end)), Some((first, end)));
    assert_eq!(c.gesture, Gesture::Idle);
    assert_eq!(c.preview(Some(end)), PreviewLine::Hide);
    assert_eq!(c.preview(None), PreviewLine::Keep);
}

#[test]
fn no_cursor_no_change() {
    let mut c = SpawnController::new();
    assert_eq!(c.on_input(true, false, None), None);
    assert_eq!(c.gesture, Gesture::Idle);
    assert_eq!(c.on_input(false, true, Some(Point::zero())), None);
}

#[test]
fn world_step_spawns_and_contains() {
    let mut w = World::new();
    let vp = Viewport::new(800, 600);
    let press = StepInput {
        dt: 16,
        viewport: vp,
        cursor: Some(Point::new(400 * PX, 300 * PX)),
        pressed: true,
        released: false,
        launch_speed: 0,
    };
    w.step(&press);
    assert_eq!(w.bodies.len(), 0);
    let release = StepInput {
        cursor: Some(Point::new(500 * PX, 300 * PX)),
        pressed: false,
        released: true,
        launch_speed: 1_000_000,
        ..press
    };
    w.step(&release);
    assert_eq!(w.bodies.len(), 1);
    let b = w.bodies[0];
    assert_eq!(b.mass, DEFAULT_MASS);
    assert!(b.velocity().x < 0);
    assert_eq!(w.spawner.gesture, Gesture::Idle);
    w.add(Body::new(Point::new(-9 * PX, 0), Point::zero(), 5).unwrap());
    w.step(&StepInput { released: false, ..release });
    assert_eq!(w.bodies.len(), 2);
    assert!(w.bodies[1].position.x >= PX - 1);
}

#[test]
fn world_step_keeps_mass_but_for_launches() {
    let mut w = World::new();
    w.add(Body::new(Point::new(100 * PX, 100 * PX), Point::new(10_000_000, 0), 10_000).unwrap());
    w.add(Body::new(Point::new(104 * PX, 100 * PX), Point::new(0, 0), 30_000).unwrap());
    w.add(Body::new(Point::new(300 * PX, 300 * PX), Point::zero(), 2_000).unwrap());
    let quiet = StepInput {
        dt: 16,
        viewport: Viewport::new(800, 600),
        cursor: None,
        pressed: false,
        released: false,
        launch_speed: 0,
    };
    w.step(&quiet);
    // the first two merged
    assert_eq!(w.bodies.len(), 2);
    let mass: u64 = w.bodies.iter().map(|b| b.mass).sum();
    assert_eq!(mass, 42_000);
    let cursor = Some(Point::new(50 * PX, 50 * PX));
    w.step(&StepInput { cursor, pressed: true, ..quiet });
    w.step(&StepInput { cursor, released: true, ..quiet });
    let mass: u64 = w.bodies.iter().map(|b| b.mass).sum();
    assert_eq!(mass, 42_000 + DEFAULT_MASS);
    assert_eq!(w.bodies.len(), 3);
}

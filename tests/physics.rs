use nbody_sandbox::body::{couple_radii, radius_of, Body, Point, DEFAULT_MASS, LENGTH_SCALE};
use nbody_sandbox::collision::{
    classify, cos_permille, fragment, merge, overlapping, resolve_collisions, Outcome,
};
use nbody_sandbox::containment::{contain, contain_all, Viewport};
use nbody_sandbox::gravity::{apply_gravity, gravity_pair};
use nbody_sandbox::integrator::{advance_coord, integrate};

const PX: i64 = LENGTH_SCALE;

fn body(x: i64, y: i64, px: i64, py: i64, mass: u64) -> Body {
    Body::new(Point::new(x, y), Point::new(px, py), mass).unwrap()
}

fn totals(bodies: &[Body]) -> (u128, i128, i128) {
    let mut m: u128 = 0;
    let mut x: i128 = 0;
    let mut y: i128 = 0;
    for b in bodies {
        m += b.mass as u128;
        x += b.momentum.x as i128;
        y += b.momentum.y as i128;
    }
    (m, x, y)
}

#[test]
fn radius_follows_mass() {
    // sqrt(10000 / (3.14 * 1000)) pixels = 1.784576... pixels
    assert_eq!(radius_of(DEFAULT_MASS), 1_784_576);
    assert_eq!(radius_of(1), 17_845);
    assert_eq!(radius_of(0), 0);
}

#[test]
fn radius_recomputation_is_idempotent() {
    let mut b = body(0, 0, 0, 0, 40_000);
    b.radius = 7;
    let mut v = vec![b, body(5, 5, 0, 0, 10_000)];
    couple_radii(&mut v);
    assert_eq!(v[0].radius, radius_of(40_000));
    assert_eq!(v[1].radius, 1_784_576);
    let once = v.clone();
    couple_radii(&mut v);
    assert_eq!(v, once);
    // doubling the mass does not double the radius
    assert!(radius_of(20_000) < 2 * radius_of(10_000));
}

#[test]
fn body_needs_positive_mass() {
    assert!(Body::new(Point::zero(), Point::zero(), 0).is_none());
    assert!(Body::with_velocity(Point::zero(), Point::new(3, -4), 0).is_none());
    let b = Body::with_velocity(Point::zero(), Point::new(3, -4), 10).unwrap();
    assert_eq!(b.momentum, Point::new(30, -40));
    assert_eq!(b.velocity(), Point::new(3, -4));
    assert!(Body::with_velocity(Point::zero(), Point::new(i64::MAX, 0), 2).is_none());
}

#[test]
fn gravity_changes_pair_momentum_by_opposite_amounts() {
    let a = body(0, 0, 5_000, -7_000, 3_000);
    let b = body(37 * PX, -12 * PX, 100, 200, 90_000);
    let (pa, pb) = gravity_pair(&a, &b, 16);
    assert_ne!(pa, a.momentum);
    assert_eq!(pa.x - a.momentum.x, -(pb.x - b.momentum.x));
    assert_eq!(pa.y - a.momentum.y, -(pb.y - b.momentum.y));
    // a is pulled toward b: right and down
    assert!(pa.x > a.momentum.x);
    assert!(pa.y < a.momentum.y);
}

#[test]
fn two_equal_bodies_at_rest_attract_each_other() {
    // G * dt * m / d^2 = 0.01 * 0.016 * 10000 / 100^2 = 0.00016 px/s = 160 micro-px/s
    let mut v = vec![
        body(100 * PX, 300 * PX, 0, 0, DEFAULT_MASS),
        body(200 * PX, 300 * PX, 0, 0, DEFAULT_MASS),
    ];
    apply_gravity(&mut v, 16);
    assert_eq!(v[0].velocity(), Point::new(160, 0));
    assert_eq!(v[1].velocity(), Point::new(-160, 0));
    assert_eq!(v[0].momentum, Point::new(1_600_000, 0));
    assert_eq!(totals(&v), (20_000, 0, 0));
}

#[test]
fn coincident_bodies_do_not_pull() {
    let a = body(10 * PX, 10 * PX, 1, 2, 500);
    let b = body(10 * PX, 10 * PX, 3, 4, 700);
    assert_eq!(gravity_pair(&a, &b, 16), (a.momentum, b.momentum));
}

#[test]
fn gravity_keeps_total_momentum_of_store() {
    let mut v = vec![
        body(0, 0, 1_000, 0, 5_000),
        body(50 * PX, 20 * PX, 0, -3_000, 12_000),
        body(-30 * PX, 70 * PX, 700, 700, 8_000),
    ];
    let before = totals(&v);
    apply_gravity(&mut v, 20);
    assert_eq!(totals(&v), before);
}

#[test]
fn containment_clamps_into_viewport() {
    let vp = Viewport::new(800, 600).unwrap();
    let b = contain(&body(-5 * PX, 10_000 * PX, 0, 0, 100), &vp);
    assert_eq!(b.position, Point::new(PX, 599 * PX));
    let far = contain(&body(i64::MAX, i64::MIN, 0, 0, 100), &vp);
    assert_eq!(far.position, Point::new(799 * PX, PX));
    let mut v = vec![body(900 * PX, 300 * PX, 0, 0, 1), body(400 * PX, -1, 0, 0, 1)];
    contain_all(&mut v, &vp);
    for b in &v {
        assert!(b.position.x >= PX && b.position.x <= 799 * PX);
        assert!(b.position.y >= PX && b.position.y <= 599 * PX);
    }
}

#[test]
fn viewport_must_exceed_two_pixels() {
    assert!(Viewport::new(2, 600).is_none());
    assert!(Viewport::new(800, 0).is_none());
    assert!(Viewport::new(3, 3).is_some());
}

#[test]
fn push_near_edge_dwarfs_push_at_centre() {
    let vp = Viewport::new(800, 600).unwrap();
    let edge = contain(&body(PX, 300 * PX, 0, 0, 1), &vp);
    let centre = contain(&body(400 * PX, 300 * PX, 0, 0, 1), &vp);
    // 1000 / 1^3 px/s inward at the edge
    assert_eq!(edge.momentum.x, 1_000_000_000);
    // 1000 / 400^3 px/s at the centre
    assert_eq!(centre.momentum.x, -15);
    assert_eq!(centre.momentum.y, -37);
    assert!(edge.momentum.x > 1_000_000 * centre.momentum.x.abs());
}

#[test]
fn push_scales_with_mass() {
    let vp = Viewport::new(800, 600).unwrap();
    let b = contain(&body(799 * PX, 300 * PX, 0, 0, 3), &vp);
    assert_eq!(b.momentum.x, -3_000_000_000);
}

#[test]
fn gentle_collision_merges_conserving_mass_and_momentum() {
    let a = body(100 * PX, 100 * PX, 10_000 * 1_000, 0, 10_000);
    let b = body(101 * PX, 100 * PX, 0, 4_000, 30_000);
    assert!(overlapping(&a, &b));
    assert_eq!(classify(&a, &b), Outcome::Merge);
    let s = merge(&a, &b).unwrap();
    assert_eq!(s.mass, 40_000);
    assert_eq!(s.momentum, Point::new(10_000_000, 4_000));
    assert_eq!(s.position, b.position);
    assert_eq!(s.radius, radius_of(40_000));
}

#[test]
fn merge_keeps_first_position_on_equal_masses() {
    let a = body(0, 0, 5, 0, 10);
    let b = body(1, 0, 0, 5, 10);
    assert_eq!(merge(&a, &b).unwrap().position, a.position);
    let big = body(0, 0, i64::MAX, 0, 10);
    assert!(merge(&big, &a).is_none());
}

#[test]
fn distant_bodies_are_apart() {
    let a = body(0, 0, 5, 0, 10_000);
    let b = body(10 * PX, 0, 0, 5, 10_000);
    assert!(!overlapping(&a, &b));
    assert_eq!(classify(&a, &b), Outcome::Apart);
}

#[test]
fn equal_velocities_are_degenerate() {
    let a = body(0, 0, 10_000, 0, 10_000);
    let b = body(PX, 0, 20_000, 0, 20_000);
    assert_eq!(classify(&a, &b), Outcome::Degenerate);
}

#[test]
fn hard_collision_shatters() {
    let a = body(100 * PX, 100 * PX, 1_000_000_000 * 10_000, 0, 10_000);
    let b = body(101 * PX, 100 * PX, 0, 0, 10_000);
    assert_eq!(classify(&a, &b), Outcome::Shatter { first: true, second: true });
    let heavy = body(101 * PX, 100 * PX, 0, 0, 100_000_000_000);
    assert_eq!(classify(&a, &heavy), Outcome::Shatter { first: true, second: false });
}

#[test]
fn cosine_between_velocities() {
    assert_eq!(cos_permille(Point::new(5, 0), Point::new(-7, 0)), -1000);
    assert_eq!(cos_permille(Point::new(5, 0), Point::new(9, 0)), 1000);
    assert_eq!(cos_permille(Point::new(5, 0), Point::new(0, 9)), 0);
    assert_eq!(cos_permille(Point::new(0, 0), Point::new(0, 9)), 0);
    assert_eq!(cos_permille(Point::new(3, 4), Point::new(4, 3)), 960);
}

#[test]
fn fragments_share_mass_and_momentum() {
    let b = body(100 * PX, 100 * PX, 10_000_000_000_000, 0, 10_000);
    let parts = fragment(&b, 0);
    assert_eq!(parts.len(), 4);
    assert_eq!(totals(&parts), (10_000, 10_000_000_000_000, 0));
    assert_eq!(parts[0].momentum, Point::new(2_500_000_000_000, 1_250_000_000_000));
    assert_eq!(parts[1].momentum, Point::new(2_500_000_000_000, 416_666_666_666));
    assert_eq!(parts[2].momentum, Point::new(2_500_000_000_000, -416_666_666_666));
    assert_eq!(parts[3].momentum, Point::new(2_500_000_000_000, -1_250_000_000_000));
    // a row across the motion, 2 * (radius + 1) apart, centred on the body
    let r = radius_of(10_000) as i64 + 1;
    assert_eq!(parts[0].position, Point::new(100 * PX, 100 * PX + 3 * r));
    assert_eq!(parts[1].position, Point::new(100 * PX, 100 * PX + r));
    assert_eq!(parts[2].position, Point::new(100 * PX, 100 * PX - r));
    assert_eq!(parts[3].position, Point::new(100 * PX, 100 * PX - 3 * r));
    for p in &parts {
        assert_eq!(p.mass, 2_500);
        assert_eq!(p.radius, radius_of(2_500));
    }
    for i in 0..parts.len() {
        for j in i + 1..parts.len() {
            assert!(!overlapping(&parts[i], &parts[j]));
        }
    }
}

#[test]
fn head_on_impacts_make_more_fragments() {
    let b = body(0, 0, 7_001, -3, 1_001);
    let head_on = fragment(&b, -1000);
    let glancing = fragment(&b, 1000);
    assert_eq!(head_on.len(), 6);
    assert_eq!(glancing.len(), 2);
    assert_eq!(totals(&head_on), (1_001, 7_001, -3));
    assert_eq!(totals(&glancing), (1_001, 7_001, -3));
    // parallel velocities: no sideways spread
    assert_eq!(glancing[1].momentum, Point::new(3_500, -1));
    let tiny = body(0, 0, 9, 9, 3);
    assert_eq!(fragment(&tiny, -1000).len(), 3);
}

#[test]
fn resolving_collisions_conserves_totals() {
    let v = vec![
        body(100 * PX, 100 * PX, 10_000_000, 0, 10_000),
        body(101 * PX, 100 * PX, 0, 4_000, 30_000),
        body(500 * PX, 500 * PX, -3, 3, 10_000),
    ];
    let out = resolve_collisions(&v);
    assert_eq!(out.len(), 2);
    assert_eq!(out[0], v[2]);
    assert_eq!(out[1].mass, 40_000);
    assert_eq!(totals(&out), totals(&v));
}

#[test]
fn one_event_per_body_per_step() {
    // three bodies on one spot: the first pair merges, the third waits
    let v = vec![
        body(100 * PX, 100 * PX, 10_000_000, 0, 10_000),
        body(100 * PX, 100 * PX, 0, 10_000_000, 10_000),
        body(100 * PX, 100 * PX, -10_000_000, 0, 10_000),
    ];
    let out = resolve_collisions(&v);
    assert_eq!(out.len(), 2);
    assert_eq!(out[0], v[2]);
    assert_eq!(out[1].mass, 20_000);
    assert_eq!(totals(&out), totals(&v));
}

#[test]
fn shattering_store_conserves_totals() {
    let v = vec![
        body(100 * PX, 100 * PX, 10_000_000_000_000, 0, 10_000),
        body(101 * PX, 100 * PX, 0, 0, 10_000),
    ];
    let out = resolve_collisions(&v);
    assert_eq!(out.len(), 8);
    assert_eq!(totals(&out), totals(&v));
}

#[test]
fn integration_moves_by_velocity() {
    // 1000 micro-px/s for 16 ms is 16 micro-px
    assert_eq!(advance_coord(50, 1_000 * 7, 7, 16), 66);
    assert_eq!(advance_coord(50, -1_000 * 7, 7, 16), 34);
    assert_eq!(advance_coord(i64::MAX, 1_000_000, 1, 1_000), i64::MAX);
    let mut v = vec![body(0, 0, 2_000_000, -500_000, 1_000)];
    integrate(&mut v, 500);
    assert_eq!(v[0].position, Point::new(1_000, -250));
}

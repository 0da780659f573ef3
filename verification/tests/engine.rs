use physics_engine::body::{create_body, create_shape, Bodys, Shape, ShapeError};
use physics_engine::collisions::CONTACT_TOL;
use physics_engine::math::{cos_fx, isqrt, sin_fx, Vec2, SCALE};
use physics_engine::physics::{resolve_pair, PhsyicsEngine};

fn circle(r: i64, x: i64, y: i64, stat: bool) -> Shape {
    create_shape(Bodys::Circle(r), Vec2 { x, y }, false, stat).unwrap()
}

fn rect(w: i64, h: i64, x: i64, y: i64, stat: bool) -> Shape {
    create_shape(Bodys::Rec(w, h), Vec2 { x, y }, false, stat).unwrap()
}

#[test]
fn invalid_circle_radius_rejected() {
    assert!(matches!(
        create_shape(Bodys::Circle(0), Vec2 { x: 0, y: 0 }, false, false),
        Err(ShapeError::InvalidShapeParameters)
    ));
    assert!(matches!(
        create_shape(Bodys::Circle(-5000), Vec2 { x: 0, y: 0 }, false, false),
        Err(ShapeError::InvalidShapeParameters)
    ));
}

#[test]
fn invalid_rectangle_rejected() {
    assert!(matches!(
        create_shape(Bodys::Rec(0, 10000), Vec2 { x: 0, y: 0 }, false, false),
        Err(ShapeError::InvalidShapeParameters)
    ));
    assert!(matches!(
        create_shape(Bodys::Rec(10000, -1), Vec2 { x: 0, y: 0 }, false, false),
        Err(ShapeError::InvalidShapeParameters)
    ));
}

#[test]
fn invalid_polygon_sides_rejected() {
    assert!(matches!(
        create_shape(Bodys::Poly(10000, 2), Vec2 { x: 0, y: 0 }, false, false),
        Err(ShapeError::InvalidShapeParameters)
    ));
}

#[test]
fn tiny_shape_with_vanishing_area_rejected() {
    // A one-milliunit circle rounds to zero area at the fixed-point scale.
    assert!(matches!(
        create_shape(Bodys::Circle(1), Vec2 { x: 0, y: 0 }, false, false),
        Err(ShapeError::InvalidShapeParameters)
    ));
}

#[test]
fn circle_area_and_inertia_exact() {
    let c = circle(10000, 0, 0, false);
    assert_eq!(c.area, 314200); // pi * 10^2, in milliunits
    assert_eq!(c.mass, 314200);
    assert_eq!(c.inertia, 15710000); // m r^2 / 2
    assert_eq!(c.inv_mass, 1000000000000 / 314200);
    assert_eq!(c.inv_inertia, 1000000000000000000 / 15710000);
}

#[test]
fn rectangle_area_inertia_and_vertices_exact() {
    let r = rect(100000, 50000, 0, 0, false);
    assert_eq!(r.area, 5000000); // 100 * 50 units^2
    assert_eq!(r.inertia, 5208330000); // m (w^2 + h^2) / 12
    let vs: Vec<(i64, i64)> = r.vertices.iter().map(|v| (v.x, v.y)).collect();
    assert_eq!(
        vs,
        vec![(-50000, 25000), (50000, 25000), (50000, -25000), (-50000, -25000)]
    );
}

#[test]
fn static_body_has_zero_inverse_terms() {
    let r = rect(100000, 100000, 0, 0, true);
    assert_eq!(r.inv_mass, 0);
    assert_eq!(r.inv_inertia, 0);
    assert!(r.is_static);
    let d = circle(10000, 0, 0, false);
    assert!(d.inv_mass > 0);
    assert!(d.inv_inertia > 0);
}

#[test]
fn triangle_vertices_and_area() {
    let t = create_shape(Bodys::Poly(10000, 3), Vec2 { x: 0, y: 0 }, false, false).unwrap();
    let vs: Vec<(i64, i64)> = t.vertices.iter().map(|v| (v.x, v.y)).collect();
    assert_eq!(vs, vec![(0, 10000), (-8640, -4990), (8622, -4974)]);
    assert_eq!(t.area, 129600); // 3 r^2 sin(tau/3) / 2, about 129.9 units^2
}

#[test]
fn fixed_point_trigonometry_values() {
    assert_eq!(cos_fx(0), 1000);
    assert_eq!(sin_fx(0), 0);
    assert_eq!(sin_fx(1571), 1000); // sin(pi/2) = 1
    assert_eq!(cos_fx(1571), -1); // cos(pi/2) = 0, one milli of rounding
    assert_eq!(sin_fx(-1571), -1000);
    assert_eq!(isqrt(0), 0);
    assert_eq!(isqrt(144), 12);
    assert_eq!(isqrt(145), 12);
    assert_eq!(isqrt(225000000), 15000);
}

#[test]
fn aabb_follows_shape() {
    let c = circle(10000, 5000, -3000, false);
    assert_eq!(c.aabb.max.x, 15000);
    assert_eq!(c.aabb.max.y, 7000);
    assert_eq!(c.aabb.min.x, -5000);
    assert_eq!(c.aabb.min.y, -13000);
    let r = rect(100000, 50000, 1000, 2000, false);
    assert_eq!(r.aabb.max.x, 51000);
    assert_eq!(r.aabb.min.y, -23000);
}

#[test]
fn aabb_filter_matches_interval_overlap() {
    // Separated on x: rejected.
    let a = rect(100000, 100000, 0, 0, false);
    let b = rect(100000, 100000, 150000, 0, false);
    assert!(a.checkaabb(&b));
    // Overlapping on both axes: accepted.
    let c = rect(100000, 100000, 80000, 20000, false);
    assert!(!a.checkaabb(&c));
    // Overlapping on x only: rejected.
    let d = rect(100000, 100000, 20000, 150000, false);
    assert!(a.checkaabb(&d));
}

#[test]
fn circle_pair_scenario_depth_and_normal() {
    // Circle radius 10 at the origin, circle radius 10 at (15, 0).
    let a = circle(10000, 0, 0, false);
    let b = circle(10000, 15000, 0, false);
    let (n, d) = a.collision(b.pos, &b);
    assert_eq!(d, 5000); // depth 5 units
    assert_eq!((n.x, n.y), (1000, 0)); // unit +x, body-a-relative-to-b
    let (n2, d2) = b.collision(a.pos, &a);
    assert_eq!(d2, 5000);
    assert_eq!((n2.x, n2.y), (-1000, 0));
}

#[test]
fn circle_pair_diagonal_unit_normal() {
    // Centers 15 units apart on a 3-4-5 line: the normal is exactly unit.
    let a = circle(10000, 0, 0, false);
    let b = circle(10000, 9000, 12000, false);
    let (n, d) = a.collision(b.pos, &b);
    assert_eq!(d, 5000);
    assert_eq!((n.x, n.y), (600, 800));
    assert_eq!(n.x * n.x + n.y * n.y, 1000000);
}

#[test]
fn separated_circles_give_sentinel() {
    let a = circle(10000, 0, 0, false);
    let b = circle(10000, 25000, 0, false);
    let (n, d) = a.collision(b.pos, &b);
    assert_eq!(d, 0);
    assert_eq!((n.x, n.y), (0, 0));
}

#[test]
fn concentric_circles_give_no_collision_sentinel() {
    // Degenerate geometry: no separating direction exists, so the pair
    // resolves to the zero-vector, zero-depth sentinel.
    let a = circle(10000, 0, 0, false);
    let b = circle(10000, 0, 0, false);
    let (n, d) = a.collision(b.pos, &b);
    assert_eq!((n.x, n.y), (0, 0));
    assert_eq!(d, 0);
}

#[test]
fn rectangle_pair_normal_negates_under_swap() {
    let a = rect(100000, 100000, 0, 0, false);
    let b = rect(100000, 100000, 90000, 10000, false);
    let (na, da) = a.collision(b.pos, &b);
    let (nb, db) = b.collision(a.pos, &a);
    assert!(da > 0);
    assert_eq!(da, db);
    assert_eq!((na.x, na.y), (-nb.x, -nb.y));
    assert_eq!((na.x, na.y), (1000, 0));
}

#[test]
fn rectangle_circle_collision_both_ways() {
    let r = rect(100000, 100000, 0, 0, false);
    let c = circle(10000, 0, 55000, false);
    let (n, d) = r.collision(c.pos, &c);
    assert_eq!((n.x, n.y), (0, 1000)); // from the rectangle toward the circle
    assert_eq!(d, 5000);
    let (n2, d2) = c.collision(r.pos, &r);
    assert_eq!((n2.x, n2.y), (0, -1000));
    assert_eq!(d2, 5000);
}

#[test]
fn circle_contact_point_on_boundary() {
    let a = circle(10000, 0, 0, false);
    let b = circle(10000, 15000, 0, false);
    let (c1, _c2, cc) = a.contactpoint(&b);
    assert_eq!(cc, 1);
    assert_eq!((c1.x, c1.y), (10000, 0));
}

#[test]
fn face_contact_gives_two_points() {
    // A box resting on a box: the closest vertex-edge distances tie at the
    // two shared corners, a two-point manifold.
    let a = rect(100000, 100000, 0, 0, false);
    let b = rect(100000, 100000, 0, 99900, false);
    let (_c1, _c2, cc) = a.contactpoint(&b);
    assert_eq!(cc, 2);
    assert!(CONTACT_TOL > 0);
}

#[test]
fn corner_contact_gives_one_point() {
    let a = rect(100000, 100000, 0, 0, false);
    let b = circle(10000, 0, 59000, false);
    let (c1, _c2, cc) = a.contactpoint(&b);
    assert_eq!(cc, 1);
    assert_eq!((c1.x, c1.y), (0, 50000));
}

#[test]
fn rotation_rotates_vertices_in_place() {
    let mut r = rect(100000, 50000, 0, 0, false);
    r.rotate(1571); // a quarter turn
    let v0 = r.vertices[0];
    assert_eq!((v0.x, v0.y), (-24950, -50025));
    // Rotating by zero is the identity.
    let before: Vec<(i64, i64)> = r.vertices.iter().map(|v| (v.x, v.y)).collect();
    r.rotate(0);
    let after: Vec<(i64, i64)> = r.vertices.iter().map(|v| (v.x, v.y)).collect();
    assert_eq!(before, after);
}

#[test]
fn rejected_pair_is_untouched_bit_for_bit() {
    let mut a = circle(10000, 0, 0, false);
    let mut b = circle(10000, 100000, 0, false);
    a.vel = Vec2 { x: 777, y: -3 };
    b.rot_vel = 55;
    let (apos, avel, aw, aaabb) = (a.pos, a.vel, a.rot_vel, a.aabb);
    let (bpos, bvel, bw, baabb) = (b.pos, b.vel, b.rot_vel, b.aabb);
    resolve_pair(&mut a, &mut b);
    assert_eq!(a.pos, apos);
    assert_eq!(a.vel, avel);
    assert_eq!(a.rot_vel, aw);
    assert_eq!(a.aabb, aaabb);
    assert_eq!(b.pos, bpos);
    assert_eq!(b.vel, bvel);
    assert_eq!(b.rot_vel, bw);
    assert_eq!(b.aabb, baabb);
}

#[test]
fn static_static_pair_is_untouched() {
    let mut a = rect(100000, 100000, 0, 0, true);
    let mut b = rect(100000, 100000, 50000, 0, true);
    let (apos, bpos) = (a.pos, b.pos);
    resolve_pair(&mut a, &mut b);
    assert_eq!(a.pos, apos);
    assert_eq!(b.pos, bpos);
}

#[test]
fn static_body_never_moves_in_collisions() {
    let mut ground = rect(100000, 100000, 0, 0, true);
    let mut ball = circle(10000, 0, 55000, false);
    ball.vel = Vec2 { x: 0, y: -50000 };
    for _ in 0..50 {
        resolve_pair(&mut ground, &mut ball);
    }
    assert_eq!(ground.pos, Vec2 { x: 0, y: 0 });
    assert_eq!(ground.vel, Vec2 { x: 0, y: 0 });
    assert_eq!(ground.rot_vel, 0);
}

#[test]
fn lone_dynamic_body_absorbs_full_correction() {
    let ground = rect(100000, 100000, 0, 0, true);
    let mut g = ground;
    let mut ball = circle(10000, 0, 55000, false);
    // Depth 5 along +y from the rectangle toward the circle: the dynamic
    // circle is pushed up by the full depth.
    resolve_pair(&mut g, &mut ball);
    assert_eq!(ball.pos, Vec2 { x: 0, y: 60000 });
}

#[test]
fn dynamic_pair_splits_correction_evenly() {
    let mut a = circle(10000, 0, 0, false);
    let mut b = circle(10000, 15000, 0, false);
    resolve_pair(&mut a, &mut b);
    // Depth 5 along +x: each body moves two and a half units.
    assert_eq!(a.pos, Vec2 { x: -2500, y: 0 });
    assert_eq!(b.pos, Vec2 { x: 17500, y: 0 });
}

#[test]
fn elastic_head_on_collision_conserves_momentum() {
    let mut a = circle(10000, 0, 0, false);
    let mut b = circle(10000, 15000, 0, false);
    a.vel = Vec2 { x: 100000, y: 0 };
    b.vel = Vec2 { x: -100000, y: 0 };
    a.restitution = 1000;
    b.restitution = 1000;
    let before = a.mass * a.vel.x + b.mass * b.vel.x;
    assert_eq!(before, 0);
    resolve_pair(&mut a, &mut b);
    let after = a.mass * a.vel.x + b.mass * b.vel.x;
    assert!(after.abs() <= 3000000, "momentum drift {}", after);
    // The equal-mass elastic pair swaps velocities (to fixed-point rounding).
    assert!((a.vel.x + 100000).abs() <= 1000, "a.vel.x = {}", a.vel.x);
    assert!((b.vel.x - 100000).abs() <= 1000, "b.vel.x = {}", b.vel.x);
}

#[test]
fn separating_bodies_receive_no_impulse() {
    let mut a = circle(10000, 0, 0, false);
    let mut b = circle(10000, 15000, 0, false);
    a.vel = Vec2 { x: -5000, y: 0 };
    b.vel = Vec2 { x: 5000, y: 0 };
    resolve_pair(&mut a, &mut b);
    // Positional correction still runs, but the solver skips the contact.
    assert_eq!(a.vel, Vec2 { x: -5000, y: 0 });
    assert_eq!(b.vel, Vec2 { x: 5000, y: 0 });
}

#[test]
fn engine_add_and_remove_bodies() {
    let mut eng = PhsyicsEngine::build();
    eng.add_body(circle(10000, 0, 0, false));
    eng.add_body(rect(100000, 100000, 0, -80000, true));
    assert_eq!(eng.bodies.len(), 2);
    let first = eng.remove_body(0);
    assert_eq!(first.kind, Bodys::Circle(10000));
    assert_eq!(eng.bodies.len(), 1);
}

#[test]
fn integrator_advances_velocity_and_position() {
    let mut eng = PhsyicsEngine::build();
    let mut c = circle(10000, 0, 0, false);
    c.ac = Vec2 { x: 0, y: -196000 };
    eng.add_body(c);
    eng.step(1000); // one full second
    let b = &eng.bodies[0];
    assert_eq!(b.vel.y, -196000);
    assert_eq!(b.pos.y, -196000);
    assert_eq!(b.force, Vec2 { x: 0, y: 0 });
}

#[test]
fn falling_box_comes_to_rest_on_static_box() {
    // A 10x10 box dropped onto a static 100x100 box under gravity settles
    // into resting contact: tiny penetration, near-zero normal velocity.
    let mut eng = PhsyicsEngine::build();
    eng.add_body(create_body(Bodys::Rec(100000, 100000), Vec2 { x: 0, y: 0 }, false, true).unwrap());
    eng.add_body(
        create_body(Bodys::Rec(10000, 10000), Vec2 { x: 0, y: 60000 }, false, false).unwrap(),
    );
    for _ in 0..400 {
        eng.step(16);
    }
    let boxy = &eng.bodies[1];
    // Resting height: ground top at 50, half box 5.
    assert!(
        (boxy.pos.y - 55000).abs() <= 1000,
        "resting height {}",
        boxy.pos.y
    );
    assert!(boxy.vel.y.abs() <= 10000, "residual speed {}", boxy.vel.y);
    assert_eq!(boxy.pos.x, 0);
    // The static ground has not moved.
    assert_eq!(eng.bodies[0].pos, Vec2 { x: 0, y: 0 });
    assert_eq!(eng.bodies[0].vel, Vec2 { x: 0, y: 0 });
}

#[test]
fn default_body_placeholder_values() {
    let d = Shape::default();
    assert_eq!(d.kind, Bodys::Circle(20000));
    assert_eq!(d.mass, 1000);
    assert_eq!(d.restitution, 1000);
    assert_eq!(d.static_friction, 600);
    assert_eq!(d.dinaminc_friction, 400);
    assert!(!d.is_static);
    assert!(d.movil);
}

#[test]
fn created_body_starts_under_gravity() {
    let b = create_body(Bodys::Circle(10000), Vec2 { x: 0, y: 0 }, true, false).unwrap();
    assert_eq!(b.ac, Vec2 { x: 0, y: -196000 });
    assert_eq!(b.restitution, 50);
    assert!(b.movil);
}

#[test]
fn largest_dimension_accepted_and_over_limit_rejected() {
    let big = create_shape(Bodys::Rec(4000000, 4000000), Vec2 { x: 0, y: 0 }, false, true);
    assert!(big.is_ok());
    assert!(matches!(
        create_shape(Bodys::Rec(4000001, 4000000), Vec2 { x: 0, y: 0 }, false, true),
        Err(ShapeError::InvalidShapeParameters)
    ));
    assert!(matches!(
        create_shape(Bodys::Circle(4000001), Vec2 { x: 0, y: 0 }, false, false),
        Err(ShapeError::InvalidShapeParameters)
    ));
}

#[test]
fn friction_slows_sliding_contact() {
    // A box sliding across static ground while pressing into it: the
    // Coulomb pass must bleed tangential speed that the normal impulse
    // alone would leave untouched.
    let mut ground = rect(1000000, 100000, 0, 0, true);
    let mut boxy = rect(20000, 20000, 0, 59000, false);
    boxy.vel = Vec2 { x: 50000, y: -10000 };
    resolve_pair(&mut ground, &mut boxy);
    assert!(
        boxy.vel.x < 50000,
        "tangential speed not reduced: {}",
        boxy.vel.x
    );
    assert!(boxy.vel.x > 0, "friction overshot: {}", boxy.vel.x);
    // The normal impulse acted too: the approach speed is gone.
    assert!(boxy.vel.y > -10000, "normal speed kept: {}", boxy.vel.y);
    // The static ground is untouched.
    assert_eq!(ground.vel, Vec2 { x: 0, y: 0 });
    assert_eq!(ground.pos, Vec2 { x: 0, y: 0 });
}

#[test]
fn default_body_bounding_box() {
    // The placeholder body is a twenty-unit circle at the origin; its
    // recomputed box needs only the geometric fields, not full consistency.
    let d = Shape::default();
    let bb = d.get_aabb();
    assert_eq!((bb.min.x, bb.min.y), (-20000, -20000));
    assert_eq!((bb.max.x, bb.max.y), (20000, 20000));
}

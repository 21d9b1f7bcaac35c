use platter_game::nbody::BodyForces;
use platter_game::nbody::CelestialBody;
use platter_game::nbody::Force2;
use platter_game::nbody::IVec2;
use platter_game::nbody::apply_forces;
use platter_game::nbody::compute_forces;
use platter_game::nbody::isqrt;
use platter_game::nbody::pair_force;
use platter_game::nbody::physics_tick;
use platter_game::viz::RatioFloor;
use platter_game::viz::force_mag2;
use platter_game::viz::line_opacities;

fn body(id: u64, mass: u32, x: i64, y: i64) -> CelestialBody {
    CelestialBody {
        id,
        mass,
        pos: IVec2 { x, y },
        vel: IVec2 { x: 0, y: 0 },
    }
}

#[test]
fn isqrt_exact_values() {
    assert_eq!(isqrt(0), 0);
    assert_eq!(isqrt(1), 1);
    assert_eq!(isqrt(2), 1);
    assert_eq!(isqrt(24), 4);
    assert_eq!(isqrt(25), 5);
    assert_eq!(isqrt(26), 5);
    assert_eq!(isqrt(1 << 126), 1 << 63);
    assert_eq!(isqrt(u128::MAX), u64::MAX);
}

#[test]
fn pair_force_exact_value() {
    // masses of 1e9 at distance 5: the scaled scalar is
    // floor(66743 * 1e18 / 1e15) = 66743000; the components follow by
    // projecting on (3, 4) with stepwise floors.
    let a = body(1, 1_000_000_000, 0, 0);
    let b = body(2, 1_000_000_000, 3, 4);
    let f = pair_force(&a, &b);
    // x: 66743000 * 3 / 25 / 5 = 1601832; y: 66743000 * 4 / 25 / 5 = 2135776
    assert_eq!(f, Force2 { x: 1601832, y: 2135776 });
}

#[test]
fn force_obeys_newtons_third_law() {
    let a = body(1, 1_000_000_000, -7, 2);
    let b = body(2, 2_000_000_000, 3, 44);
    let fab = pair_force(&a, &b);
    let fba = pair_force(&b, &a);
    assert_eq!(fab.x, -fba.x);
    assert_eq!(fab.y, -fba.y);
    assert!(fab.x != 0 || fab.y != 0);
}

#[test]
fn force_magnitude_scales_inversely_with_squared_distance() {
    // doubling the separation quarters the force
    let a = body(1, 4_000_000_000, 0, 0);
    let near = body(2, 4_000_000_000, 0, 100);
    let far = body(3, 4_000_000_000, 0, 200);
    let f_near = pair_force(&a, &near);
    let f_far = pair_force(&a, &far);
    assert_eq!(f_near.x, 0);
    assert_eq!(f_far.x, 0);
    // floor(a / 100^2 / ... ) computed stepwise: compare through the exact
    // values: scalar = floor(66743 * 16e18 / 1e15) = 1067888000
    // near: 1067888000 * 100 / 10000 / 100 = 106788
    // far:  1067888000 * 200 / 40000 / 200 = 26697
    assert_eq!(f_near.y, 106788);
    assert_eq!(f_far.y, 26697);
    assert_eq!(f_near.y / 4, f_far.y);
}

#[test]
fn zero_mass_body_feels_and_exerts_nothing() {
    let a = body(1, 0, 0, 0);
    let b = body(2, 4_000_000_000, 30, 40);
    let fab = pair_force(&a, &b);
    let fba = pair_force(&b, &a);
    assert_eq!(fab, Force2 { x: 0, y: 0 });
    assert_eq!(fba, Force2 { x: 0, y: 0 });
}

#[test]
fn coincident_bodies_exert_no_force() {
    let a = body(1, 1_000_000_000, 5, 5);
    let b = body(2, 1_000_000_000, 5, 5);
    assert_eq!(pair_force(&a, &b), Force2 { x: 0, y: 0 });
}

#[test]
fn compute_forces_totals_and_pair_map() {
    let bodies = vec![
        body(10, 1_000_000_000, 0, 0),
        body(20, 1_000_000_000, 3, 4),
        body(30, 1_000_000_000, 0, 0),
    ];
    let out = compute_forces(&bodies);
    assert_eq!(out.len(), 3);
    assert_eq!(out[0].id, 10);
    // body 10 is attracted only by body 20 (body 30 is coincident)
    assert_eq!(out[0].total, Force2 { x: 1601832, y: 2135776 });
    assert_eq!(out[0].per_other.len(), 1);
    assert_eq!(out[0].per_other[0].other, 20);
    assert_eq!(out[0].per_other[0].force, Force2 { x: 1601832, y: 2135776 });
    // body 20 feels both others, symmetrically
    assert_eq!(out[1].total, Force2 { x: -2 * 1601832, y: -2 * 2135776 });
    assert_eq!(out[1].per_other.len(), 2);
    // coincident pair never shows up in the map
    assert_eq!(out[2].per_other.len(), 1);
    assert_eq!(out[2].per_other[0].other, 20);
}

#[test]
fn compute_forces_on_an_empty_set_is_a_no_op() {
    let bodies: Vec<CelestialBody> = Vec::new();
    let out = compute_forces(&bodies);
    assert_eq!(out.len(), 0);
}

#[test]
fn single_body_feels_no_force() {
    let bodies = vec![body(7, 3_000_000_000, 12, -9)];
    let out = compute_forces(&bodies);
    assert_eq!(out.len(), 1);
    assert_eq!(out[0].total, Force2 { x: 0, y: 0 });
    assert_eq!(out[0].per_other.len(), 0);
}

#[test]
fn apply_forces_scales_into_velocity() {
    let mut bodies = vec![body(1, 1, 0, 0)];
    let forces = vec![BodyForces {
        id: 1,
        total: Force2 { x: 5000, y: -5000 },
        per_other: Vec::new(),
    }];
    // dv = 5000 * 2 * 500 / 1000 = 5000
    apply_forces(&mut bodies, &forces, 2, 500);
    assert_eq!(bodies[0].vel, IVec2 { x: 5000, y: -5000 });
    assert_eq!(bodies[0].pos, IVec2 { x: 0, y: 0 });
}

#[test]
fn physics_tick_updates_velocities_symmetrically() {
    let mut bodies = vec![
        body(1, 1_000_000_000, 0, 0),
        body(2, 1_000_000_000, 3, 4),
    ];
    let out = physics_tick(&mut bodies, 1, 1000);
    assert_eq!(out.len(), 2);
    // equal masses: equal and opposite velocity changes
    assert_eq!(bodies[0].vel, IVec2 { x: 1601832, y: 2135776 });
    assert_eq!(bodies[1].vel, IVec2 { x: -1601832, y: -2135776 });
    // positions integrate externally, not here
    assert_eq!(bodies[0].pos, IVec2 { x: 0, y: 0 });
    assert_eq!(bodies[1].pos, IVec2 { x: 3, y: 4 });
}

#[test]
fn ratio_floor_normalization() {
    let floor = RatioFloor { ratio: 100_000 };
    assert_eq!(floor.offset(), 900_000);
    assert_eq!(floor.normalize(0), 100_000);
    assert_eq!(floor.normalize(1_000_000), 1_000_000);
    assert_eq!(floor.normalize(500_000), 550_000);
    let full = RatioFloor { ratio: 1_000_000 };
    assert_eq!(full.normalize(0), 1_000_000);
    let zero = RatioFloor { ratio: 0 };
    assert_eq!(zero.normalize(123_456), 123_456);
}

#[test]
fn ratio_floor_default_is_a_tenth() {
    let floor = RatioFloor::default();
    assert_eq!(floor.ratio, 100_000);
}

#[test]
fn force_line_opacities() {
    let floor = RatioFloor { ratio: 100_000 };
    let mags = vec![4u128, 10, 10, 7];
    let out = line_opacities(&mags, &floor);
    // ratios: 0, 1.0, 1.0, 0.5 of the span, then floored at 0.1
    assert_eq!(out, vec![100_000, 1_000_000, 1_000_000, 550_000]);
}

#[test]
fn force_line_opacities_degenerate_span() {
    let floor = RatioFloor { ratio: 250_000 };
    let mags = vec![9u128, 9, 9];
    let out = line_opacities(&mags, &floor);
    assert_eq!(out, vec![250_000, 250_000, 250_000]);
}

#[test]
fn squared_magnitude_of_a_force() {
    assert_eq!(force_mag2(&Force2 { x: 3, y: -4 }), 25);
    assert_eq!(force_mag2(&Force2 { x: 0, y: 0 }), 0);
}

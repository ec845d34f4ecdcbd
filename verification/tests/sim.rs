use boids::boid::{Boid, Calculations};
use boids::fixed::{align_factor, sep_factor};
use boids::flock::Flock;
use boids::params::Parameters;
use boids::vec2::V2;

fn params() -> Parameters {
    Parameters::default()
}

fn boid(px: i64, py: i64, vx: i64, vy: i64, w: i64) -> Boid {
    Boid::new(px, py, vx, vy, w)
}

fn flock_of(boids: Vec<Boid>) -> Flock {
    let n = boids.len();
    let mut calcs = Vec::new();
    for _ in 0..n {
        calcs.push(Calculations::new());
    }
    Flock { boids, calcs }
}

#[test]
fn default_parameters_match_panel() {
    let p = params();
    assert_eq!(p.window_width, 100_000);
    assert_eq!(p.number_of_boids, 512);
    assert_eq!(p.view_distance, 75_000);
    assert_eq!(p.cohesion_force, 2_500);
    assert_eq!(p.separation_force, 1_800);
    assert_eq!(p.separation_bias, 1_100);
    assert_eq!(p.alignment_force, 1_100);
    assert_eq!(p.alignment_bias, 1_500);
    assert_eq!(p.steering_force, 800);
    assert_eq!(p.fidelity, 900);
    assert_eq!(p.min_speed, 25_000);
    assert_eq!(p.max_speed, 100_000);
    assert!(!p.bounce_off_walls);
}

#[test]
fn reconcile_grows_to_target() {
    let mut p = params();
    p.number_of_boids = 8;
    let mut f = Flock::new();
    let weights = vec![1000i64; 8];
    f.adjust_number_of_boids(&p, &weights);
    assert_eq!(f.boids.len(), 8);
    assert_eq!(f.calcs.len(), 8);
    for b in &f.boids {
        assert!(b.position.x >= -50_000 && b.position.x <= 50_000);
        assert!(b.position.y >= -50_000 && b.position.y <= 50_000);
        assert!(b.velocity.x >= -p.max_speed && b.velocity.x <= p.max_speed);
        assert!(b.velocity.y >= -p.max_speed && b.velocity.y <= p.max_speed);
        assert_eq!(b.weight, 1000);
    }
}

#[test]
fn reconcile_shrinks_to_target() {
    let mut p = params();
    p.number_of_boids = 10;
    let mut f = Flock::new();
    let mut weights = Vec::new();
    for t in 0..10i64 {
        weights.push(1000 + t);
    }
    f.adjust_number_of_boids(&p, &weights);
    assert_eq!(f.boids.len(), 10);
    let kept: Vec<i64> = f.boids.iter().take(4).map(|b| b.weight).collect();
    p.number_of_boids = 4;
    f.adjust_number_of_boids(&p, &Vec::new());
    assert_eq!(f.boids.len(), 4);
    assert_eq!(f.calcs.len(), 4);
    let now: Vec<i64> = f.boids.iter().map(|b| b.weight).collect();
    assert_eq!(kept, now);
}

#[test]
fn reconcile_on_target_is_noop() {
    let mut p = params();
    p.number_of_boids = 2;
    let mut f = flock_of(vec![boid(0, 0, 1000, 0, 1000), boid(5000, 0, 0, 1000, 2000)]);
    f.adjust_number_of_boids(&p, &Vec::new());
    assert_eq!(f.boids.len(), 2);
    assert_eq!(f.boids[0].velocity.x, 1000);
    assert_eq!(f.boids[1].weight, 2000);
}

#[test]
fn wrap_negates_outward_position() {
    let p = params();
    // half extent is 50_000; just beyond it and still moving outward
    let mut f = flock_of(vec![boid(50_005, 0, 1000, 0, 1000)]);
    f.handle_walls(&p);
    assert_eq!(f.boids[0].position.x, -50_005);
    assert_eq!(f.boids[0].velocity.x, 1000);
}

#[test]
fn wall_leaves_inward_and_inside_agents_alone() {
    let p = params();
    let mut f = flock_of(vec![
        boid(50_005, 0, -1000, 0, 1000), // outside but moving back in
        boid(10_000, 20_000, 1000, 1000, 1000), // inside
    ]);
    f.handle_walls(&p);
    assert_eq!(f.boids[0].position.x, 50_005);
    assert_eq!(f.boids[0].velocity.x, -1000);
    assert_eq!(f.boids[1].position.x, 10_000);
    assert_eq!(f.boids[1].position.y, 20_000);
}

#[test]
fn bounce_negates_outward_velocity() {
    let mut p = params();
    p.bounce_off_walls = true;
    let mut f = flock_of(vec![boid(0, -50_100, 0, -2000, 1000)]);
    f.handle_walls(&p);
    assert_eq!(f.boids[0].position.y, -50_100);
    assert_eq!(f.boids[0].velocity.y, 2000);
}

#[test]
fn resize_clamps_positions_into_new_extent() {
    let mut p = params();
    let mut f = flock_of(vec![boid(45_000, -48_000, 0, 1000, 1000)]);
    f.window_resize(&mut p, 20_000, 20_000);
    assert_eq!(p.window_width, 20_000);
    assert_eq!(p.window_height, 20_000);
    assert_eq!(f.boids[0].position.x, 10_000);
    assert_eq!(f.boids[0].position.y, -10_000);
    assert_eq!(f.boids[0].velocity.y, 1000);
}

#[test]
fn resize_to_same_extent_is_noop() {
    let mut p = params();
    let mut f = flock_of(vec![boid(60_000, 0, 0, 1000, 1000)]);
    f.window_resize(&mut p, 100_000, 100_000);
    assert_eq!(f.boids[0].position.x, 60_000);
}

#[test]
fn rest_stays_put_under_integration() {
    let mut f = flock_of(vec![boid(12_345, -6_789, 0, 0, 1000)]);
    f.fly(16);
    assert_eq!(f.boids[0].position.x, 12_345);
    assert_eq!(f.boids[0].position.y, -6_789);
    f.fly(60_000);
    assert_eq!(f.boids[0].position.x, 12_345);
    assert_eq!(f.boids[0].position.y, -6_789);
}

#[test]
fn integration_advances_by_velocity_times_time() {
    let mut f = flock_of(vec![boid(0, 0, 2000, -1000, 1000)]);
    // one second: one full velocity unit of travel
    f.fly(1000);
    assert_eq!(f.boids[0].position.x, 2000);
    assert_eq!(f.boids[0].position.y, -1000);
    // sixteen milliseconds
    f.fly(16);
    assert_eq!(f.boids[0].position.x, 2000 + 32);
    assert_eq!(f.boids[0].position.y, -1000 - 16);
}

#[test]
fn fidelity_zero_freezes_velocities() {
    let mut p = params();
    p.fidelity = 0;
    let mut f = flock_of(vec![
        boid(0, 0, 0, 10_000, 1000),
        boid(5_000, 0, 0, 10_000, 1000),
    ]);
    for _ in 0..50 {
        f.flock(&p);
    }
    assert_eq!(f.boids[0].velocity.x, 0);
    assert_eq!(f.boids[0].velocity.y, 10_000);
    assert_eq!(f.boids[1].velocity.x, 0);
    assert_eq!(f.boids[1].velocity.y, 10_000);
}

#[test]
fn pair_beyond_view_distance_affects_neither() {
    let mut p = params();
    p.fidelity = 1000;
    // distance 100 > view distance 75
    let mut f = flock_of(vec![
        boid(0, 0, 0, 30_000, 1000),
        boid(100_001, 0, 0, 30_000, 1000),
    ]);
    f.pair_eval(&p, 0, 1);
    assert_eq!(f.calcs[0].neighbours, 0);
    assert_eq!(f.calcs[0].cohesion.x, 0);
    assert_eq!(f.calcs[1].neighbours, 0);
    f.flock(&p);
    assert_eq!(f.boids[0].velocity.x, 0);
    assert_eq!(f.boids[0].velocity.y, 30_000);
    assert_eq!(f.boids[1].velocity.y, 30_000);
}

#[test]
fn separation_factor_halves_when_distance_doubles() {
    // bias one: the factor is the plain reciprocal of the distance
    assert_eq!(sep_factor(2_000, 1000), 500);
    assert_eq!(sep_factor(4_000, 1000), 250);
    assert_eq!(sep_factor(10_000, 1000), 100);
    assert_eq!(sep_factor(20_000, 1000), 50);
}

#[test]
fn separation_factor_never_grows_with_distance() {
    let biases = [500i64, 1000, 1500, 2000, 3000];
    for &bias in biases.iter() {
        let mut last = sep_factor(1, bias);
        for d in [10i64, 100, 1_000, 10_000, 100_000, 1_000_000] {
            let f = sep_factor(d, bias);
            assert!(f <= last, "factor grew at distance {} bias {}", d, bias);
            last = f;
        }
    }
}

#[test]
fn alignment_factor_peaks_at_one() {
    // similar headings with a bias over one
    assert_eq!(align_factor(2_000, 1000), 1000);
    // opposite headings with a bias under one
    assert_eq!(align_factor(500, -1000), 1000);
    // a dissimilar pairing stays below one
    assert_eq!(align_factor(2_000, 0), 500);
    assert!(align_factor(2_000, -1000) < 1000);
    assert!(align_factor(500, 1000) < 1000);
}

#[test]
fn two_agent_scenario_matches_the_formulas() {
    let mut p = params();
    p.fidelity = 1000;
    p.view_distance = 75_000;
    p.cohesion_force = 1000;
    p.separation_force = 1000;
    p.alignment_force = 1000;
    p.steering_force = 1000;
    p.separation_bias = 1000;
    p.alignment_bias = 2000;
    p.min_speed = 1;
    p.max_speed = 500_000;
    // two unit-weight agents ten units apart with identical velocities
    let mut f = flock_of(vec![
        boid(5_000, 0, 0, 10_000, 1000),
        boid(15_000, 0, 0, 10_000, 1000),
    ]);
    f.pair_eval(&p, 0, 1);
    // both accumulators saw one neighbour, a nonzero cohesion entry and a
    // separation entry pushing the pair apart
    assert_eq!(f.calcs[0].neighbours, 1);
    assert_eq!(f.calcs[0].cohesion.x, 15_000);
    assert_eq!(f.calcs[0].separation.x, -1_000);
    assert_eq!(f.calcs[0].alignment.y, 10_000);
    assert_eq!(f.calcs[1].neighbours, 1);
    assert_eq!(f.calcs[1].cohesion.x, 5_000);
    assert_eq!(f.calcs[1].separation.x, 1_000);
    assert_eq!(f.calcs[1].alignment.y, 10_000);
    f.apply_steering(&p);
    // the exact velocities that the fixed-point formulas give
    assert_eq!(f.boids[0].velocity.x, -1_999);
    assert_eq!(f.boids[0].velocity.y, 10_999);
    assert_eq!(f.boids[1].velocity.x, 1);
    assert_eq!(f.boids[1].velocity.y, 10_999);
    // accumulators were consumed and reset
    assert_eq!(f.calcs[0].neighbours, 0);
    assert_eq!(f.calcs[1].neighbours, 0);
}

#[test]
fn flocking_speed_stays_in_band() {
    let mut p = params();
    p.fidelity = 1000;
    p.min_speed = 10_000;
    p.max_speed = 100_000;
    let mut f = flock_of(vec![
        boid(0, 0, 500, 0, 1000),
        boid(2_000, 0, 500, 0, 1000),
        boid(0, 2_000, -400_000, 300_000, 2_000),
    ]);
    for _ in 0..5 {
        f.flock(&p);
        for b in &f.boids {
            let s = b.velocity.x * b.velocity.x + b.velocity.y * b.velocity.y;
            if s != 0 {
                assert!(s >= p.min_speed * p.min_speed, "too slow: {}", s);
                assert!(s <= p.max_speed * p.max_speed, "too fast: {}", s);
            }
        }
    }
}

#[test]
fn pointer_attracts_nearby_agents() {
    let mut p = params();
    p.steering_force = 1000;
    p.cohesion_force = 1000;
    let mut f = flock_of(vec![boid(0, 0, 0, 0, 1000)]);
    f.handle_mouse(&p, V2 { x: 10_000, y: 0 }, true);
    assert_eq!(f.boids[0].velocity.x, 5_000);
    assert_eq!(f.boids[0].velocity.y, 0);
    // repel pushes the other way
    let mut g = flock_of(vec![boid(0, 0, 0, 0, 1000)]);
    g.handle_mouse(&p, V2 { x: 10_000, y: 0 }, false);
    assert_eq!(g.boids[0].velocity.x, -5_000);
}

#[test]
fn pointer_beyond_four_view_distances_has_no_effect() {
    let mut p = params();
    p.view_distance = 1_000;
    let mut f = flock_of(vec![boid(0, 0, 700, 0, 1000)]);
    f.handle_mouse(&p, V2 { x: 4_001, y: 0 }, true);
    assert_eq!(f.boids[0].velocity.x, 700);
    assert_eq!(f.boids[0].velocity.y, 0);
}

#[test]
fn parameter_validity_mirror() {
    let p = params();
    assert!(p.check_valid());
    let mut bad = params();
    bad.min_speed = bad.max_speed + 1;
    assert!(!bad.check_valid());
    let mut bad2 = params();
    bad2.fidelity = 1001;
    assert!(!bad2.check_valid());
}

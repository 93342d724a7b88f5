use bouncing_balls::DEFAULT_COLOR_SPEED;
use bouncing_balls::DEFAULT_RADIUS;
use bouncing_balls::SCALE;
use bouncing_balls::color::Color;
use bouncing_balls::geometry::Bounds;
use bouncing_balls::geometry::Vec2;
use bouncing_balls::particle::Particle;
use bouncing_balls::simulation::Simulation;

fn ball(px: i64, py: i64, vx: i64, vy: i64) -> Particle {
    Particle::new(
        Vec2::new(px, py),
        Vec2::new(vx, vy),
        DEFAULT_RADIUS,
        Color::new(500, 500, 500),
        Color::new(DEFAULT_COLOR_SPEED, DEFAULT_COLOR_SPEED, DEFAULT_COLOR_SPEED),
        Color::new(1, 1, 1),
    )
}

fn field() -> Bounds {
    Bounds::new(-400 * SCALE, 400 * SCALE, -300 * SCALE, 300 * SCALE)
}

fn three_from_center() -> Simulation {
    Simulation::new(vec![
        ball(0, 0, 3 * SCALE, 0),
        ball(0, 0, 0, 3 * SCALE),
        ball(0, 0, -3 * SCALE, -3 * SCALE),
    ])
}

#[test]
fn advance_phase_moves_each_by_its_velocity() {
    let mut sim = three_from_center();
    sim.advance_all(&field());
    // No boundary is crossed, so each position is start plus velocity and
    // each velocity is unchanged.
    assert_eq!(sim.particles[0].position, Vec2::new(3 * SCALE, 0));
    assert_eq!(sim.particles[1].position, Vec2::new(0, 3 * SCALE));
    assert_eq!(sim.particles[2].position, Vec2::new(-3 * SCALE, -3 * SCALE));
    assert_eq!(sim.particles[0].velocity, Vec2::new(3 * SCALE, 0));
    assert_eq!(sim.particles[1].velocity, Vec2::new(0, 3 * SCALE));
    assert_eq!(sim.particles[2].velocity, Vec2::new(-3 * SCALE, -3 * SCALE));
}

#[test]
fn full_tick_from_center_conserves_sums() {
    let mut sim = three_from_center();
    sim.tick(&field());
    // The collision sweep fires on the overlapping trio; the exchanges and
    // the positional corrections cancel pairwise, so both component sums
    // are exactly what the advance phase alone would leave.
    let vx: i64 = sim.particles.iter().map(|p| p.velocity.x).sum();
    let vy: i64 = sim.particles.iter().map(|p| p.velocity.y).sum();
    assert_eq!(vx, 0);
    assert_eq!(vy, 0);
    let px: i64 = sim.particles.iter().map(|p| p.position.x).sum();
    let py: i64 = sim.particles.iter().map(|p| p.position.y).sum();
    assert_eq!(px, 0);
    assert_eq!(py, 0);
    for p in &sim.particles {
        assert_eq!(p.radius, DEFAULT_RADIUS);
        assert_eq!(p.color, Color::new(505, 505, 505));
    }
}

#[test]
fn tick_without_overlap_is_advance_alone() {
    let mut sim = Simulation::new(vec![
        ball(-100 * SCALE, 0, 3 * SCALE, 0),
        ball(100 * SCALE, 0, -3 * SCALE, 0),
    ]);
    sim.tick(&field());
    assert_eq!(sim.particles[0].position, Vec2::new(-97 * SCALE, 0));
    assert_eq!(sim.particles[1].position, Vec2::new(97 * SCALE, 0));
    assert_eq!(sim.particles[0].velocity, Vec2::new(3 * SCALE, 0));
    assert_eq!(sim.particles[1].velocity, Vec2::new(-3 * SCALE, 0));
}

#[test]
fn tick_reflects_at_the_edge() {
    let mut sim = Simulation::new(vec![ball(399 * SCALE, 0, 3 * SCALE, 0)]);
    sim.tick(&field());
    assert_eq!(sim.particles[0].position, Vec2::new(402 * SCALE, 0));
    assert_eq!(sim.particles[0].velocity, Vec2::new(-3 * SCALE, 0));
}

#[test]
fn empty_simulation_ticks() {
    let mut sim = Simulation::new(Vec::new());
    sim.tick(&field());
    assert_eq!(sim.particles.len(), 0);
}

#[test]
fn sweep_is_single_pass_in_ascending_order() {
    // Three mutually overlapping particles with asymmetric state.
    let p0 = ball(0, 0, 2 * SCALE, 0);
    let p1 = ball(10 * SCALE, 0, 0, 0);
    let p2 = ball(0, 10 * SCALE, 0, 0);

    let mut sim = Simulation::new(vec![p0, p1, p2]);
    sim.resolve_all_collisions();

    // The reference ordering: (0,1) first, then (0,2), then (1,2).
    let mut r0 = p0;
    let mut r1 = p1;
    let mut r2 = p2;
    r0.resolve_collision(&mut r1);
    r0.resolve_collision(&mut r2);
    r1.resolve_collision(&mut r2);
    assert_eq!(sim.particles[0], r0);
    assert_eq!(sim.particles[1], r1);
    assert_eq!(sim.particles[2], r2);

    // A different ordering gives a different outcome: the sweep is order
    // sensitive, a single pass rather than an iteration to a fixed point.
    let mut s0 = p0;
    let mut s1 = p1;
    let mut s2 = p2;
    s1.resolve_collision(&mut s2);
    s0.resolve_collision(&mut s1);
    s0.resolve_collision(&mut s2);
    assert_ne!((sim.particles[0], sim.particles[1], sim.particles[2]), (s0, s1, s2));
}

use bouncing_balls::DEFAULT_COLOR_SPEED;
use bouncing_balls::DEFAULT_RADIUS;
use bouncing_balls::SCALE;
use bouncing_balls::color::Color;
use bouncing_balls::geometry::Bounds;
use bouncing_balls::geometry::Vec2;
use bouncing_balls::math::isqrt;
use bouncing_balls::math::tdiv64;
use bouncing_balls::particle::Particle;

fn ball(px: i64, py: i64, vx: i64, vy: i64) -> Particle {
    Particle::new(
        Vec2::new(px, py),
        Vec2::new(vx, vy),
        DEFAULT_RADIUS,
        Color::new(500, 500, 500),
        Color::new(DEFAULT_COLOR_SPEED, DEFAULT_COLOR_SPEED, DEFAULT_COLOR_SPEED),
        Color::new(1, 1, 1),
    )
}

fn field() -> Bounds {
    Bounds::new(-400 * SCALE, 400 * SCALE, -300 * SCALE, 300 * SCALE)
}

#[test]
fn advance_moves_position_by_velocity() {
    let mut p = ball(1000, 2000, 3000, -4000);
    p.advance(&field());
    assert_eq!(p.position, Vec2::new(4000, -2000));
    assert_eq!(p.velocity, Vec2::new(3000, -4000));
}

#[test]
fn advance_reflects_at_right_edge_without_clamping() {
    let mut p = ball(399 * SCALE, 0, 3 * SCALE, 0);
    p.advance(&field());
    // The position may overshoot the edge for a tick; only the velocity flips.
    assert_eq!(p.position, Vec2::new(402 * SCALE, 0));
    assert_eq!(p.velocity, Vec2::new(-3 * SCALE, 0));
}

#[test]
fn advance_reflects_at_bottom_edge() {
    let mut p = ball(0, -299 * SCALE, 0, -3 * SCALE);
    p.advance(&field());
    assert_eq!(p.position, Vec2::new(0, -302 * SCALE));
    assert_eq!(p.velocity, Vec2::new(0, 3 * SCALE));
}

#[test]
fn advance_keeps_velocity_when_inside() {
    let mut p = ball(0, 0, 3000, 3000);
    p.advance(&field());
    assert_eq!(p.velocity, Vec2::new(3000, 3000));
}

#[test]
fn color_drifts_by_speed_each_tick() {
    let mut p = ball(0, 0, 0, 0);
    p.advance(&field());
    assert_eq!(p.color, Color::new(505, 505, 505));
    assert_eq!(p.color_change_direction, Color::new(1, 1, 1));
    p.advance(&field());
    assert_eq!(p.color, Color::new(510, 510, 510));
}

#[test]
fn color_triangle_wave_inverts_and_returns() {
    let mut p = ball(0, 0, 0, 0);
    let b = field();
    for _ in 0..100 {
        p.advance(&b);
    }
    // 500 + 100 * 5 reaches the top of the range; the direction flips there.
    assert_eq!(p.color.red, 1000);
    assert_eq!(p.color_change_direction.red, -1);
    for _ in 0..200 {
        p.advance(&b);
    }
    // Down to the bottom of the range; the direction flips back.
    assert_eq!(p.color.red, 0);
    assert_eq!(p.color_change_direction.red, 1);
    for _ in 0..100 {
        p.advance(&b);
    }
    // A full period returns the channel exactly to its start.
    assert_eq!(p.color.red, 500);
    assert_eq!(p.color_change_direction.red, 1);
}

#[test]
fn collision_head_on_swaps_velocities_and_separates() {
    // Radius 20 units each, centers 30 units apart, approaching head-on.
    let mut a = ball(0, 0, 1000, 0);
    let mut b = ball(30 * SCALE, 0, -1000, 0);
    a.resolve_collision(&mut b);
    assert_eq!(a.velocity, Vec2::new(-1000, 0));
    assert_eq!(b.velocity, Vec2::new(1000, 0));
    assert_eq!(a.position, Vec2::new(-5 * SCALE, 0));
    assert_eq!(b.position, Vec2::new(35 * SCALE, 0));
    // Separated by exactly the radii sum along the original line of centers.
    assert_eq!(b.position.x - a.position.x, 2 * DEFAULT_RADIUS);
}

#[test]
fn collision_at_radii_sum_is_a_noop() {
    let mut a = ball(0, 0, 1000, 0);
    let mut b = ball(40 * SCALE, 0, -1000, 0);
    let a0 = a;
    let b0 = b;
    a.resolve_collision(&mut b);
    assert_eq!(a, a0);
    assert_eq!(b, b0);
    a.resolve_collision(&mut b);
    assert_eq!(a, a0);
    assert_eq!(b, b0);
}

#[test]
fn collision_far_apart_is_a_noop() {
    let mut a = ball(-100 * SCALE, 50 * SCALE, 2000, 1000);
    let mut b = ball(100 * SCALE, -50 * SCALE, -2000, 500);
    let a0 = a;
    let b0 = b;
    a.resolve_collision(&mut b);
    assert_eq!(a, a0);
    assert_eq!(b, b0);
}

#[test]
fn collision_identical_positions_uses_fallback_normal() {
    let mut a = ball(7 * SCALE, 7 * SCALE, 0, 0);
    let mut b = ball(7 * SCALE, 7 * SCALE, 0, 0);
    a.resolve_collision(&mut b);
    // A defined separation along the fallback axis, no fault.
    assert_eq!(a.position, Vec2::new(27 * SCALE, 7 * SCALE));
    assert_eq!(b.position, Vec2::new(-13 * SCALE, 7 * SCALE));
    assert_eq!(a.position.x - b.position.x, 2 * DEFAULT_RADIUS);
    assert_eq!(a.velocity, Vec2::new(0, 0));
    assert_eq!(b.velocity, Vec2::new(0, 0));
}

#[test]
fn glow_radius_is_one_and_a_half_times() {
    let p = ball(0, 0, 0, 0);
    assert_eq!(p.glow_radius(), 30 * SCALE);
}

#[test]
fn truncating_division_rounds_toward_zero() {
    assert_eq!(tdiv64(7, 2), 3);
    assert_eq!(tdiv64(-7, 2), -3);
    assert_eq!(tdiv64(0, 5), 0);
}

#[test]
fn isqrt_takes_the_floor() {
    assert_eq!(isqrt(0), 0);
    assert_eq!(isqrt(2), 1);
    assert_eq!(isqrt(900_000_000), 30_000);
    assert_eq!(isqrt(899_999_999), 29_999);
}

//! A particle: kinematic state, color-drift state, and the two per-tick
//! operations `advance` (integrate, reflect, animate color) and
//! `resolve_collision` (pairwise elastic response).

use vstd::prelude::*;
use crate::MAX_COORD;
use crate::MAX_RADIUS;
use crate::SCALE;
use crate::color::Color;
use crate::color::ColorModel;
use crate::color::color_wf;
use crate::color::drift_color;
use crate::color::drift_color_dir;
use crate::color::drift_iter;
use crate::color::lemma_channel_wf_preserved;
use crate::geometry::Bounds;
use crate::geometry::BoundsModel;
use crate::geometry::Vec2;
use crate::geometry::Vec2Model;
use crate::geometry::vadd;
use crate::geometry::vec_within;
use crate::math::is_sqrt_floor;
use crate::math::isqrt;
use crate::math::lemma_sqrt_floor_bounds_component;
use crate::math::lemma_sqrt_floor_exists;
use crate::math::lemma_sqrt_floor_unique;
use crate::math::lemma_tdiv_bound;
use crate::math::sqrt_floor;
use crate::math::tdiv;
use crate::math::tdiv128;

verus! {

/// A circular particle.
#[derive(Clone, Copy, PartialEq, Eq, Structural, Debug)]
pub struct Particle {
    pub position: Vec2,
    pub velocity: Vec2,
    pub radius: i64,
    pub color: Color,
    pub color_change_speed: Color,
    pub color_change_direction: Color,
}

/// The mathematical model of a `Particle`.
pub ghost struct ParticleModel {
    pub position: Vec2Model,
    pub velocity: Vec2Model,
    pub radius: int,
    pub color: ColorModel,
    pub color_change_speed: ColorModel,
    pub color_change_direction: ColorModel,
}

impl View for Particle {
    type V = ParticleModel;

    open spec fn view(&self) -> ParticleModel {
        ParticleModel {
            position: self.position@,
            velocity: self.velocity@,
            radius: self.radius as int,
            color: self.color@,
            color_change_speed: self.color_change_speed@,
            color_change_direction: self.color_change_direction@,
        }
    }
}

impl ParticleModel {
    /// The particle's standing invariant: a positive radius that the
    /// collision arithmetic admits, and well-formed color-drift state.
    pub open spec fn wf(self) -> bool {
        &&& 0 < self.radius <= MAX_RADIUS
        &&& color_wf(self.color, self.color_change_speed, self.color_change_direction)
    }

    /// Position and velocity components small enough for one collision
    /// resolution to be computed without overflow.
    pub open spec fn fits(self) -> bool {
        &&& vec_within(self.position, MAX_COORD as int)
        &&& vec_within(self.velocity, MAX_COORD as int)
    }
}

/// The particle after one `advance` step: the position moves by the
/// velocity; a velocity component is negated exactly when the new position
/// leaves the bounds on that axis; the color drifts by one step.
pub open spec fn advance_spec(p: ParticleModel, b: BoundsModel) -> ParticleModel {
    let pos = vadd(p.position, p.velocity);
    ParticleModel {
        position: pos,
        velocity: Vec2Model {
            x: if pos.x < b.left || pos.x > b.right {
                -p.velocity.x
            } else {
                p.velocity.x
            },
            y: if pos.y < b.bottom || pos.y > b.top {
                -p.velocity.y
            } else {
                p.velocity.y
            },
        },
        radius: p.radius,
        color: drift_color(p.color, p.color_change_speed, p.color_change_direction),
        color_change_speed: p.color_change_speed,
        color_change_direction: drift_color_dir(
            p.color,
            p.color_change_speed,
            p.color_change_direction,
        ),
    }
}

/// `advance` keeps the particle well formed: the radius and the drift
/// speeds are untouched and each color channel stays well formed.
pub proof fn lemma_advance_wf(p: ParticleModel, b: BoundsModel)
    requires
        p.wf(),
    ensures
        advance_spec(p, b).wf(),
{
    lemma_channel_wf_preserved(
        p.color.red,
        p.color_change_speed.red,
        p.color_change_direction.red,
    );
    lemma_channel_wf_preserved(
        p.color.green,
        p.color_change_speed.green,
        p.color_change_direction.green,
    );
    lemma_channel_wf_preserved(
        p.color.blue,
        p.color_change_speed.blue,
        p.color_change_direction.blue,
    );
}

/// Squared Euclidean distance between two points.
pub open spec fn dist_sq(a: Vec2Model, b: Vec2Model) -> int {
    (a.x - b.x) * (a.x - b.x) + (a.y - b.y) * (a.y - b.y)
}

/// Sum of the two particles' radii.
pub open spec fn radii_sum(a: ParticleModel, b: ParticleModel) -> int {
    a.radius + b.radius
}

/// The disks overlap: the distance between the centers is below the sum of
/// the radii.  Stated over squares, which for a non-negative radii sum is
/// the same condition.
pub open spec fn overlapping(a: ParticleModel, b: ParticleModel) -> bool {
    dist_sq(a.position, b.position) < radii_sum(a, b) * radii_sum(a, b)
}

/// The pair after one collision resolution.  Non-overlapping pairs are
/// untouched.  For an overlapping pair, the unit normal along the line of
/// centers (in fixed-point form, so a unit component is `SCALE`) is
/// computed from the truncated distance; two coinciding centers get the
/// fallback normal `(SCALE, 0)`.  Each velocity is split along the normal
/// and the normal components are exchanged; then the particles are pushed
/// apart along the normal by half the overlap each.
pub open spec fn collide_spec(a: ParticleModel, b: ParticleModel) -> (ParticleModel, ParticleModel) {
    if !overlapping(a, b) {
        (a, b)
    } else {
        let dx = a.position.x - b.position.x;
        let dy = a.position.y - b.position.y;
        let dist = sqrt_floor(dist_sq(a.position, b.position));
        let nx = if dist == 0 { SCALE as int } else { tdiv(dx * SCALE, dist) };
        let ny = if dist == 0 { 0 } else { tdiv(dy * SCALE, dist) };
        let dot_a = tdiv(a.velocity.x * nx + a.velocity.y * ny, SCALE as int);
        let dot_b = tdiv(b.velocity.x * nx + b.velocity.y * ny, SCALE as int);
        let half = tdiv(radii_sum(a, b) - dist, 2);
        (
            ParticleModel {
                position: Vec2Model {
                    x: a.position.x + tdiv(nx * half, SCALE as int),
                    y: a.position.y + tdiv(ny * half, SCALE as int),
                },
                velocity: Vec2Model {
                    x: a.velocity.x + tdiv(dot_b * nx, SCALE as int) - tdiv(
                        dot_a * nx,
                        SCALE as int,
                    ),
                    y: a.velocity.y + tdiv(dot_b * ny, SCALE as int) - tdiv(
                        dot_a * ny,
                        SCALE as int,
                    ),
                },
                radius: a.radius,
                color: a.color,
                color_change_speed: a.color_change_speed,
                color_change_direction: a.color_change_direction,
            },
            ParticleModel {
                position: Vec2Model {
                    x: b.position.x - tdiv(nx * half, SCALE as int),
                    y: b.position.y - tdiv(ny * half, SCALE as int),
                },
                velocity: Vec2Model {
                    x: b.velocity.x + tdiv(dot_a * nx, SCALE as int) - tdiv(
                        dot_b * nx,
                        SCALE as int,
                    ),
                    y: b.velocity.y + tdiv(dot_a * ny, SCALE as int) - tdiv(
                        dot_b * ny,
                        SCALE as int,
                    ),
                },
                radius: b.radius,
                color: b.color,
                color_change_speed: b.color_change_speed,
                color_change_direction: b.color_change_direction,
            },
        )
    }
}

/// The particle after `n` advance steps against fixed bounds.
pub open spec fn advance_iter(p: ParticleModel, b: BoundsModel, n: nat) -> ParticleModel
    decreases n,
{
    if n == 0 {
        p
    } else {
        advance_spec(advance_iter(p, b, (n - 1) as nat), b)
    }
}

/// Across any number of advance steps, each color channel evolves exactly
/// as the one-channel drift iteration: the color animation is independent
/// of the kinematics and of the bounds.  Together with `lemma_drift_linear`
/// this pins the channel value after `n` undisturbed ticks to
/// `initial + n * speed * direction`.
pub proof fn lemma_advance_iter_color(p: ParticleModel, b: BoundsModel, n: nat)
    ensures
        advance_iter(p, b, n).color.red == drift_iter(
            p.color.red,
            p.color_change_speed.red,
            p.color_change_direction.red,
            n,
        ).0,
        advance_iter(p, b, n).color_change_direction.red == drift_iter(
            p.color.red,
            p.color_change_speed.red,
            p.color_change_direction.red,
            n,
        ).1,
        advance_iter(p, b, n).color.green == drift_iter(
            p.color.green,
            p.color_change_speed.green,
            p.color_change_direction.green,
            n,
        ).0,
        advance_iter(p, b, n).color_change_direction.green == drift_iter(
            p.color.green,
            p.color_change_speed.green,
            p.color_change_direction.green,
            n,
        ).1,
        advance_iter(p, b, n).color.blue == drift_iter(
            p.color.blue,
            p.color_change_speed.blue,
            p.color_change_direction.blue,
            n,
        ).0,
        advance_iter(p, b, n).color_change_direction.blue == drift_iter(
            p.color.blue,
            p.color_change_speed.blue,
            p.color_change_direction.blue,
            n,
        ).1,
        advance_iter(p, b, n).color_change_speed == p.color_change_speed,
    decreases n,
{
    if n > 0 {
        lemma_advance_iter_color(p, b, (n - 1) as nat);
    }
}

/// One collision conserves both componentwise sums exactly: the velocity
/// exchange and the positional correction of the pair cancel term by term,
/// truncation included.
pub proof fn lemma_collide_conserves_sums(a: ParticleModel, b: ParticleModel)
    ensures
        collide_spec(a, b).0.velocity.x + collide_spec(a, b).1.velocity.x == a.velocity.x
            + b.velocity.x,
        collide_spec(a, b).0.velocity.y + collide_spec(a, b).1.velocity.y == a.velocity.y
            + b.velocity.y,
        collide_spec(a, b).0.position.x + collide_spec(a, b).1.position.x == a.position.x
            + b.position.x,
        collide_spec(a, b).0.position.y + collide_spec(a, b).1.position.y == a.position.y
            + b.position.y,
{
}

/// The degenerate pair: two particles at the same position do not fault;
/// the fallback normal points along the x axis, so the pair separates by
/// twice the half-overlap, exactly, and the x velocity components swap.
pub proof fn lemma_identical_positions_separate(a: ParticleModel, b: ParticleModel)
    requires
        a.wf(),
        b.wf(),
        a.position == b.position,
    ensures
        collide_spec(a, b).0.position.x - collide_spec(a, b).1.position.x == 2 * tdiv(
            radii_sum(a, b),
            2,
        ),
        collide_spec(a, b).0.position.x - collide_spec(a, b).1.position.x >= radii_sum(a, b) - 1,
        collide_spec(a, b).0.position.y == a.position.y,
        collide_spec(a, b).1.position.y == a.position.y,
        collide_spec(a, b).0.velocity == (Vec2Model { x: b.velocity.x, y: a.velocity.y }),
        collide_spec(a, b).1.velocity == (Vec2Model { x: a.velocity.x, y: b.velocity.y }),
{
    let d2 = dist_sq(a.position, b.position);
    let rs = radii_sum(a, b);
    assert(d2 == 0);
    assert(0 < rs * rs) by (nonlinear_arith)
        requires
            2 <= rs,
    ;
    assert(overlapping(a, b));
    lemma_sqrt_floor_unique(0, 0);
    let half = tdiv(rs, 2);
    vstd::arithmetic::div_mod::lemma_div_pos_is_pos(rs, 2);
    lemma_half_doubled(rs);
    lemma_unit_scale_cancels(half);
    lemma_unit_scale_cancels(a.velocity.x);
    lemma_unit_scale_cancels(b.velocity.x);
    vstd::arithmetic::div_mod::lemma_div_of0(SCALE as int);
    assert(tdiv((SCALE as int) * half, SCALE as int) == half);
    assert(collide_spec(a, b).0.position.x == a.position.x + half);
    assert(collide_spec(a, b).1.position.x == b.position.x - half);
}

/// Twice the rounded-down half of `rs` misses `rs` by at most one.
proof fn lemma_half_doubled(rs: int)
    requires
        0 <= rs,
    ensures
        2 * (rs / 2) >= rs - 1,
{
    assert(rs == 2 * (rs / 2) + rs % 2) by (nonlinear_arith);
}

/// Scaling a value by the fixed-point unit and dividing it back returns it.
proof fn lemma_unit_scale_cancels(v: int)
    ensures
        tdiv(v * (SCALE as int), SCALE as int) == v,
{
    if v >= 0 {
        assert(v * (SCALE as int) >= 0 && v * (SCALE as int) == (SCALE as int) * v)
            by (nonlinear_arith)
            requires
                v >= 0,
        ;
        vstd::arithmetic::div_mod::lemma_div_multiples_vanish(v, SCALE as int);
    } else {
        assert(v * (SCALE as int) < 0 && -(v * (SCALE as int)) == (SCALE as int) * (-v))
            by (nonlinear_arith)
            requires
                v < 0,
        ;
        vstd::arithmetic::div_mod::lemma_div_multiples_vanish(-v, SCALE as int);
    }
}

/// The overlap test over squares agrees with the distance statement: the
/// pair overlaps exactly when the floor of the center distance is below the
/// radii sum.
pub proof fn lemma_overlapping_is_distance_below(a: ParticleModel, b: ParticleModel)
    requires
        a.wf(),
        b.wf(),
    ensures
        overlapping(a, b) <==> sqrt_floor(dist_sq(a.position, b.position)) < radii_sum(a, b),
{
    let d2 = dist_sq(a.position, b.position);
    let rs = radii_sum(a, b);
    assert((a.position.x - b.position.x) * (a.position.x - b.position.x) >= 0 && (a.position.y
        - b.position.y) * (a.position.y - b.position.y) >= 0) by (nonlinear_arith);
    lemma_sqrt_floor_exists(d2);
    let dist = sqrt_floor(d2);
    if d2 < rs * rs {
        assert(dist < rs) by (nonlinear_arith)
            requires
                0 <= dist,
                0 < rs,
                dist * dist <= d2,
                d2 < rs * rs,
        ;
    }
    if dist < rs {
        assert(d2 < rs * rs) by (nonlinear_arith)
            requires
                0 <= dist,
                dist < rs,
                d2 < (dist + 1) * (dist + 1),
        ;
    }
}

/// How far one collision resolution can move a pair: each position
/// component shifts by at most `MAX_RADIUS`, each velocity component grows
/// by at most a factor of five, and well-formedness is kept (the radius and
/// the color state are untouched).
#[verifier::rlimit(100)]
pub proof fn lemma_collide_spec_bounds(a: ParticleModel, b: ParticleModel, p_lim: int, v_lim: int)
    requires
        a.wf(),
        b.wf(),
        0 <= p_lim,
        0 <= v_lim,
        vec_within(a.position, p_lim),
        vec_within(b.position, p_lim),
        vec_within(a.velocity, v_lim),
        vec_within(b.velocity, v_lim),
    ensures
        collide_spec(a, b).0.wf(),
        collide_spec(a, b).1.wf(),
        vec_within(collide_spec(a, b).0.position, p_lim + MAX_RADIUS as int),
        vec_within(collide_spec(a, b).1.position, p_lim + MAX_RADIUS as int),
        vec_within(collide_spec(a, b).0.velocity, 5 * v_lim),
        vec_within(collide_spec(a, b).1.velocity, 5 * v_lim),
{
    if overlapping(a, b) {
        let dx = a.position.x - b.position.x;
        let dy = a.position.y - b.position.y;
        let d2 = dist_sq(a.position, b.position);
        let rs = radii_sum(a, b);
        assert(dx * dx >= 0 && dy * dy >= 0) by (nonlinear_arith);
        lemma_sqrt_floor_exists(d2);
        let dist = sqrt_floor(d2);
        assert(dist < rs) by (nonlinear_arith)
            requires
                0 <= dist,
                0 < rs,
                dist * dist <= d2,
                d2 < rs * rs,
        ;
        let nx = if dist == 0 { SCALE as int } else { tdiv(dx * SCALE, dist) };
        let ny = if dist == 0 { 0int } else { tdiv(dy * SCALE, dist) };
        if dist != 0 {
            let dxa = if dx >= 0 { dx } else { -dx };
            let dya = if dy >= 0 { dy } else { -dy };
            assert(dxa * dxa == dx * dx && dya * dya == dy * dy) by (nonlinear_arith)
                requires
                    dxa == dx || dxa == -dx,
                    dya == dy || dya == -dy,
            ;
            lemma_sqrt_floor_bounds_component(d2, dist, dxa);
            lemma_sqrt_floor_bounds_component(d2, dist, dya);
            assert(-((SCALE as int) * dist) <= dx * SCALE <= (SCALE as int) * dist && -((
            SCALE as int) * dist) <= dy * SCALE <= (SCALE as int) * dist) by (nonlinear_arith)
                requires
                    -dist <= dx <= dist,
                    -dist <= dy <= dist,
                    0 <= dist,
            ;
            lemma_tdiv_bound(dx * SCALE, dist, SCALE as int);
            lemma_tdiv_bound(dy * SCALE, dist, SCALE as int);
        }
        assert(-(SCALE as int) <= nx <= SCALE as int && -(SCALE as int) <= ny <= SCALE as int);
        assert(-(v_lim * (SCALE as int)) <= a.velocity.x * nx <= v_lim * (SCALE as int) && -(v_lim
            * (SCALE as int)) <= a.velocity.y * ny <= v_lim * (SCALE as int) && -(v_lim * (
        SCALE as int)) <= b.velocity.x * nx <= v_lim * (SCALE as int) && -(v_lim * (SCALE as int))
            <= b.velocity.y * ny <= v_lim * (SCALE as int)) by (nonlinear_arith)
            requires
                -v_lim <= a.velocity.x <= v_lim,
                -v_lim <= a.velocity.y <= v_lim,
                -v_lim <= b.velocity.x <= v_lim,
                -v_lim <= b.velocity.y <= v_lim,
                -(SCALE as int) <= nx <= SCALE as int,
                -(SCALE as int) <= ny <= SCALE as int,
                0 <= v_lim,
        ;
        let dot_a = tdiv(a.velocity.x * nx + a.velocity.y * ny, SCALE as int);
        let dot_b = tdiv(b.velocity.x * nx + b.velocity.y * ny, SCALE as int);
        lemma_tdiv_bound(a.velocity.x * nx + a.velocity.y * ny, SCALE as int, 2 * v_lim);
        lemma_tdiv_bound(b.velocity.x * nx + b.velocity.y * ny, SCALE as int, 2 * v_lim);
        assert(-(2 * v_lim * (SCALE as int)) <= dot_a * nx <= 2 * v_lim * (SCALE as int) && -(2
            * v_lim * (SCALE as int)) <= dot_a * ny <= 2 * v_lim * (SCALE as int) && -(2 * v_lim * (
        SCALE as int)) <= dot_b * nx <= 2 * v_lim * (SCALE as int) && -(2 * v_lim * (SCALE as int))
            <= dot_b * ny <= 2 * v_lim * (SCALE as int)) by (nonlinear_arith)
            requires
                -(2 * v_lim) <= dot_a <= 2 * v_lim,
                -(2 * v_lim) <= dot_b <= 2 * v_lim,
                -(SCALE as int) <= nx <= SCALE as int,
                -(SCALE as int) <= ny <= SCALE as int,
                0 <= v_lim,
        ;
        lemma_tdiv_bound(dot_a * nx, SCALE as int, 2 * v_lim);
        lemma_tdiv_bound(dot_a * ny, SCALE as int, 2 * v_lim);
        lemma_tdiv_bound(dot_b * nx, SCALE as int, 2 * v_lim);
        lemma_tdiv_bound(dot_b * ny, SCALE as int, 2 * v_lim);
        let half = tdiv(rs - dist, 2);
        lemma_tdiv_bound(rs - dist, 2, MAX_RADIUS as int);
        assert(-((MAX_RADIUS as int) * (SCALE as int)) <= nx * half <= (MAX_RADIUS as int) * (
        SCALE as int) && -((MAX_RADIUS as int) * (SCALE as int)) <= ny * half <= (MAX_RADIUS as int)
            * (SCALE as int)) by (nonlinear_arith)
            requires
                -(MAX_RADIUS as int) <= half <= MAX_RADIUS as int,
                -(SCALE as int) <= nx <= SCALE as int,
                -(SCALE as int) <= ny <= SCALE as int,
        ;
        lemma_tdiv_bound(nx * half, SCALE as int, MAX_RADIUS as int);
        lemma_tdiv_bound(ny * half, SCALE as int, MAX_RADIUS as int);
    }
}

impl Particle {
    pub fn new(
        position: Vec2,
        velocity: Vec2,
        radius: i64,
        color: Color,
        color_change_speed: Color,
        color_change_direction: Color,
    ) -> (p: Particle)
        requires
            0 < radius <= MAX_RADIUS,
            color_wf(color@, color_change_speed@, color_change_direction@),
        ensures
            p@ == (ParticleModel {
                position: position@,
                velocity: velocity@,
                radius: radius as int,
                color: color@,
                color_change_speed: color_change_speed@,
                color_change_direction: color_change_direction@,
            }),
            p@.wf(),
    {
        Particle { position, velocity, radius, color, color_change_speed, color_change_direction }
    }

    /// The radius of the glow disk drawn behind the particle: one and a
    /// half times the particle's own radius.
    pub fn glow_radius(&self) -> (r: i64)
        requires
            0 < self@.radius <= MAX_RADIUS,
        ensures
            r == 3 * self@.radius / 2,
    {
        self.radius * 3 / 2
    }

    /// One simulation step for this particle alone: integrate the position,
    /// reflect the velocity off the bounds, drift the color.  Reflection
    /// negates a velocity component but does not clamp the position back
    /// inside the bounds; a fast particle may sit outside for a tick.
    pub fn advance(&mut self, bounds: &Bounds)
        requires
            old(self)@.wf(),
            old(self)@.fits(),
        ensures
            final(self)@ == advance_spec(old(self)@, bounds@),
            final(self)@.wf(),
            final(self)@.position == vadd(old(self)@.position, old(self)@.velocity),
            final(self)@.velocity.x == if final(self)@.position.x < bounds@.left
                || final(self)@.position.x > bounds@.right {
                -old(self)@.velocity.x
            } else {
                old(self)@.velocity.x
            },
            final(self)@.velocity.y == if final(self)@.position.y < bounds@.bottom
                || final(self)@.position.y > bounds@.top {
                -old(self)@.velocity.y
            } else {
                old(self)@.velocity.y
            },
            final(self)@.color == drift_color(
                old(self)@.color,
                old(self)@.color_change_speed,
                old(self)@.color_change_direction,
            ),
            final(self)@.color_change_direction == drift_color_dir(
                old(self)@.color,
                old(self)@.color_change_speed,
                old(self)@.color_change_direction,
            ),
            final(self)@.radius == old(self)@.radius,
            final(self)@.color_change_speed == old(self)@.color_change_speed,
    {
        self.position.x = self.position.x + self.velocity.x;
        self.position.y = self.position.y + self.velocity.y;

        if self.position.x < bounds.left || self.position.x > bounds.right {
            self.velocity.x = -self.velocity.x;
        }
        if self.position.y < bounds.bottom || self.position.y > bounds.top {
            self.velocity.y = -self.velocity.y;
        }

        proof {
            let c = old(self)@.color;
            let s = old(self)@.color_change_speed;
            let d = old(self)@.color_change_direction;
            assert(s.red * d.red == if d.red == 1 { s.red } else { -s.red }) by (nonlinear_arith)
                requires
                    d.red == 1 || d.red == -1,
            ;
            assert(s.green * d.green == if d.green == 1 { s.green } else { -s.green })
                by (nonlinear_arith)
                requires
                    d.green == 1 || d.green == -1,
            ;
            assert(s.blue * d.blue == if d.blue == 1 { s.blue } else { -s.blue })
                by (nonlinear_arith)
                requires
                    d.blue == 1 || d.blue == -1,
            ;
            lemma_advance_wf(old(self)@, bounds@);
        }

        self.color.red = self.color.red + self.color_change_speed.red
            * self.color_change_direction.red;
        self.color.green = self.color.green + self.color_change_speed.green
            * self.color_change_direction.green;
        self.color.blue = self.color.blue + self.color_change_speed.blue
            * self.color_change_direction.blue;

        if self.color.red <= 0 || self.color.red >= SCALE {
            self.color_change_direction.red = -self.color_change_direction.red;
        }
        if self.color.green <= 0 || self.color.green >= SCALE {
            self.color_change_direction.green = -self.color_change_direction.green;
        }
        if self.color.blue <= 0 || self.color.blue >= SCALE {
            self.color_change_direction.blue = -self.color_change_direction.blue;
        }
    }

    /// Elastic collision response between this particle and another one.
    /// A non-overlapping pair is left unchanged; an overlapping pair
    /// exchanges the velocity components along the line of centers and the
    /// particles are pushed apart by half the overlap each.  Coinciding
    /// centers take a fallback normal instead of faulting.
    #[verifier::rlimit(100)]
    pub fn resolve_collision(&mut self, other: &mut Particle)
        requires
            old(self)@.wf(),
            old(other)@.wf(),
            old(self)@.fits(),
            old(other)@.fits(),
        ensures
            final(self)@ == collide_spec(old(self)@, old(other)@).0,
            final(other)@ == collide_spec(old(self)@, old(other)@).1,
            !overlapping(old(self)@, old(other)@) ==> final(self)@ == old(self)@
                && final(other)@ == old(other)@,
            final(self)@.wf(),
            final(other)@.wf(),
    {
        let ghost am = old(self)@;
        let ghost bm = old(other)@;

        let dx: i128 = self.position.x as i128 - other.position.x as i128;
        let dy: i128 = self.position.y as i128 - other.position.y as i128;
        proof {
            assert(dx * dx + dy * dy < 21267647932558653966460912964485513216int && dx * dx >= 0
                && dy * dy >= 0) by (nonlinear_arith)
                requires
                    -2305843009213693952int <= dx <= 2305843009213693952int,
                    -2305843009213693952int <= dy <= 2305843009213693952int,
            ;
        }
        let d2i: i128 = dx * dx + dy * dy;
        let d2: u128 = d2i as u128;
        let rs: i64 = self.radius + other.radius;
        proof {
            assert((rs as u128) * (rs as u128) <= 4000000000000000000) by (nonlinear_arith)
                requires
                    0 < rs as u128 <= 2000000000,
            ;
        }
        let rs2: u128 = (rs as u128) * (rs as u128);
        proof {
            assert(d2 as int == dist_sq(am.position, bm.position));
            assert(rs2 as int == radii_sum(am, bm) * radii_sum(am, bm));
        }
        if d2 >= rs2 {
            proof {
                assert(!overlapping(am, bm));
            }
            return;
        }
        proof {
            assert(overlapping(am, bm));
        }
        let dist64: u64 = isqrt(d2);
        let dist: i128 = dist64 as i128;
        proof {
            assert(is_sqrt_floor(d2 as int, dist as int));
            assert(dist as int == sqrt_floor(dist_sq(am.position, bm.position)));
            assert(dist < rs as i128) by (nonlinear_arith)
                requires
                    0 <= dist,
                    0 < rs as i128,
                    (dist as int) * (dist as int) <= d2 as int,
                    (d2 as int) < (rs as int) * (rs as int),
            ;
        }
        let nx: i128;
        let ny: i128;
        if dist64 == 0 {
            nx = SCALE as i128;
            ny = 0;
        } else {
            let ghost dxa: int = if dx >= 0 {
                dx as int
            } else {
                -(dx as int)
            };
            let ghost dya: int = if dy >= 0 {
                dy as int
            } else {
                -(dy as int)
            };
            proof {
                assert(dxa * dxa == (dx as int) * (dx as int) && dya * dya == (dy as int) * (
                dy as int)) by (nonlinear_arith)
                    requires
                        dxa == dx as int || dxa == -(dx as int),
                        dya == dy as int || dya == -(dy as int),
                ;
                lemma_sqrt_floor_bounds_component(d2 as int, dist as int, dxa);
                lemma_sqrt_floor_bounds_component(d2 as int, dist as int, dya);
                assert(-((SCALE as int) * (dist as int)) <= (dx as int) * (SCALE as int) <= (
                SCALE as int) * (dist as int) && -((SCALE as int) * (dist as int)) <= (dy as int) * (
                SCALE as int) <= (SCALE as int) * (dist as int)) by (nonlinear_arith)
                    requires
                        -(dist as int) <= dx as int <= dist as int,
                        -(dist as int) <= dy as int <= dist as int,
                        0 <= dist,
            ;
            }
            nx = tdiv128(dx * (SCALE as i128), dist);
            ny = tdiv128(dy * (SCALE as i128), dist);
            proof {
                lemma_tdiv_bound((dx as int) * (SCALE as int), dist as int, SCALE as int);
                lemma_tdiv_bound((dy as int) * (SCALE as int), dist as int, SCALE as int);
            }
        }
        proof {
            assert(-(SCALE as int) <= nx as int <= SCALE as int);
            assert(-(SCALE as int) <= ny as int <= SCALE as int);
        }
        let svx: i128 = self.velocity.x as i128;
        let svy: i128 = self.velocity.y as i128;
        let ovx: i128 = other.velocity.x as i128;
        let ovy: i128 = other.velocity.y as i128;
        proof {
            assert(-((MAX_COORD as int) * (SCALE as int)) <= svx * nx <= (MAX_COORD as int) * (
            SCALE as int) && -((MAX_COORD as int) * (SCALE as int)) <= svy * ny <= (
            MAX_COORD as int) * (SCALE as int) && -((MAX_COORD as int) * (SCALE as int)) <= ovx * nx
                <= (MAX_COORD as int) * (SCALE as int) && -((MAX_COORD as int) * (SCALE as int))
                <= ovy * ny <= (MAX_COORD as int) * (SCALE as int)) by (nonlinear_arith)
                requires
                    -(MAX_COORD as int) <= svx <= MAX_COORD as int,
                    -(MAX_COORD as int) <= svy <= MAX_COORD as int,
                    -(MAX_COORD as int) <= ovx <= MAX_COORD as int,
                    -(MAX_COORD as int) <= ovy <= MAX_COORD as int,
                    -(SCALE as int) <= nx <= SCALE as int,
                    -(SCALE as int) <= ny <= SCALE as int,
            ;
        }
        let dot_s: i128 = tdiv128(svx * nx + svy * ny, SCALE as i128);
        let dot_o: i128 = tdiv128(ovx * nx + ovy * ny, SCALE as i128);
        proof {
            lemma_tdiv_bound(svx * nx + svy * ny, SCALE as int, 2 * (MAX_COORD as int));
            lemma_tdiv_bound(ovx * nx + ovy * ny, SCALE as int, 2 * (MAX_COORD as int));
            assert(-(2 * (MAX_COORD as int) * (SCALE as int)) <= dot_s * nx <= 2 * (
            MAX_COORD as int) * (SCALE as int) && -(2 * (MAX_COORD as int) * (SCALE as int))
                <= dot_s * ny <= 2 * (MAX_COORD as int) * (SCALE as int) && -(2 * (MAX_COORD as int)
                * (SCALE as int)) <= dot_o * nx <= 2 * (MAX_COORD as int) * (SCALE as int) && -(2 * (
            MAX_COORD as int) * (SCALE as int)) <= dot_o * ny <= 2 * (MAX_COORD as int) * (
            SCALE as int)) by (nonlinear_arith)
                requires
                    -(2 * (MAX_COORD as int)) <= dot_s <= 2 * (MAX_COORD as int),
                    -(2 * (MAX_COORD as int)) <= dot_o <= 2 * (MAX_COORD as int),
                    -(SCALE as int) <= nx <= SCALE as int,
                    -(SCALE as int) <= ny <= SCALE as int,
            ;
        }
        let a_nx: i128 = tdiv128(dot_s * nx, SCALE as i128);
        let a_ny: i128 = tdiv128(dot_s * ny, SCALE as i128);
        let b_nx: i128 = tdiv128(dot_o * nx, SCALE as i128);
        let b_ny: i128 = tdiv128(dot_o * ny, SCALE as i128);
        proof {
            lemma_tdiv_bound(dot_s * nx, SCALE as int, 2 * (MAX_COORD as int));
            lemma_tdiv_bound(dot_s * ny, SCALE as int, 2 * (MAX_COORD as int));
            lemma_tdiv_bound(dot_o * nx, SCALE as int, 2 * (MAX_COORD as int));
            lemma_tdiv_bound(dot_o * ny, SCALE as int, 2 * (MAX_COORD as int));
        }
        let new_sx: i128 = svx + b_nx - a_nx;
        let new_sy: i128 = svy + b_ny - a_ny;
        let new_ox: i128 = ovx + a_nx - b_nx;
        let new_oy: i128 = ovy + a_ny - b_ny;
        self.velocity.x = new_sx as i64;
        self.velocity.y = new_sy as i64;
        other.velocity.x = new_ox as i64;
        other.velocity.y = new_oy as i64;
        let overlap: i128 = rs as i128 - dist;
        let half: i128 = tdiv128(overlap, 2);
        proof {
            lemma_tdiv_bound(overlap as int, 2, MAX_RADIUS as int);
            assert(-((MAX_RADIUS as int) * (SCALE as int)) <= nx * half <= (MAX_RADIUS as int) * (
            SCALE as int) && -((MAX_RADIUS as int) * (SCALE as int)) <= ny * half <= (
            MAX_RADIUS as int) * (SCALE as int)) by (nonlinear_arith)
                requires
                    -(MAX_RADIUS as int) <= half <= MAX_RADIUS as int,
                    -(SCALE as int) <= nx <= SCALE as int,
                    -(SCALE as int) <= ny <= SCALE as int,
            ;
        }
        let cx: i128 = tdiv128(nx * half, SCALE as i128);
        let cy: i128 = tdiv128(ny * half, SCALE as i128);
        proof {
            lemma_tdiv_bound(nx * half, SCALE as int, MAX_RADIUS as int);
            lemma_tdiv_bound(ny * half, SCALE as int, MAX_RADIUS as int);
        }
        self.position.x = (self.position.x as i128 + cx) as i64;
        self.position.y = (self.position.y as i128 + cy) as i64;
        other.position.x = (other.position.x as i128 - cx) as i64;
        other.position.y = (other.position.y as i128 - cy) as i64;
        proof {
            let r = collide_spec(am, bm);
            assert(self@.position == r.0.position);
            assert(self@.velocity == r.0.velocity);
            assert(other@.position == r.1.position);
            assert(other@.velocity == r.1.velocity);
            assert(self@ == r.0);
            assert(other@ == r.1);
        }
    }
}

} // verus!

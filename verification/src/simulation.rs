//! The simulation: the ordered particle collection and the per-tick step.
//!
//! A tick has two phases with a barrier between them.  First every particle
//! is advanced independently (the particles do not read one another, so the
//! work is farmed out to a thread pool); then every unordered pair `(i, j)`
//! with `i < j` is collision-resolved sequentially, in ascending `i` then
//! ascending `j` order, in a single pass.  The sweep order matters: each
//! resolution may move both members of the pair, so later pairs see the
//! corrections of earlier ones, and the sweep is deliberately not re-run to
//! a fixed point.

use vstd::prelude::*;
use rayon::iter::IntoParallelRefMutIterator;
use rayon::iter::ParallelIterator;
use crate::MAX_COORD;
use crate::MAX_RADIUS;
use crate::geometry::Bounds;
use crate::geometry::BoundsModel;
use crate::geometry::vec_within;
use crate::math::lemma_pow5_mono;
use crate::math::lemma_pow5_pos;
use crate::math::pow5;
use crate::particle::Particle;
use crate::particle::ParticleModel;
use crate::particle::advance_spec;
use crate::particle::collide_spec;
use crate::particle::lemma_advance_wf;
use crate::particle::lemma_collide_spec_bounds;

verus! {

/// Most particles a scene may hold.  The bound keeps the collision sweep's
/// worst-case velocity growth (a factor of five per resolved pair) inside
/// `i64` arithmetic.
pub const MAX_PARTICLES: usize = 6;

/// Largest position-component magnitude a particle may have when a tick
/// starts.
pub const TICK_POS_LIMIT: i64 = 1_000_000_000_000;

/// Largest velocity-component magnitude a particle may have when a tick
/// starts.
pub const TICK_VEL_LIMIT: i64 = 30_000_000;

/// Largest position-component magnitude admitted when the collision sweep
/// starts; one advance step on top of the tick entry bound stays below it.
pub const SWEEP_POS_LIMIT: i64 = 2_000_000_000_000;

/// All particles after the advance phase.
pub open spec fn advance_all_spec(s: Seq<ParticleModel>, b: BoundsModel) -> Seq<ParticleModel> {
    s.map_values(|p: ParticleModel| advance_spec(p, b))
}

/// The collection after the pair `(i, j)` has been collision-resolved.
pub open spec fn pair_resolved(s: Seq<ParticleModel>, i: int, j: int) -> Seq<ParticleModel> {
    s.update(i, collide_spec(s[i], s[j]).0).update(j, collide_spec(s[i], s[j]).1)
}

/// The collection after the pairs `(i, j), (i, j + 1), ...` up to the end
/// of the collection have been resolved in ascending `j` order.
pub open spec fn sweep_pairs_from(s: Seq<ParticleModel>, i: int, j: int) -> Seq<ParticleModel>
    decreases s.len() - j,
{
    if j >= s.len() || !(0 <= i < j) {
        s
    } else {
        sweep_pairs_from(pair_resolved(s, i, j), i, j + 1)
    }
}

/// The collection after the full sweep for first indices `i, i + 1, ...`
/// up to `len`, each first index paired with every later second index.
pub open spec fn sweep_rounds(s: Seq<ParticleModel>, len: int, i: int) -> Seq<ParticleModel>
    decreases len - i,
{
    if i >= len {
        s
    } else {
        sweep_rounds(sweep_pairs_from(s, i, i + 1), len, i + 1)
    }
}

/// The single-pass, ascending-order collision sweep over the whole
/// collection: every unordered pair `(i, j)` with `i < j`, in ascending `i`
/// then ascending `j` order.
pub open spec fn sweep(s: Seq<ParticleModel>) -> Seq<ParticleModel> {
    sweep_rounds(s, s.len() as int, 0)
}

/// One whole tick: the advance phase, then the collision sweep.
pub open spec fn tick_spec(s: Seq<ParticleModel>, b: BoundsModel) -> Seq<ParticleModel> {
    sweep(advance_all_spec(s, b))
}

/// Number of unordered pairs still to resolve when the sweep's next first
/// index is `i`.
pub open spec fn rem_pairs(len: int, i: int) -> int
    decreases len - i,
{
    if i >= len {
        0
    } else {
        (len - i - 1) + rem_pairs(len, i + 1)
    }
}

pub proof fn lemma_rem_pairs_nonneg(len: int, i: int)
    ensures
        rem_pairs(len, i) >= 0,
    decreases len - i,
{
    if i < len {
        lemma_rem_pairs_nonneg(len, i + 1);
    }
}

/// The remaining-pair count in closed form: `2 * rem_pairs(len, i)` is
/// `(len - i) * (len - i - 1)`.
pub proof fn lemma_rem_pairs_closed(len: int, i: int)
    requires
        0 <= i <= len,
    ensures
        2 * rem_pairs(len, i) == (len - i) * (len - i - 1),
    decreases len - i,
{
    if i < len {
        lemma_rem_pairs_closed(len, i + 1);
        assert(2 * ((len - i - 1) + rem_pairs(len, i + 1)) == (len - i) * (len - i - 1))
            by (nonlinear_arith)
            requires
                2 * rem_pairs(len, i + 1) == (len - i - 1) * (len - i - 2),
        ;
    } else {
        assert((len - i) * (len - i - 1) == 0) by (nonlinear_arith)
            requires
                len == i,
        ;
    }
}

pub proof fn lemma_sweep_pairs_from_len(s: Seq<ParticleModel>, i: int, j: int)
    ensures
        sweep_pairs_from(s, i, j).len() == s.len(),
    decreases s.len() - j,
{
    if !(j >= s.len() || !(0 <= i < j)) {
        lemma_sweep_pairs_from_len(pair_resolved(s, i, j), i, j + 1);
    }
}

pub proof fn lemma_sweep_rounds_len(s: Seq<ParticleModel>, len: int, i: int)
    ensures
        sweep_rounds(s, len, i).len() == s.len(),
    decreases len - i,
{
    if i < len {
        lemma_sweep_pairs_from_len(s, i, i + 1);
        lemma_sweep_rounds_len(sweep_pairs_from(s, i, i + 1), len, i + 1);
    }
}

/// A tick never creates or destroys a particle: the collection size is
/// fixed for the life of the run.
pub proof fn lemma_tick_preserves_len(s: Seq<ParticleModel>, b: BoundsModel)
    ensures
        tick_spec(s, b).len() == s.len(),
{
    lemma_sweep_rounds_len(advance_all_spec(s, b), advance_all_spec(s, b).len() as int, 0);
}

/// A collection fit to start a tick: few enough particles, every particle
/// well formed, positions and velocities inside the tick entry bounds.
pub open spec fn tick_ready(s: Seq<ParticleModel>) -> bool {
    &&& s.len() <= MAX_PARTICLES
    &&& forall|k: int| 0 <= k < s.len() ==> (#[trigger] s[k]).wf()
    &&& forall|k: int|
        0 <= k < s.len() ==> vec_within((#[trigger] s[k]).position, TICK_POS_LIMIT as int)
    &&& forall|k: int|
        0 <= k < s.len() ==> vec_within((#[trigger] s[k]).velocity, TICK_VEL_LIMIT as int)
}

/// A collection fit to start the collision sweep.
pub open spec fn sweep_ready(s: Seq<ParticleModel>) -> bool {
    &&& s.len() <= MAX_PARTICLES
    &&& forall|k: int| 0 <= k < s.len() ==> (#[trigger] s[k]).wf()
    &&& forall|k: int|
        0 <= k < s.len() ==> vec_within((#[trigger] s[k]).position, SWEEP_POS_LIMIT as int)
    &&& forall|k: int|
        0 <= k < s.len() ==> vec_within((#[trigger] s[k]).velocity, TICK_VEL_LIMIT as int)
}

/// The simulation: the ordered collection of particles.  The order is the
/// collision-sweep precedence and is stable within a run.
pub struct Simulation {
    pub particles: Vec<Particle>,
}

impl View for Simulation {
    type V = Seq<ParticleModel>;

    open spec fn view(&self) -> Seq<ParticleModel> {
        self.particles@.map_values(|p: Particle| p@)
    }
}

/// Relies on rayon's `par_iter_mut` / `for_each`: the closure is applied to
/// each element of the vector exactly once, in parallel; by the contract of
/// `Particle::advance`, each element is left at the value `advance_spec`
/// gives it.
#[verifier::external_body]
fn advance_all_particles(particles: &mut Vec<Particle>, bounds: &Bounds)
    requires
        forall|k: int|
            0 <= k < old(particles)@.len() ==> (#[trigger] old(particles)@[k])@.wf() && old(
                particles,
            )@[k]@.fits(),
    ensures
        final(particles)@.len() == old(particles)@.len(),
        forall|k: int|
            0 <= k < old(particles)@.len() ==> (#[trigger] final(particles)@[k])@ == advance_spec(
                old(particles)@[k]@,
                bounds@,
            ),
{
    particles.par_iter_mut().for_each(|p| p.advance(bounds));
}

impl Simulation {
    pub fn new(particles: Vec<Particle>) -> (s: Simulation)
        ensures
            s@ == particles@.map_values(|p: Particle| p@),
    {
        Simulation { particles }
    }

    /// First phase of a tick: advance every particle independently.  The
    /// calls do not read one another's state, so they run in any order or
    /// concurrently; this phase must complete before the collision sweep
    /// starts.
    pub fn advance_all(&mut self, bounds: &Bounds)
        requires
            forall|k: int|
                0 <= k < old(self)@.len() ==> (#[trigger] old(self)@[k]).wf() && old(
                    self,
                )@[k].fits(),
        ensures
            final(self)@ == advance_all_spec(old(self)@, bounds@),
            final(self)@.len() == old(self)@.len(),
    {
        proof {
            assert(forall|k: int|
                0 <= k < self.particles@.len() ==> (#[trigger] self.particles@[k])@ == self@[k]);
        }
        advance_all_particles(&mut self.particles, bounds);
        proof {
            assert(self@ =~= advance_all_spec(old(self)@, bounds@));
        }
    }

    /// Second phase of a tick: resolve every unordered pair `(i, j)` with
    /// `i < j`, in ascending `i` then ascending `j` order, in one pass.
    pub fn resolve_all_collisions(&mut self)
        requires
            sweep_ready(old(self)@),
        ensures
            final(self)@ == sweep(old(self)@),
            final(self)@.len() == old(self)@.len(),
    {
        let ghost orig = self@;
        let n = self.particles.len();
        let ghost mut pb: int = SWEEP_POS_LIMIT as int;
        let ghost mut vb: int = TICK_VEL_LIMIT as int;
        proof {
            lemma_rem_pairs_nonneg(n as int, 0);
            lemma_rem_pairs_closed(n as int, 0);
            assert((n as int) * (n as int - 1) <= 30) by (nonlinear_arith)
                requires
                    0 <= n as int <= 6,
            ;
            lemma_pow5_mono(rem_pairs(n as int, 0) as nat, 15);
            assert(pow5(15) == 30517578125) by {
                reveal_with_fuel(pow5, 16);
            }
            assert(vb * pow5(rem_pairs(n as int, 0) as nat) <= vb * pow5(15)) by (nonlinear_arith)
                requires
                    0 <= vb,
                    pow5(rem_pairs(n as int, 0) as nat) <= pow5(15),
            ;
        }
        let mut i: usize = 0;
        while i < n
            invariant
                n == self.particles.len(),
                self@.len() == n as int,
                i <= n <= MAX_PARTICLES,
                0 <= pb,
                0 <= vb,
                vb * pow5(rem_pairs(n as int, i as int) as nat) <= MAX_COORD as int,
                pb + (MAX_RADIUS as int) * rem_pairs(n as int, i as int) <= MAX_COORD as int,
                forall|k: int| 0 <= k < self@.len() ==> (#[trigger] self@[k]).wf(),
                forall|k: int| 0 <= k < self@.len() ==> vec_within((#[trigger] self@[k]).position, pb),
                forall|k: int| 0 <= k < self@.len() ==> vec_within((#[trigger] self@[k]).velocity, vb),
                sweep(orig) == sweep_rounds(self@, n as int, i as int),
            decreases n - i,
        {
            let mut j: usize = i + 1;
            proof {
                lemma_rem_pairs_nonneg(n as int, i as int + 1);
            }
            while j < n
                invariant
                    n == self.particles.len(),
                    self@.len() == n as int,
                    i < n <= MAX_PARTICLES,
                    i + 1 <= j <= n,
                    0 <= pb,
                    0 <= vb,
                    rem_pairs(n as int, i as int + 1) >= 0,
                    vb * pow5(((n as int - j as int) + rem_pairs(n as int, i as int + 1)) as nat)
                        <= MAX_COORD as int,
                    pb + (MAX_RADIUS as int) * ((n as int - j as int) + rem_pairs(
                        n as int,
                        i as int + 1,
                    )) <= MAX_COORD as int,
                    forall|k: int| 0 <= k < self@.len() ==> (#[trigger] self@[k]).wf(),
                    forall|k: int|
                        0 <= k < self@.len() ==> vec_within((#[trigger] self@[k]).position, pb),
                    forall|k: int|
                        0 <= k < self@.len() ==> vec_within((#[trigger] self@[k]).velocity, vb),
                    sweep(orig) == sweep_rounds(
                        sweep_pairs_from(self@, i as int, j as int),
                        n as int,
                        i as int + 1,
                    ),
                decreases n - j,
            {
                let ghost pre = self@;
                let ghost r = (n as int - j as int) + rem_pairs(n as int, i as int + 1);
                proof {
                    lemma_pow5_pos(r as nat);
                    assert(vb <= vb * pow5(r as nat)) by (nonlinear_arith)
                        requires
                            0 <= vb,
                            1 <= pow5(r as nat),
                    ;
                }
                let mut a: Particle = self.particles[i];
                let mut b: Particle = self.particles[j];
                proof {
                    assert(a@ == pre[i as int]);
                    assert(b@ == pre[j as int]);
                }
                a.resolve_collision(&mut b);
                self.particles.set(i, a);
                self.particles.set(j, b);
                proof {
                    lemma_collide_spec_bounds(pre[i as int], pre[j as int], pb, vb);
                    assert(self@ =~= pair_resolved(pre, i as int, j as int));
                    assert(sweep_pairs_from(pre, i as int, j as int) == sweep_pairs_from(
                        self@,
                        i as int,
                        j as int + 1,
                    ));
                    assert(pow5(r as nat) == 5 * pow5((r - 1) as nat));
                    assert((5 * vb) * pow5((r - 1) as nat) == vb * pow5(r as nat))
                        by (nonlinear_arith)
                        requires
                            pow5(r as nat) == 5 * pow5((r - 1) as nat),
                    ;
                    pb = pb + MAX_RADIUS as int;
                    vb = vb * 5;
                }
                j = j + 1;
            }
            proof {
                assert(sweep_pairs_from(self@, i as int, n as int) == self@);
            }
            i = i + 1;
        }
        proof {
            assert(sweep_rounds(self@, n as int, n as int) == self@);
        }
    }

    /// One whole tick: advance every particle, then run the collision
    /// sweep.  The advance phase completes before the sweep starts.
    pub fn tick(&mut self, bounds: &Bounds)
        requires
            tick_ready(old(self)@),
        ensures
            final(self)@ == tick_spec(old(self)@, bounds@),
            final(self)@.len() == old(self)@.len(),
    {
        proof {
            assert forall|k: int| 0 <= k < self@.len() implies (#[trigger] self@[k]).wf()
                && self@[k].fits() by {
                assert(self@[k].wf());
                assert(vec_within(self@[k].position, TICK_POS_LIMIT as int));
                assert(vec_within(self@[k].velocity, TICK_VEL_LIMIT as int));
            }
        }
        self.advance_all(bounds);
        proof {
            let mid = advance_all_spec(old(self)@, bounds@);
            assert forall|k: int| 0 <= k < mid.len() implies (#[trigger] mid[k]).wf() && vec_within(
                mid[k].position,
                SWEEP_POS_LIMIT as int,
            ) && vec_within(mid[k].velocity, TICK_VEL_LIMIT as int) by {
                assert(mid[k] == advance_spec(old(self)@[k], bounds@));
                assert(old(self)@[k].wf());
                assert(vec_within(old(self)@[k].position, TICK_POS_LIMIT as int));
                assert(vec_within(old(self)@[k].velocity, TICK_VEL_LIMIT as int));
                lemma_advance_wf(old(self)@[k], bounds@);
            }
            assert(sweep_ready(self@));
        }
        self.resolve_all_collisions();
        proof {
            lemma_tick_preserves_len(old(self)@, bounds@);
        }
    }
}

} // verus!

//! The simulation: the particle set, its time step and the stepping rules.
use vstd::prelude::*;
use crate::constants::{MAX_X, MAX_Y, MIN_X, MIN_Y};
use crate::particle::{Instance, Particle};
use crate::quadtree::{Node, QuadTree};
use crate::scalar::{ONE, Scalar, Vec2, clamp, fixed_mul, floor_div, fmul, int_sqrt, isqrt,
    magnitude2, norm2, quotient, sat_add, sat_div, sat_sub, saturate, wide_mul};
use crate::traversal::QuadTreeIter;

verus! {

/// What `current` becomes when it takes `lesser` in. The radius grows by a
/// tenth of the lesser radius, the mass by the lesser mass times the radius
/// so grown, and the velocity becomes the sum of the two momenta over the
/// mass of `greater`, the particle as it was when the pair was found.
pub open spec fn absorbed(current: Particle, greater: Particle, lesser: Particle) -> Particle {
    let radius = clamp(current.radius + lesser.radius / 10);
    Particle {
        radius: radius as i64,
        mass: clamp(current.mass + fmul(lesser.mass as int, radius)) as i64,
        velocity: Vec2 {
            x: clamp(
                quotient(
                    greater.mass * greater.velocity.x + lesser.mass * lesser.velocity.x,
                    greater.mass as int,
                ),
            ) as i64,
            y: clamp(
                quotient(
                    greater.mass * greater.velocity.y + lesser.mass * lesser.velocity.y,
                    greater.mass as int,
                ),
            ) as i64,
        },
        ..current
    }
}

/// The particles of `s` whose identifier is not `id`, in their order.
pub open spec fn without_id(s: Seq<Particle>, id: u128) -> Seq<Particle>
    decreases s.len(),
{
    if s.len() == 0 {
        s
    } else if s.last().id != id {
        without_id(s.drop_last(), id).push(s.last())
    } else {
        without_id(s.drop_last(), id)
    }
}

/// Index of the first particle of `s` with identifier `id`; the length of `s` if there is none.
pub open spec fn index_of_id(s: Seq<Particle>, id: u128) -> int
    decreases s.len(),
{
    if s.len() == 0 {
        0
    } else if s.first().id == id {
        0
    } else {
        1 + index_of_id(s.drop_first(), id)
    }
}

/// The particle set after the merge of the pair `p1`, `p2`. The heavier of
/// the two (`p1` when the masses are equal) is looked up by its identifier:
/// where the set holds it, it takes the lighter one in, and the particles
/// with the lighter one's identifier leave the set. Otherwise nothing changes.
pub open spec fn merged(s: Seq<Particle>, p1: Particle, p2: Particle) -> Seq<Particle> {
    let (lesser, greater) = if p1.mass >= p2.mass {
        (p2, p1)
    } else {
        (p1, p2)
    };
    let idx = index_of_id(s, greater.id);
    if idx < s.len() {
        without_id(s.update(idx, absorbed(s[idx], greater, lesser)), lesser.id)
    } else {
        s
    }
}

/// The particle set after the narrow phase for `p`: the set is merged
/// with each candidate that `p` touches, in order.
pub open spec fn narrow_phase(s: Seq<Particle>, p: Particle, candidates: Seq<Particle>) -> Seq<
    Particle,
>
    decreases candidates.len(),
{
    if candidates.len() == 0 {
        s
    } else {
        let c = candidates.first();
        narrow_phase(
            if p.collides(c) {
                merged(s, p, c)
            } else {
                s
            },
            p,
            candidates.drop_first(),
        )
    }
}

/// The particle set after collisions are resolved for each particle of
/// `snapshot` in turn, against its neighbours in `tree`.
pub open spec fn resolved(s: Seq<Particle>, snapshot: Seq<Particle>, tree: Node) -> Seq<Particle>
    decreases snapshot.len(),
{
    if snapshot.len() == 0 {
        s
    } else {
        resolved(
            narrow_phase(s, snapshot.first(), tree.nearby(snapshot.first())),
            snapshot.drop_first(),
            tree,
        )
    }
}

/// `after` is what collision resolution makes of the particle set `before`,
/// with the tree that the particles of `before` build from an empty root.
pub open spec fn collisions_resolved(before: Seq<Particle>, after: Seq<Particle>) -> bool {
    exists|root: Node|
        root.is_empty_root() && after == resolved(
            before,
            before,
            #[trigger] root.insert_all(before),
        )
}

/// `after` holds the particles of `before`, each with the acceleration
/// that the tree of the particles of `before` gives it.
pub open spec fn forces_applied(
    before: Seq<Particle>,
    after: Seq<Particle>,
    theta: Scalar,
    rule: ForceRule,
) -> bool {
    &&& after.len() == before.len()
    &&& exists|root: Node|
        root.is_empty_root() && forall|i: int|
            0 <= i < before.len() ==> after[i] == accelerated(
                before[i],
                #[trigger] root.insert_all(before),
                theta,
                rule,
            )
}

/// `after` holds the particles of `before`, each moved by one time step.
pub open spec fn positions_advanced(before: Seq<Particle>, after: Seq<Particle>, ts: Scalar) -> bool {
    &&& after.len() == before.len()
    &&& forall|i: int| 0 <= i < before.len() ==> after[i] == moved(#[trigger] before[i], ts)
}

/// The time step after a change by `delta`: the sum where it is positive, else the old value.
pub open spec fn changed_time_step(time_step: Scalar, delta: Scalar) -> Scalar {
    if time_step + delta > 0 {
        clamp(time_step + delta) as i64
    } else {
        time_step
    }
}

/// The time step after each change of `deltas`, in order.
pub open spec fn time_step_after(time_step: Scalar, deltas: Seq<Scalar>) -> Scalar
    decreases deltas.len(),
{
    if deltas.len() == 0 {
        time_step
    } else {
        changed_time_step(time_step_after(time_step, deltas.drop_last()), deltas.last())
    }
}

/// No sequence of changes takes a positive time step to zero or below.
pub proof fn lemma_time_step_stays_positive(time_step: Scalar, deltas: Seq<Scalar>)
    requires
        time_step > 0,
    ensures
        time_step_after(time_step, deltas) > 0,
    decreases deltas.len(),
{
    if deltas.len() > 0 {
        lemma_time_step_stays_positive(time_step, deltas.drop_last());
    }
}

/// Cosine of the angle by which a particle is turned at the border of the world.
pub const BOUNCE_COS: Scalar = -765_867;

/// Sine of the angle by which a particle is turned at the border of the world.
pub const BOUNCE_SIN: Scalar = -642_999;

/// A particle that is slower than this after the halving at the border,
/// by its squared speed, gets its speed back.
pub const BOUNCE_MIN_SPEED2: u128 = 300_000_000_000_000;

/// How the pulls of several force sources on one particle combine.
#[derive(Debug, Clone, Copy, PartialEq, Eq, Structural)]
pub enum ForceRule {
    /// The acceleration is the sum of all pulls.
    Superposition,
    /// The acceleration is the pull of the source visited last; a particle
    /// without any source keeps the acceleration it had.
    LastSource,
}

/// Length of a vector, rounded down.
pub open spec fn speed(v: Vec2) -> int {
    int_sqrt(norm2(v.x as int, v.y as int))
}

/// The point of a moving particle's rim that lies furthest in its direction.
pub open spec fn leading_edge(position: Vec2, velocity: Vec2, radius: Scalar) -> Vec2 {
    Vec2 {
        x: clamp(position.x + clamp(quotient(velocity.x * radius, speed(velocity)))) as i64,
        y: clamp(position.y + clamp(quotient(velocity.y * radius, speed(velocity)))) as i64,
    }
}

/// A moving particle's leading edge lies outside the world square. A
/// particle at rest has no leading edge.
pub open spec fn leaves_world(position: Vec2, velocity: Vec2, radius: Scalar) -> bool {
    let edge = leading_edge(position, velocity, radius);
    speed(velocity) > 0 && (edge.x > MAX_X || edge.y > MAX_Y || edge.x < MIN_X || edge.y < MIN_Y)
}

/// The velocity after the turn at the border: halved, doubled again where
/// that leaves it under the minimum speed, then rotated.
pub open spec fn bounced(v: Vec2) -> Vec2 {
    let hx = v.x / 2;
    let hy = v.y / 2;
    let slow = norm2(hx, hy) < BOUNCE_MIN_SPEED2;
    let sx = if slow { clamp(hx * 2) } else { hx };
    let sy = if slow { clamp(hy * 2) } else { hy };
    Vec2 {
        x: clamp(fmul(sx, BOUNCE_COS as int) - fmul(sy, BOUNCE_SIN as int)) as i64,
        y: clamp(fmul(sx, BOUNCE_SIN as int) + fmul(sy, BOUNCE_COS as int)) as i64,
    }
}

/// The particle after one time step of semi-implicit Euler integration:
/// the velocity takes the acceleration in, the position the new velocity,
/// and a particle whose leading edge leaves the world is turned.
pub open spec fn moved(pt: Particle, ts: Scalar) -> Particle {
    let velocity = Vec2 {
        x: clamp(pt.velocity.x + fmul(pt.acceleration.x as int, ts as int)) as i64,
        y: clamp(pt.velocity.y + fmul(pt.acceleration.y as int, ts as int)) as i64,
    };
    let position = Vec2 {
        x: clamp(pt.position.x + fmul(velocity.x as int, ts as int)) as i64,
        y: clamp(pt.position.y + fmul(velocity.y as int, ts as int)) as i64,
    };
    Particle {
        position,
        velocity: if leaves_world(position, velocity, pt.radius) {
            bounced(velocity)
        } else {
            velocity
        },
        ..pt
    }
}

/// The pull of a force source on a point: the source's mass over the
/// squared distance, along the unit vector from the point to the source.
pub open spec fn pull(source: Particle, at: Vec2) -> Vec2 {
    let dx = clamp(source.position.x - at.x);
    let dy = clamp(source.position.y - at.y);
    let strength = clamp(quotient(source.mass * ONE * ONE, norm2(dx, dy)));
    let dist = int_sqrt(norm2(dx, dy));
    Vec2 {
        x: clamp(quotient(strength * dx, dist)) as i64,
        y: clamp(quotient(strength * dy, dist)) as i64,
    }
}

/// The acceleration `acc` after the pull `c` of one more source.
pub open spec fn combined(acc: Vec2, c: Vec2, rule: ForceRule) -> Vec2 {
    match rule {
        ForceRule::Superposition => Vec2 {
            x: clamp(acc.x + c.x) as i64,
            y: clamp(acc.y + c.y) as i64,
        },
        ForceRule::LastSource => c,
    }
}

/// The acceleration `acc` after the pulls of `sources` on the point `at`, in order.
pub open spec fn superposed(sources: Seq<Node>, at: Vec2, acc: Vec2, rule: ForceRule) -> Vec2
    decreases sources.len(),
{
    if sources.len() == 0 {
        acc
    } else {
        superposed(
            sources.drop_first(),
            at,
            combined(acc, pull(sources.first().particle, at), rule),
            rule,
        )
    }
}

/// The acceleration from which the pulls on `p` are combined.
pub open spec fn initial_acceleration(p: Particle, rule: ForceRule) -> Vec2 {
    match rule {
        ForceRule::Superposition => Vec2 { x: 0, y: 0 },
        ForceRule::LastSource => p.acceleration,
    }
}

/// The particle with the acceleration that the force sources of `tree` give it.
pub open spec fn accelerated(p: Particle, tree: Node, theta: Scalar, rule: ForceRule) -> Particle {
    Particle {
        acceleration: superposed(
            tree.sources(p.position, theta),
            p.position,
            initial_acceleration(p, rule),
            rule,
        ),
        ..p
    }
}

/// Computes the pull of a force source on a point.
pub fn pull_of(source: &Particle, at: Vec2) -> (r: Vec2)
    ensures
        r == pull(*source, at),
{
    let dx = sat_sub(source.position.x, at.x);
    let dy = sat_sub(source.position.y, at.y);
    let d2 = magnitude2(dx, dy);
    let dist = isqrt(d2);
    assert(-0x8000_0000_0000_0000 * 1_000_000 * 1_000_000 <= source.mass * ONE * ONE
        <= 0x8000_0000_0000_0000 * 1_000_000 * 1_000_000) by (nonlinear_arith)
        requires
            -0x8000_0000_0000_0000 <= source.mass <= 0x7fff_ffff_ffff_ffff,
    ;
    let n: i128 = (source.mass as i128) * (ONE as i128) * (ONE as i128);
    let strength = if d2 > 0x7fff_ffff_ffff_ffff_ffff_ffff_ffff_ffff {
        // The mass term is smaller in size than the divisor
        proof {
            if n >= 0 {
                vstd::arithmetic::div_mod::lemma_basic_div(n as int, d2 as int);
            } else {
                vstd::arithmetic::div_mod::lemma_fundamental_div_mod_converse(
                    n as int,
                    d2 as int,
                    -1,
                    n + d2,
                );
            }
        }
        if n >= 0 {
            0
        } else {
            -1
        }
    } else {
        sat_div(n, d2 as i128)
    };
    Vec2 {
        x: sat_div(wide_mul(strength, dx), dist as i128),
        y: sat_div(wide_mul(strength, dy), dist as i128),
    }
}

/// Combines an acceleration with the pull of one more source.
pub fn combine(acc: Vec2, c: Vec2, rule: ForceRule) -> (r: Vec2)
    ensures
        r == combined(acc, c, rule),
{
    match rule {
        ForceRule::Superposition => Vec2 { x: sat_add(acc.x, c.x), y: sat_add(acc.y, c.y) },
        ForceRule::LastSource => c,
    }
}

/// Turns a velocity at the border of the world.
pub fn bounce(v: Vec2) -> (r: Vec2)
    ensures
        r == bounced(v),
{
    let mut x = floor_div(v.x as i128, 2) as i64;
    let mut y = floor_div(v.y as i128, 2) as i64;
    if magnitude2(x, y) < BOUNCE_MIN_SPEED2 {
        x = saturate((x as i128) * 2);
        y = saturate((y as i128) * 2);
    }
    Vec2 {
        x: sat_sub(fixed_mul(x, BOUNCE_COS), fixed_mul(y, BOUNCE_SIN)),
        y: sat_add(fixed_mul(x, BOUNCE_SIN), fixed_mul(y, BOUNCE_COS)),
    }
}

/// Moves one particle by one time step.
pub fn integrate_particle(pt: Particle, ts: Scalar) -> (r: Particle)
    ensures
        r == moved(pt, ts),
{
    let velocity = Vec2 {
        x: sat_add(pt.velocity.x, fixed_mul(pt.acceleration.x, ts)),
        y: sat_add(pt.velocity.y, fixed_mul(pt.acceleration.y, ts)),
    };
    let position = Vec2 {
        x: sat_add(pt.position.x, fixed_mul(velocity.x, ts)),
        y: sat_add(pt.position.y, fixed_mul(velocity.y, ts)),
    };
    let pace = isqrt(magnitude2(velocity.x, velocity.y));
    // Position vector of the vertex closest to the boundary
    let pv = Vec2 {
        x: sat_add(position.x, sat_div(wide_mul(velocity.x, pt.radius), pace as i128)),
        y: sat_add(position.y, sat_div(wide_mul(velocity.y, pt.radius), pace as i128)),
    };
    if pace > 0 && (pv.x > MAX_X || pv.y > MAX_Y || pv.x < MIN_X || pv.y < MIN_Y) {
        Particle { position, velocity: bounce(velocity), ..pt }
    } else {
        Particle { position, velocity, ..pt }
    }
}

/// `(gm * gv + lm * lv) / gm`: the velocity of a merged pair along one axis.
fn merged_velocity(gm: Scalar, gv: Scalar, lm: Scalar, lv: Scalar) -> (r: Scalar)
    ensures
        r == clamp(quotient(gm * gv + lm * lv, gm as int)),
{
    let momentum = wide_mul(lm, lv);
    if gm == 0 {
        sat_div(momentum, 0)
    } else if gm > 0 {
        proof {
            vstd::arithmetic::div_mod::lemma_hoist_over_denominator(
                momentum as int,
                gv as int,
                gm as nat,
            );
            assert(gv * gm == gm * gv) by (nonlinear_arith);
        }
        saturate(gv as i128 + floor_div(momentum, gm as i128))
    } else {
        proof {
            vstd::arithmetic::div_mod::lemma_hoist_over_denominator(
                -(momentum as int),
                gv as int,
                (-gm) as nat,
            );
            assert(-(momentum as int) + gv * (-gm) == -(gm * gv + lm * lv)) by (nonlinear_arith)
                requires
                    momentum == lm * lv,
            ;
        }
        saturate(gv as i128 + floor_div(-momentum, -(gm as i128)))
    }
}

/// Simulation handles all core aspects of simulating the particle system
pub struct Simulation {
    particles: Vec<Particle>,
    time_step: Scalar,
    theta: Scalar,
    force_rule: ForceRule,
}

impl Simulation {
    /// The particle set.
    pub closed spec fn particles(&self) -> Seq<Particle> {
        self.particles@
    }

    /// The time step.
    pub closed spec fn spec_time_step(&self) -> Scalar {
        self.time_step
    }

    /// The opening-angle threshold.
    pub closed spec fn spec_theta(&self) -> Scalar {
        self.theta
    }

    /// How the pulls of several force sources combine.
    pub closed spec fn spec_force_rule(&self) -> ForceRule {
        self.force_rule
    }

    /// The parameters are those of `other`.
    pub open spec fn same_settings(&self, other: &Simulation) -> bool {
        &&& self.spec_time_step() == other.spec_time_step()
        &&& self.spec_theta() == other.spec_theta()
        &&& self.spec_force_rule() == other.spec_force_rule()
    }

    /// A simulation without particles, in which forces add up.
    pub fn new(time_step: Scalar, theta: Scalar) -> (r: Self)
        ensures
            r.particles() == Seq::<Particle>::empty(),
            r.spec_time_step() == time_step,
            r.spec_theta() == theta,
            r.spec_force_rule() == ForceRule::Superposition,
    {
        Self { particles: Vec::new(), time_step, theta, force_rule: ForceRule::Superposition }
    }

    /// Chooses how the pulls of several force sources combine.
    pub fn set_force_rule(&mut self, rule: ForceRule)
        ensures
            final(self).spec_force_rule() == rule,
            final(self).particles() == old(self).particles(),
            final(self).spec_time_step() == old(self).spec_time_step(),
            final(self).spec_theta() == old(self).spec_theta(),
    {
        self.force_rule = rule;
    }

    /// A copy of the particle set.
    fn snapshot(&self) -> (r: Vec<Particle>)
        ensures
            r@ == self.particles(),
    {
        let mut out: Vec<Particle> = Vec::new();
        let mut i: usize = 0;
        while i < self.particles.len()
            invariant
                i <= self.particles.len(),
                out@ == self.particles@.take(i as int),
            decreases self.particles.len() - i,
        {
            out.push(self.particles[i]);
            proof {
                assert(self.particles@.take(i + 1) =~= self.particles@.take(i as int).push(
                    self.particles@[i as int],
                ));
            }
            i += 1;
        }
        proof {
            assert(self.particles@.take(i as int) =~= self.particles@);
        }
        out
    }

    /// Sets the acceleration of each particle from the force sources that
    /// the tree of the current particles yields for it.
    pub fn step(&mut self)
        ensures
            final(self).same_settings(old(self)),
            forces_applied(
                old(self).particles(),
                final(self).particles(),
                old(self).spec_theta(),
                old(self).spec_force_rule(),
            ),
    {
        let quadtree: QuadTree = QuadTree::from_points(self.snapshot());
        let theta = self.theta;
        let rule = self.force_rule;
        let ghost before = self.particles@;
        let mut i: usize = 0;
        while i < self.particles.len()
            invariant
                i <= self.particles.len(),
                self.same_settings(old(self)),
                theta == self.theta,
                rule == self.force_rule,
                before == old(self).particles@,
                self.particles@.len() == before.len(),
                forall|j: int|
                    0 <= j < i ==> self.particles@[j] == accelerated(
                        #[trigger] before[j],
                        quadtree@,
                        theta,
                        rule,
                    ),
                forall|j: int| i <= j < before.len() ==> self.particles@[j] == #[trigger] before[j],
            decreases self.particles.len() - i,
        {
            let p = self.particles[i];
            let mut tree_iter = QuadTreeIter::new(p.position, theta, &quadtree);
            let mut acceleration = match rule {
                ForceRule::Superposition => Vec2 { x: 0, y: 0 },
                ForceRule::LastSource => p.acceleration,
            };
            let ghost all_sources = tree_iter.remaining();
            let mut source = tree_iter.next();
            proof {
                if let Some(first) = source {
                    assert(all_sources =~= seq![first@] + tree_iter.remaining());
                } else {
                    assert(all_sources =~= tree_iter.remaining());
                }
            }
            while source.is_some()
                invariant
                    tree_iter.query() == p.position,
                    tree_iter.threshold() == theta,
                    superposed(
                        match source {
                            Some(node) => seq![node@] + tree_iter.remaining(),
                            None => tree_iter.remaining(),
                        },
                        p.position,
                        acceleration,
                        rule,
                    ) == accelerated(p, quadtree@, theta, rule).acceleration,
                    source is None ==> tree_iter.remaining().len() == 0,
                decreases tree_iter.remaining().len() + (if source is Some { 1nat } else { 0nat }),
            {
                let node = source.unwrap();
                proof {
                    let all = seq![node@] + tree_iter.remaining();
                    assert(all.first() == node@);
                    assert(all.drop_first() =~= tree_iter.remaining());
                }
                acceleration = combine(acceleration, pull_of(&node.particle, p.position), rule);
                let ghost rest = tree_iter.remaining();
                source = tree_iter.next();
                proof {
                    if let Some(next) = source {
                        assert(rest =~= seq![next@] + tree_iter.remaining());
                    } else {
                        assert(rest =~= tree_iter.remaining());
                    }
                }
            }
            self.particles[i] = Particle { acceleration, ..p };
            i += 1;
        }
        proof {
            let root = choose|root: Node|
                root.is_empty_root() && quadtree@ == #[trigger] root.insert_all(before);
            assert(root.insert_all(before) == quadtree@);
        }
    }

    /// Detects collisions and merges the particles that touch. The tree
    /// of the current particles gives each particle its neighbours; the
    /// particle is merged with each neighbour that it touches.
    pub fn resolve_collisions(&mut self)
        ensures
            final(self).same_settings(old(self)),
            collisions_resolved(old(self).particles(), final(self).particles()),
    {
        let snapshot = self.snapshot();
        let quadtree: QuadTree = QuadTree::from_points(self.snapshot());
        let mut i: usize = 0;
        proof {
            assert(snapshot@.skip(0) =~= snapshot@);
        }
        // Collision detection using quadtree to figure out a particle's nearby siblings
        while i < snapshot.len()
            invariant
                i <= snapshot.len(),
                self.same_settings(old(self)),
                snapshot@ == old(self).particles@,
                resolved(self.particles@, snapshot@.skip(i as int), quadtree@) == resolved(
                    snapshot@,
                    snapshot@,
                    quadtree@,
                ),
            decreases snapshot.len() - i,
        {
            let p = snapshot[i];
            // Broad phase (figuring out all the nearby particles to check collision for)
            let nearby_particles = quadtree.nearby_particles(&p);
            let ghost start = self.particles@;
            let mut k: usize = 0;
            proof {
                assert(nearby_particles@.skip(0) =~= nearby_particles@);
            }
            // Narrow phase
            while k < nearby_particles.len()
                invariant
                    k <= nearby_particles.len(),
                    self.same_settings(old(self)),
                    narrow_phase(self.particles@, p, nearby_particles@.skip(k as int))
                        == narrow_phase(start, p, nearby_particles@),
                decreases nearby_particles.len() - k,
            {
                let p2 = nearby_particles[k];
                proof {
                    assert(nearby_particles@.skip(k as int).drop_first()
                        =~= nearby_particles@.skip(k + 1));
                }
                if p.check_collision(&p2) {
                    self.merge_particle(p, p2);
                }
                k += 1;
            }
            proof {
                assert(snapshot@.skip(i as int).drop_first() =~= snapshot@.skip(i + 1));
            }
            i += 1;
        }
        proof {
            let root = choose|root: Node|
                root.is_empty_root() && quadtree@ == #[trigger] root.insert_all(snapshot@);
            assert(root.insert_all(snapshot@) == quadtree@);
        }
    }

    /// Adds a particle to the simulation system and also checks for collision
    /// (merges particles if any of them overlap regardless of whether or not
    ///  the simulation is paused)
    pub fn add_particle(&mut self, p: Particle)
        ensures
            final(self).same_settings(old(self)),
            collisions_resolved(old(self).particles().push(p), final(self).particles()),
    {
        self.particles.push(p);
        self.resolve_collisions();
    }

    /// Moves each particle by one time step.
    pub fn integrate(&mut self)
        ensures
            final(self).same_settings(old(self)),
            positions_advanced(
                old(self).particles(),
                final(self).particles(),
                old(self).spec_time_step(),
            ),
    {
        let ts = self.time_step;
        let mut i: usize = 0;
        while i < self.particles.len()
            invariant
                i <= self.particles.len(),
                self.same_settings(old(self)),
                ts == self.time_step,
                self.particles@.len() == old(self).particles@.len(),
                forall|j: int|
                    0 <= j < i ==> self.particles@[j] == moved(
                        #[trigger] old(self).particles@[j],
                        ts,
                    ),
                forall|j: int|
                    i <= j < self.particles@.len() ==> self.particles@[j] == #[trigger] old(
                        self,
                    ).particles@[j],
            decreases self.particles.len() - i,
        {
            let pt = self.particles[i];
            self.particles[i] = integrate_particle(pt, ts);
            i += 1;
        }
    }

    /// The current time step.
    pub fn time_step(&self) -> (r: Scalar)
        ensures
            r == self.spec_time_step(),
    {
        self.time_step
    }

    /// Merges a pair of particles that touch: the heavier one takes the
    /// lighter one in, and the lighter one leaves the set.
    pub fn merge_particle(&mut self, p1: Particle, p2: Particle)
        ensures
            final(self).particles() == merged(old(self).particles(), p1, p2),
            final(self).same_settings(old(self)),
    {
        let (lesser, greater) = p1.compare(p2);
        let greater_idx = self.position_of(greater.id);
        if greater_idx < self.particles.len() {
            let current = self.particles[greater_idx];
            let radius = sat_add(current.radius, floor_div(lesser.radius as i128, 10) as i64);
            let mass = sat_add(current.mass, fixed_mul(lesser.mass, radius));
            let velocity = Vec2 {
                x: merged_velocity(greater.mass, greater.velocity.x, lesser.mass, lesser.velocity.x),
                y: merged_velocity(greater.mass, greater.velocity.y, lesser.mass, lesser.velocity.y),
            };
            self.particles[greater_idx] = Particle { radius, mass, velocity, ..current };
            self.remove_particle(lesser.id);
        }
    }

    /// Index of the first particle with the given id, or the number of particles.
    fn position_of(&self, id: u128) -> (r: usize)
        ensures
            r == index_of_id(self.particles(), id),
            r <= self.particles().len(),
    {
        let mut i: usize = 0;
        proof {
            assert(self.particles@.skip(0) =~= self.particles@);
        }
        while i < self.particles.len() && self.particles[i].id != id
            invariant
                i <= self.particles.len(),
                index_of_id(self.particles@, id) == i + index_of_id(
                    self.particles@.skip(i as int),
                    id,
                ),
            decreases self.particles.len() - i,
        {
            proof {
                assert(self.particles@.skip(i as int).drop_first() =~= self.particles@.skip(
                    i + 1,
                ));
            }
            i += 1;
        }
        i
    }

    /// Removes a particle with the given id.
    pub fn remove_particle(&mut self, id: u128)
        ensures
            final(self).particles() == without_id(old(self).particles(), id),
            final(self).same_settings(old(self)),
    {
        let mut kept: Vec<Particle> = Vec::new();
        let mut i: usize = 0;
        while i < self.particles.len()
            invariant
                i <= self.particles.len(),
                kept@ == without_id(self.particles@.take(i as int), id),
            decreases self.particles.len() - i,
        {
            proof {
                assert(self.particles@.take(i + 1).drop_last() =~= self.particles@.take(i as int));
            }
            if self.particles[i].id != id {
                kept.push(self.particles[i]);
            }
            i += 1;
        }
        proof {
            assert(self.particles@.take(i as int) =~= self.particles@);
        }
        self.particles = kept;
    }

    pub fn reset(&mut self)
        ensures
            final(self).particles() == Seq::<Particle>::empty(),
            final(self).same_settings(old(self)),
    {
        self.particles.clear();
    }

    /// Changes the time step by `step_offset`, unless the result would not be positive.
    pub fn change_time_step(&mut self, step_offset: Scalar)
        ensures
            final(self).spec_time_step() == changed_time_step(
                old(self).spec_time_step(),
                step_offset,
            ),
            old(self).spec_time_step() > 0 ==> final(self).spec_time_step() > 0,
            final(self).particles() == old(self).particles(),
            final(self).spec_theta() == old(self).spec_theta(),
            final(self).spec_force_rule() == old(self).spec_force_rule(),
    {
        let new_step = sat_add(self.time_step, step_offset);
        if new_step > 0 {
            self.time_step = new_step;
        }
    }

    /// Returns a shared reference to particles
    pub fn get_particles(&self) -> (r: &Vec<Particle>)
        ensures
            r@ == self.particles(),
    {
        &self.particles
    }

    /// Returns a vector containing all the particle instances (copy)
    pub fn get_instances(&self) -> (r: Vec<Instance>)
        ensures
            r@.len() == self.particles().len(),
            forall|i: int| 0 <= i < r@.len() ==> r@[i] == (#[trigger] self.particles()[i]).instance(),
    {
        let mut out: Vec<Instance> = Vec::new();
        let mut i: usize = 0;
        while i < self.particles.len()
            invariant
                i <= self.particles.len(),
                out@.len() == i,
                forall|j: int| 0 <= j < i ==> out@[j] == (#[trigger] self.particles@[j]).instance(),
            decreases self.particles.len() - i,
        {
            out.push(self.particles[i].to_instance());
            i += 1;
        }
        out
    }
}

} // verus!

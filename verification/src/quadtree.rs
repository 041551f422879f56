//! The quadtree: a 4-ary spatial index with center-of-mass aggregation.
use vstd::prelude::*;
use crate::bounding_box::QuadBoundingBox;
use crate::particle::Particle;
use crate::scalar::{Scalar, Vec2, floor_div};

verus! {

/// How many levels of children a tree may have below its root.
pub const MAX_DEPTH: usize = 48;

/// The greatest aggregate mass that a tree can hold.
pub const MASS_LIMIT: Scalar = 0x4000_0000_0000_0000;

/// Mass-weighted mean `(m0 * x0 + m * x) / (m0 + m)` of two coordinates, rounded down.
pub open spec fn weighted_mean(m0: int, x0: int, m: int, x: int) -> int {
    (m0 * x0 + m * x) / (m0 + m)
}

/// What a particle becomes when the mass `m` at `(x, y)` is merged into it:
/// the masses add up and the position moves to the common center of mass.
pub open spec fn aggregate(agg: Particle, x: Scalar, y: Scalar, m: Scalar) -> Particle {
    Particle {
        position: Vec2 {
            x: weighted_mean(agg.mass as int, agg.position.x as int, m as int, x as int) as i64,
            y: weighted_mean(agg.mass as int, agg.position.y as int, m as int, y as int) as i64,
        },
        mass: (agg.mass + m) as i64,
        ..agg
    }
}

/// A weighted mean with weights that are not negative lies between its two coordinates.
pub proof fn lemma_weighted_mean_bounds(m0: int, x0: int, m: int, x: int, lo: int, hi: int)
    requires
        m0 >= 0,
        m >= 0,
        m0 + m > 0,
        lo <= x0 <= hi,
        lo <= x <= hi,
    ensures
        lo <= weighted_mean(m0, x0, m, x) <= hi,
{
    let n = m0 * x0 + m * x;
    let d = m0 + m;
    assert(d * lo <= n <= d * hi) by (nonlinear_arith)
        requires
            n == m0 * x0 + m * x,
            d == m0 + m,
            m0 >= 0,
            m >= 0,
            lo <= x0 <= hi,
            lo <= x <= hi,
    ;
    vstd::arithmetic::div_mod::lemma_div_is_ordered(d * lo, n, d);
    vstd::arithmetic::div_mod::lemma_div_is_ordered(n, d * hi, d);
    vstd::arithmetic::div_mod::lemma_div_multiples_vanish(lo, d);
    vstd::arithmetic::div_mod::lemma_div_multiples_vanish(hi, d);
}

/// Taking two masses into a weighted mean one after the other gives the
/// weighted mean of all three, or one unit less: each step rounds down.
pub proof fn lemma_two_step_mean(m0: int, x0: int, a: int, xa: int, b: int, xb: int)
    requires
        m0 >= 0,
        a >= 0,
        b >= 0,
        m0 + a > 0,
    ensures
        (m0 * x0 + a * xa + b * xb) / (m0 + a + b) - 1 <= weighted_mean(
            m0 + a,
            weighted_mean(m0, x0, a, xa),
            b,
            xb,
        ) <= (m0 * x0 + a * xa + b * xb) / (m0 + a + b),
{
    let d1 = m0 + a;
    let n1 = m0 * x0 + a * xa;
    let f1 = n1 / d1;
    let total = n1 + b * xb;
    let d = d1 + b;
    let n2 = d1 * f1 + b * xb;
    vstd::arithmetic::div_mod::lemma_fundamental_div_mod(n1, d1);
    vstd::arithmetic::div_mod::lemma_mod_bound(n1, d1);
    assert(total - d <= n2 <= total);
    vstd::arithmetic::div_mod::lemma_div_is_ordered(n2, total, d);
    vstd::arithmetic::div_mod::lemma_div_is_ordered(total - d, n2, d);
    vstd::arithmetic::div_mod::lemma_div_minus_one(total, d);
}

/// The two-step mean of `lemma_two_step_mean` for coordinates that fit
/// in a `Scalar`: so does the mean after the first step.
pub proof fn lemma_two_steps_in_range(m0: int, x0: int, a: int, xa: int, b: int, xb: int)
    requires
        m0 >= 0,
        a >= 0,
        b >= 0,
        m0 + a > 0,
        i64::MIN <= x0 <= i64::MAX,
        i64::MIN <= xa <= i64::MAX,
        i64::MIN <= xb <= i64::MAX,
    ensures
        i64::MIN <= weighted_mean(m0, x0, a, xa) <= i64::MAX,
        (m0 * x0 + a * xa + b * xb) / (m0 + a + b) - 1 <= weighted_mean(
            m0 + a,
            weighted_mean(m0, x0, a, xa),
            b,
            xb,
        ) <= (m0 * x0 + a * xa + b * xb) / (m0 + a + b),
        i64::MIN <= weighted_mean(m0 + a, weighted_mean(m0, x0, a, xa), b, xb) <= i64::MAX,
{
    lemma_two_step_mean(m0, x0, a, xa, b, xb);
    lemma_weighted_mean_bounds(m0, x0, a, xa, i64::MIN as int, i64::MAX as int);
    lemma_weighted_mean_bounds(
        m0 + a,
        weighted_mean(m0, x0, a, xa),
        b,
        xb,
        i64::MIN as int,
        i64::MAX as int,
    );
}

/// `c` lies in the box spanned by `a` and `b`.
pub open spec fn between(c: Vec2, a: Vec2, b: Vec2) -> bool {
    &&& (a.x <= c.x <= b.x || b.x <= c.x <= a.x)
    &&& (a.y <= c.y <= b.y || b.y <= c.y <= a.y)
}

/// The center of mass of two particles lies in the box that they span.
pub proof fn lemma_aggregate_between(e: Particle, p: Particle)
    requires
        e.mass > 0,
        p.mass > 0,
        e.mass + p.mass <= MASS_LIMIT,
    ensures
        between(
            aggregate(e, p.position.x, p.position.y, p.mass).position,
            e.position,
            p.position,
        ),
{
    let (ex, px) = (e.position.x as int, p.position.x as int);
    let (ey, py) = (e.position.y as int, p.position.y as int);
    lemma_weighted_mean_bounds(
        e.mass as int,
        ex,
        p.mass as int,
        px,
        if ex <= px { ex } else { px },
        if ex <= px { px } else { ex },
    );
    lemma_weighted_mean_bounds(
        e.mass as int,
        ey,
        p.mass as int,
        py,
        if ey <= py { ey } else { py },
        if ey <= py { py } else { ey },
    );
}

/// The mathematical tree that a `QuadTree` stands for.
pub struct Node {
    pub bounding_box: QuadBoundingBox,
    pub particle: Particle,
    pub children: Seq<Option<Node>>,
}

impl Node {
    /// A node without children.
    pub open spec fn leaf(bounding_box: QuadBoundingBox, particle: Particle) -> Node {
        Node { bounding_box, particle, children: seq![None, None, None, None] }
    }

    /// At least one child slot is occupied.
    pub open spec fn is_subdivided(self) -> bool {
        exists|i: int| 0 <= i < self.children.len() && (#[trigger] self.children[i]) is Some
    }

    /// Aggregate mass below child slot `i`; nothing for a free slot.
    pub open spec fn child_mass(self, i: int) -> int {
        match self.children[i] {
            Some(c) => c.particle.mass as int,
            None => 0,
        }
    }

    /// The node with the particle merged into its aggregate.
    pub open spec fn with_mass(self, p: Particle) -> Node {
        Node { particle: aggregate(self.particle, p.position.x, p.position.y, p.mass), ..self }
    }

    /// The node with a leaf for `p` in the slot of the quadrant of `p`.
    pub open spec fn with_child(self, p: Particle) -> Node {
        let q = self.bounding_box.spec_quadrant(p.position);
        Node {
            children: self.children.update(
                q,
                Some(Node::leaf(self.bounding_box.spec_child_bb(q), p)),
            ),
            ..self
        }
    }

    /// Validity of a non-empty node that may have `depth` more levels below it.
    ///
    /// The node holds a positive mass at a position inside its box; each
    /// child covers the sub-box of its slot and is valid one level further
    /// down; the mass of a subdivided node is the sum of its children's.
    pub open spec fn wf(self, depth: nat) -> bool
        decreases depth,
    {
        &&& self.bounding_box.wf()
        &&& self.children.len() == 4
        &&& 0 < self.particle.mass <= MASS_LIMIT
        &&& self.bounding_box.spec_contains(self.particle.position)
        &&& self.is_subdivided() ==> depth > 0 && self.particle.mass == self.child_mass(0)
            + self.child_mass(1) + self.child_mass(2) + self.child_mass(3)
        &&& forall|i: int|
            0 <= i < 4 ==> match #[trigger] self.children[i] {
                Some(c) => depth > 0 && c.bounding_box == self.bounding_box.spec_child_bb(i)
                    && c.wf((depth - 1) as nat),
                None => true,
            }
    }

    /// Total mass of the leaves below the node.
    pub open spec fn leaf_mass(self) -> int
        decreases self, 0nat,
    {
        if self.is_subdivided() {
            Self::slot_leaf_mass(self.children, self.children.len() as int)
        } else {
            self.particle.mass as int
        }
    }

    /// Total mass of the leaves below the first `n` child slots.
    pub open spec fn slot_leaf_mass(slots: Seq<Option<Node>>, n: int) -> int
        decreases slots, n,
    {
        if 0 < n <= slots.len() {
            Self::slot_leaf_mass(slots, n - 1) + (match slots[n - 1] {
                Some(c) => c.leaf_mass(),
                None => 0,
            })
        } else {
            0
        }
    }

    /// The aggregate mass of a valid node is the total mass of the leaves below it.
    pub proof fn lemma_aggregate_mass_is_leaf_total(self, depth: nat)
        requires
            self.wf(depth),
        ensures
            self.leaf_mass() == self.particle.mass,
        decreases depth,
    {
        if self.is_subdivided() {
            assert forall|i: int| 0 <= i < 4 implies (match #[trigger] self.children[i] {
                Some(c) => c.leaf_mass(),
                None => 0,
            }) == self.child_mass(i) by {
                match self.children[i] {
                    Some(c) => {
                        c.lemma_aggregate_mass_is_leaf_total((depth - 1) as nat);
                    },
                    None => {},
                }
            }
            reveal_with_fuel(Node::slot_leaf_mass, 5);
            assert(Self::slot_leaf_mass(self.children, 4) == self.child_mass(0) + self.child_mass(
                1,
            ) + self.child_mass(2) + self.child_mass(3));
        }
    }

    /// Validity of a whole tree: an empty root without children, or a valid
    /// non-empty node with up to `MAX_DEPTH` levels below it.
    pub open spec fn tree_wf(self) -> bool {
        if self.particle.mass == 0 {
            self.bounding_box.wf() && self.children =~= seq![None, None, None, None]
        } else {
            self.wf(MAX_DEPTH as nat)
        }
    }

    /// An empty tree over the world square.
    pub open spec fn is_empty_root(self) -> bool {
        &&& self.particle.mass == 0
        &&& self.bounding_box == QuadBoundingBox::default_box()
        &&& self.children =~= seq![None, None, None, None]
    }

    /// Whether the tree takes the particle in: it lies in the box, has a
    /// positive mass, and the aggregate mass stays within `MASS_LIMIT`.
    pub open spec fn indexable(self, p: Particle) -> bool {
        &&& self.bounding_box.spec_contains(p.position)
        &&& p.mass > 0
        &&& self.particle.mass + p.mass <= MASS_LIMIT
    }

    /// Separates the `existing` occupant of a leaf, whose aggregate already
    /// includes `incoming`, from the incoming particle: while both fall in
    /// one quadrant a child holding the aggregate is added and entered; when
    /// they part, each gets a leaf of its own. A node with no level left
    /// below it stays a leaf that holds both as one aggregate.
    pub open spec fn split(self, existing: Particle, incoming: Particle, depth: nat) -> Node
        decreases depth,
    {
        let qe = self.bounding_box.spec_quadrant(existing.position);
        let qp = self.bounding_box.spec_quadrant(incoming.position);
        if depth == 0 {
            self
        } else if qe != qp {
            self.with_child(existing).with_child(incoming)
        } else {
            let qc = self.bounding_box.spec_quadrant(self.particle.position);
            let child = Node::leaf(self.bounding_box.spec_child_bb(qc), self.particle).split(
                existing,
                incoming,
                (depth - 1) as nat,
            );
            Node { children: self.children.update(qc, Some(child)), ..self }
        }
    }

    /// Insertion below a non-empty node. A subdivided node takes the mass
    /// into its aggregate first and hands the particle to the child of its
    /// quadrant, or puts it in a new leaf where that slot is free. A leaf
    /// takes the mass and is split.
    pub open spec fn insert_below(self, p: Particle, depth: nat) -> Node
        decreases depth,
    {
        let q = self.bounding_box.spec_quadrant(p.position);
        if self.is_subdivided() {
            let child = match self.children[q] {
                Some(c) => if depth > 0 {
                    c.insert_below(p, (depth - 1) as nat)
                } else {
                    c
                },
                None => Node::leaf(self.bounding_box.spec_child_bb(q), p),
            };
            Node { children: self.children.update(q, Some(child)), ..self.with_mass(p) }
        } else {
            self.with_mass(p).split(self.particle, p, depth)
        }
    }

    /// The tree after the insertion of `p`: unchanged where the tree does
    /// not take `p` in; `p` itself at an empty root; else inserted below it.
    pub open spec fn insert(self, p: Particle) -> Node {
        if !self.indexable(p) {
            self
        } else if self.particle.mass == 0 {
            Node { particle: p, ..self }
        } else {
            self.insert_below(p, MAX_DEPTH as nat)
        }
    }

    /// Splitting a leaf gives a valid node with the same box and aggregate.
    pub proof fn lemma_split_wf(self, existing: Particle, incoming: Particle, depth: nat)
        requires
            self.children =~= seq![None, None, None, None],
            self.bounding_box.wf(),
            existing.mass > 0,
            incoming.mass > 0,
            self.particle.mass == existing.mass + incoming.mass,
            self.particle.mass <= MASS_LIMIT,
            self.bounding_box.spec_contains(existing.position),
            self.bounding_box.spec_contains(incoming.position),
            between(self.particle.position, existing.position, incoming.position),
        ensures
            self.split(existing, incoming, depth).wf(depth),
            self.split(existing, incoming, depth).particle == self.particle,
            self.split(existing, incoming, depth).bounding_box == self.bounding_box,
        decreases depth,
    {
        let bb = self.bounding_box;
        let r = self.split(existing, incoming, depth);
        let qe = bb.spec_quadrant(existing.position);
        let qp = bb.spec_quadrant(incoming.position);
        bb.lemma_quadrant_child_contains(existing.position);
        bb.lemma_quadrant_child_contains(incoming.position);
        bb.lemma_children_partition(existing.position, qe, qp);
        if depth == 0 {
            assert(!self.is_subdivided());
        } else if qe != qp {
            let le = Node::leaf(bb.spec_child_bb(qe), existing);
            let lp = Node::leaf(bb.spec_child_bb(qp), incoming);
            assert(!le.is_subdivided());
            assert(!lp.is_subdivided());
            assert(le.wf((depth - 1) as nat));
            assert(lp.wf((depth - 1) as nat));
            assert(r.children =~= self.children.update(qe, Some(le)).update(qp, Some(lp)));
            assert(r.wf(depth));
        } else {
            let qc = bb.spec_quadrant(self.particle.position);
            assert(qc == qe);
            let start = Node::leaf(bb.spec_child_bb(qc), self.particle);
            start.lemma_split_wf(existing, incoming, (depth - 1) as nat);
            let child = start.split(existing, incoming, (depth - 1) as nat);
            assert(r.children =~= self.children.update(qc, Some(child)));
            assert(r.wf(depth));
        }
    }

    /// Insertion below a valid node gives a valid node with the same box,
    /// whose aggregate has taken the particle in.
    pub proof fn lemma_insert_below_wf(self, p: Particle, depth: nat)
        requires
            self.wf(depth),
            self.indexable(p),
        ensures
            self.insert_below(p, depth).wf(depth),
            self.insert_below(p, depth).particle == aggregate(
                self.particle,
                p.position.x,
                p.position.y,
                p.mass,
            ),
            self.insert_below(p, depth).bounding_box == self.bounding_box,
        decreases depth,
    {
        let bb = self.bounding_box;
        let r = self.insert_below(p, depth);
        let q = bb.spec_quadrant(p.position);
        bb.lemma_quadrant_child_contains(p.position);
        bb.lemma_children_partition(p.position, q, q);
        lemma_weighted_mean_bounds(
            self.particle.mass as int,
            self.particle.position.x as int,
            p.mass as int,
            p.position.x as int,
            bb.min_x as int,
            bb.max_x as int,
        );
        lemma_weighted_mean_bounds(
            self.particle.mass as int,
            self.particle.position.y as int,
            p.mass as int,
            p.position.y as int,
            bb.min_y as int,
            bb.max_y as int,
        );
        if self.is_subdivided() {
            self.lemma_child_masses();
            let child = match self.children[q] {
                Some(c) => c.insert_below(p, (depth - 1) as nat),
                None => Node::leaf(bb.spec_child_bb(q), p),
            };
            match self.children[q] {
                Some(c) => {
                    c.lemma_insert_below_wf(p, (depth - 1) as nat);
                },
                None => {
                    assert(!child.is_subdivided());
                },
            }
            assert(child.wf((depth - 1) as nat));
            assert(r.children =~= self.children.update(q, Some(child)));
            assert(r.children[q] is Some);
            assert(r.is_subdivided());
            assert(r.child_mass(q) == self.child_mass(q) + p.mass);
            assert forall|i: int| 0 <= i < 4 && i != q implies r.child_mass(i) == self.child_mass(
                i,
            ) by {}
            assert(r.wf(depth));
        } else {
            assert(self.children =~= seq![None, None, None, None]) by {
                assert forall|i: int| 0 <= i < 4 implies (#[trigger] self.children[i]) is None by {}
            }
            lemma_aggregate_between(self.particle, p);
            self.with_mass(p).lemma_split_wf(self.particle, p, depth);
        }
    }

    /// In a valid node no child slot weighs more than the node itself.
    pub proof fn lemma_child_masses(self)
        requires
            exists|depth: nat| self.wf(depth),
        ensures
            forall|i: int| 0 <= i < 4 ==> 0 <= #[trigger] self.child_mass(i) <= self.particle.mass,
    {
        let depth = choose|depth: nat| self.wf(depth);
        reveal_with_fuel(Node::wf, 2);
        assert(self.wf(depth));
        assert(self.children[0] is None || self.children[0] is Some);
        assert(self.children[1] is None || self.children[1] is Some);
        assert(self.children[2] is None || self.children[2] is Some);
        assert(self.children[3] is None || self.children[3] is Some);
        assert(self.child_mass(0) >= 0);
        assert(self.child_mass(1) >= 0);
        assert(self.child_mass(2) >= 0);
        assert(self.child_mass(3) >= 0);
        if !self.is_subdivided() {
            assert forall|i: int| 0 <= i < 4 implies (#[trigger] self.children[i]) is None by {}
        }
    }

    /// Insertion keeps a tree valid and its box, and adds the mass of the
    /// particle to the root's aggregate exactly when the tree takes it in.
    pub proof fn lemma_insert_wf(self, p: Particle)
        requires
            self.tree_wf(),
        ensures
            self.insert(p).tree_wf(),
            self.insert(p).bounding_box == self.bounding_box,
            self.insert(p).particle.mass == if self.indexable(p) {
                self.particle.mass + p.mass
            } else {
                self.particle.mass as int
            },
            self.insert(p).particle == if !self.indexable(p) {
                self.particle
            } else if self.particle.mass == 0 {
                p
            } else {
                aggregate(self.particle, p.position.x, p.position.y, p.mass)
            },
    {
        if self.indexable(p) {
            if self.particle.mass == 0 {
                let r = self.insert(p);
                assert(!r.is_subdivided());
                assert(r.wf(MAX_DEPTH as nat));
            } else {
                self.lemma_insert_below_wf(p, MAX_DEPTH as nat);
            }
        }
    }

    /// The aggregate at the root does not depend on the order in which two
    /// particles are inserted: its mass is the same either way, and so is
    /// its position, up to one unit of rounding along each axis where the
    /// tree already held a mass. Where the tree would take both particles
    /// in, their masses must fit in together.
    pub proof fn lemma_insert_order_independent(self, a: Particle, b: Particle)
        requires
            self.tree_wf(),
            self.bounding_box.spec_contains(a.position) && self.bounding_box.spec_contains(
                b.position,
            ) && a.mass > 0 && b.mass > 0 ==> self.particle.mass + a.mass + b.mass <= MASS_LIMIT,
        ensures
            self.insert(a).insert(b).particle.mass == self.insert(b).insert(a).particle.mass,
            self.particle.mass == 0 ==> self.insert(a).insert(b).particle.position == self.insert(
                b,
            ).insert(a).particle.position,
            -1 <= self.insert(a).insert(b).particle.position.x - self.insert(b).insert(
                a,
            ).particle.position.x <= 1,
            -1 <= self.insert(a).insert(b).particle.position.y - self.insert(b).insert(
                a,
            ).particle.position.y <= 1,
    {
        self.lemma_insert_wf(a);
        self.lemma_insert_wf(b);
        self.insert(a).lemma_insert_wf(b);
        self.insert(b).lemma_insert_wf(a);
        if self.indexable(a) && self.indexable(b) {
            let m = self.particle.mass as int;
            let p = self.particle.position;
            if m == 0 {
                assert(a.mass * a.position.x + b.mass * b.position.x == b.mass * b.position.x
                    + a.mass * a.position.x);
                assert(a.mass * a.position.y + b.mass * b.position.y == b.mass * b.position.y
                    + a.mass * a.position.y);
            } else {
                lemma_two_steps_in_range(m, p.x as int, a.mass as int, a.position.x as int,
                    b.mass as int, b.position.x as int);
                lemma_two_steps_in_range(m, p.x as int, b.mass as int, b.position.x as int,
                    a.mass as int, a.position.x as int);
                lemma_two_steps_in_range(m, p.y as int, a.mass as int, a.position.y as int,
                    b.mass as int, b.position.y as int);
                lemma_two_steps_in_range(m, p.y as int, b.mass as int, b.position.y as int,
                    a.mass as int, a.position.y as int);
                assert(m * p.x + a.mass * a.position.x + b.mass * b.position.x == m * p.x + b.mass
                    * b.position.x + a.mass * a.position.x);
                assert(m * p.y + a.mass * a.position.y + b.mass * b.position.y == m * p.y + b.mass
                    * b.position.y + a.mass * a.position.y);
            }
        }
    }

    /// A particle outside the bounding box leaves the tree as it is.
    pub proof fn lemma_insert_outside(self, p: Particle)
        requires
            !self.bounding_box.spec_contains(p.position),
        ensures
            self.insert(p) == self,
    {
    }

    /// The tree after the insertion of each particle of `points`, in order.
    pub open spec fn insert_all(self, points: Seq<Particle>) -> Node
        decreases points.len(),
    {
        if points.len() == 0 {
            self
        } else {
            self.insert_all(points.drop_last()).insert(points.last())
        }
    }
}

#[derive(Debug)]
pub struct QuadTree {
    pub bounding_box: QuadBoundingBox,
    pub particle: Particle,
    pub children: Vec<Option<QuadTree>>,
}

/// The model of child slot `i` of `slots`.
pub open spec fn slot_view(slots: Seq<Option<QuadTree>>, i: int) -> Option<Node>
    decreases slots, 0nat,
{
    if 0 <= i < slots.len() {
        match slots[i] {
            Some(t) => Some(t.view()),
            None => None,
        }
    } else {
        None
    }
}

impl View for QuadTree {
    type V = Node;

    open spec fn view(&self) -> Node
        decreases self,
    {
        Node {
            bounding_box: self.bounding_box,
            particle: self.particle,
            children: Seq::new(self.children@.len(), |i: int| slot_view(self.children@, i)),
        }
    }
}

impl QuadTree {
    /// The model's child slots are the models of the tree's child slots.
    pub proof fn lemma_view_slots(&self)
        ensures
            self@.children.len() == self.children@.len(),
            forall|i: int|
                0 <= i < self.children@.len() ==> #[trigger] self@.children[i] == (
                match self.children@[i] {
                    Some(t) => Some(t@),
                    None => None,
                }),
    {
    }

    /// An empty tree over the world square.
    pub fn empty() -> (r: Self)
        ensures
            r@.particle.mass == 0,
            r@.bounding_box == QuadBoundingBox::default_box(),
            r@.children =~= seq![None, None, None, None],
            r@.tree_wf(),
    {
        let r = Self {
            particle: Particle::empty(),
            bounding_box: QuadBoundingBox::default(),
            children: vec![None, None, None, None],
        };
        assert(r@.children =~= seq![None, None, None, None]);
        r
    }

    /// Update center of mass.
    /// See https://en.wikipedia.org/wiki/Center_of_mass#A_system_of_particles
    pub fn update_cm(&mut self, x: Scalar, y: Scalar, m: Scalar)
        requires
            old(self).particle.mass >= 0,
            m >= 0,
            0 < old(self).particle.mass + m <= MASS_LIMIT,
        ensures
            final(self).particle == aggregate(old(self).particle, x, y, m),
            final(self).bounding_box == old(self).bounding_box,
            final(self).children == old(self).children,
    {
        let mass = self.particle.mass;
        let px = self.particle.position.x;
        let py = self.particle.position.y;
        let total_mass = mass + m;
        proof {
            lemma_weighted_mean_bounds(mass as int, px as int, m as int, x as int,
                i64::MIN as int, i64::MAX as int);
            lemma_weighted_mean_bounds(mass as int, py as int, m as int, y as int,
                i64::MIN as int, i64::MAX as int);
            lemma_product_range(mass as int, px as int);
            lemma_product_range(m as int, x as int);
            lemma_product_range(mass as int, py as int);
            lemma_product_range(m as int, y as int);
        }
        let nx: i128 = (mass as i128) * (px as i128) + (m as i128) * (x as i128);
        let ny: i128 = (mass as i128) * (py as i128) + (m as i128) * (y as i128);
        self.particle.position.x = floor_div(nx, total_mass as i128) as i64;
        self.particle.position.y = floor_div(ny, total_mass as i128) as i64;
        self.particle.mass = total_mass;
    }

    /// Adds a new child to the quad tree. Quadrant and child bounding box is determined based on x and y.
    pub fn add_child(&mut self, particle: Particle)
        requires
            old(self).children.len() == 4,
        ensures
            final(self)@ == old(self)@.with_child(particle),
            final(self).children.len() == 4,
    {
        let quadrant = self.bounding_box.get_point_quadrant(particle.position);
        let child = Self {
            particle,
            bounding_box: self.bounding_box.get_child_bb(quadrant),
            children: vec![None, None, None, None],
        };
        assert(child@.children =~= seq![None, None, None, None]);
        self.children[quadrant] = Some(child);
        assert(self@.children =~= old(self)@.with_child(particle).children);
    }

    // is_subdivided checks to see if the current quadtree has any child nodes. If it does, then it is already
    // subdivided. If it doesn't, then it needs to be subdivided.
    pub fn is_subdivided(&self) -> (r: bool)
        ensures
            r == self@.is_subdivided(),
    {
        let mut i: usize = 0;
        while i < self.children.len()
            invariant
                i <= self.children.len(),
                forall|j: int| 0 <= j < i ==> (#[trigger] self@.children[j]) is None,
            decreases self.children.len() - i,
        {
            if self.children[i].is_some() {
                assert(self@.children[i as int] is Some);
                return true;
            }
            i += 1;
        }
        false
    }

    /// Separates the occupant of a leaf from an incoming particle that the
    /// leaf's aggregate already includes.
    fn subdivide(&mut self, existing: Particle, incoming: Particle, depth: usize)
        requires
            old(self)@.children =~= seq![None, None, None, None],
            old(self).bounding_box.wf(),
            old(self).bounding_box.spec_contains(existing.position),
            old(self).bounding_box.spec_contains(incoming.position),
            between(old(self).particle.position, existing.position, incoming.position),
        ensures
            final(self)@ == old(self)@.split(existing, incoming, depth as nat),
        decreases depth,
    {
        let bb = self.bounding_box;
        proof {
            self.lemma_view_slots();
        }
        let pq = bb.get_point_quadrant(existing.position);
        let quadrant = bb.get_point_quadrant(incoming.position);
        if depth == 0 {
            // No level is left: the two bodies stay merged in this leaf
        } else if quadrant != pq {
            self.add_child(existing);
            self.add_child(incoming);
        } else {
            // Both fall in one section: add a section that holds the
            // aggregate and go on in it
            let cm_particle = self.particle;
            proof {
                bb.lemma_children_partition(existing.position, quadrant as int, quadrant as int);
                bb.lemma_quadrant_child_contains(existing.position);
                bb.lemma_quadrant_child_contains(incoming.position);
            }
            assert(bb.spec_quadrant(cm_particle.position) == quadrant);
            self.add_child(cm_particle);
            proof {
                self.lemma_view_slots();
                assert(self@.children[quadrant as int] == Some(
                    Node::leaf(bb.spec_child_bb(quadrant as int), cm_particle),
                ));
                assert(self.children@[quadrant as int] is Some);
                assert forall|i: int| 0 <= i < 4 && i != quadrant implies self.children@[i]
                    is None by {
                    assert(self@.children[i] is None);
                }
            }
            let ghost mid = self.children@;
            match &mut self.children[quadrant] {
                Some(child) => {
                    child.subdivide(existing, incoming, depth - 1);
                },
                None => {},
            }
            proof {
                self.lemma_view_slots();
                assert(mid[quadrant as int].unwrap()@ == Node::leaf(
                    bb.spec_child_bb(quadrant as int),
                    cm_particle,
                ));
                let q = quadrant as int;
                let target = old(self)@.split(existing, incoming, depth as nat);
                assert forall|i: int| 0 <= i < 4 && i != q implies self@.children[i]
                    == target.children[i] by {
                    assert(mid[i] is None);
                }
                assert(self@.children =~= target.children);
            }
        }
    }

    /// Inserts below a non-empty node that may have `depth` more levels.
    fn insert_below(&mut self, particle: Particle, depth: usize)
        requires
            old(self)@.wf(depth as nat),
            old(self)@.indexable(particle),
        ensures
            final(self)@ == old(self)@.insert_below(particle, depth as nat),
        decreases depth,
    {
        let quadrant = self.bounding_box.get_point_quadrant(particle.position);
        proof {
            self.bounding_box.lemma_quadrant_child_contains(particle.position);
        }
        if self.is_subdivided() {
            // First, update the center of mass of this node
            self.update_cm(particle.position.x, particle.position.y, particle.mass);
            assert(old(self)@.children[quadrant as int] == slot_view(
                old(self).children@,
                quadrant as int,
            ));
            if self.children[quadrant].is_some() {
                proof {
                    old(self)@.lemma_child_masses();
                    assert(old(self)@.child_mass(quadrant as int) <= old(self).particle.mass);
                }
                match &mut self.children[quadrant] {
                    Some(child) => {
                        child.insert_below(particle, depth - 1);
                    },
                    None => {},
                }
            } else {
                self.add_child(particle);
            }
            assert(self@.children =~= old(self)@.insert_below(particle, depth as nat).children);
        } else {
            // This node is a leaf: each section holds at most one body, so
            // it is subdivided until the two bodies part.
            let existing = self.particle;
            assert(old(self)@.children =~= seq![None, None, None, None]) by {
                assert forall|i: int| 0 <= i < 4 implies (#[trigger] old(self)@.children[i])
                    is None by {}
            }
            self.update_cm(particle.position.x, particle.position.y, particle.mass);
            proof {
                lemma_aggregate_between(existing, particle);
            }
            self.subdivide(existing, particle, depth);
        }
    }

    /// Inserts a particle. One that lies outside the bounding box, has no
    /// positive mass, or would take the aggregate mass over `MASS_LIMIT` is
    /// left out of the index.
    pub fn insert_particle(&mut self, particle: Particle)
        requires
            old(self)@.tree_wf(),
        ensures
            final(self)@ == old(self)@.insert(particle),
            final(self)@.tree_wf(),
            final(self)@.particle.mass == if old(self)@.indexable(particle) {
                old(self)@.particle.mass + particle.mass
            } else {
                old(self)@.particle.mass as int
            },
            !old(self)@.bounding_box.spec_contains(particle.position) ==> final(self)@ == old(
                self,
            )@,
    {
        // In case we get a point that does not lie in our boundary
        if !self.bounding_box.contains(particle.position) {
            return ;
        }
        if particle.mass <= 0 || self.particle.mass > MASS_LIMIT - particle.mass {
            return ;
        }
        proof {
            self@.lemma_insert_wf(particle);
        }
        if self.particle.mass == 0 {
            self.particle = particle;
            return ;
        }
        self.insert_below(particle, MAX_DEPTH);
    }

    /// Builds the tree of the particles, inserted in input order.
    pub fn from_points(points: Vec<Particle>) -> (r: Self)
        ensures
            r@.tree_wf(),
            exists|root: Node|
                root.is_empty_root() && r@ == #[trigger] root.insert_all(points@),
    {
        let mut qt = Self::empty();
        let ghost root = qt@;
        let mut i: usize = 0;
        while i < points.len()
            invariant
                i <= points.len(),
                qt@.tree_wf(),
                qt@ == root.insert_all(points@.take(i as int)),
            decreases points.len() - i,
        {
            qt.insert_particle(points[i]);
            proof {
                assert(points@.take(i + 1).drop_last() =~= points@.take(i as int));
            }
            i += 1;
        }
        proof {
            assert(points@.take(i as int) =~= points@);
        }
        qt
    }
}

/// The product of a mass within `MASS_LIMIT` and a coordinate fits in 126 bits.
pub proof fn lemma_product_range(m: int, x: int)
    requires
        0 <= m <= MASS_LIMIT,
        i64::MIN <= x <= i64::MAX,
    ensures
        -0x2000_0000_0000_0000_0000_0000_0000_0000 <= m * x
            <= 0x2000_0000_0000_0000_0000_0000_0000_0000,
{
    assert(-0x2000_0000_0000_0000_0000_0000_0000_0000 <= m * x
        <= 0x2000_0000_0000_0000_0000_0000_0000_0000) by (nonlinear_arith)
        requires
            0 <= m <= 0x4000_0000_0000_0000,
            -0x8000_0000_0000_0000 <= x <= 0x7fff_ffff_ffff_ffff,
    ;
}

} // verus!

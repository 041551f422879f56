//! Broad phase of collision detection: the particles in the cells around a particle.
use vstd::prelude::*;
use crate::particle::Particle;
use crate::quadtree::{Node, QuadTree};

verus! {

impl Node {
    /// The particles of the leaves below this node, but those with the
    /// identifier `id`, first slot first.
    pub open spec fn leaves_except(self, id: u128) -> Seq<Particle>
        decreases self, 0nat,
    {
        if self.is_subdivided() {
            Self::slot_leaves(self.children, self.children.len() as int, id)
        } else if self.particle.id != id {
            seq![self.particle]
        } else {
            Seq::empty()
        }
    }

    /// The particles of the leaves below the first `n` child slots, but
    /// those with the identifier `id`.
    pub open spec fn slot_leaves(slots: Seq<Option<Node>>, n: int, id: u128) -> Seq<Particle>
        decreases slots, n,
    {
        if 0 < n <= slots.len() {
            Self::slot_leaves(slots, n - 1, id) + (match slots[n - 1] {
                Some(c) => c.leaves_except(id),
                None => Seq::empty(),
            })
        } else {
            Seq::empty()
        }
    }

    /// The node around the leaf of `p`. The descent from this node follows
    /// the quadrants of the position of `p`; where it ends at a leaf with
    /// the identifier of `p`, the result is the node visited just before,
    /// or `parent` if this node is that leaf. Where it ends elsewhere, the
    /// tree does not hold `p` as a leaf and there is no result.
    pub open spec fn neighbourhood(self, parent: Node, p: Particle) -> Option<Node>
        decreases self,
    {
        let q = self.bounding_box.spec_quadrant(p.position);
        if !self.is_subdivided() {
            if self.particle.id == p.id {
                Some(parent)
            } else {
                None
            }
        } else if q < self.children.len() {
            match self.children[q] {
                Some(c) => c.neighbourhood(self, p),
                None => None,
            }
        } else {
            None
        }
    }

    /// The candidates for a collision with `p`: the other leaves of the
    /// node around the leaf of `p`.
    pub open spec fn nearby(self, p: Particle) -> Seq<Particle> {
        match self.neighbourhood(self, p) {
            Some(n) => n.leaves_except(p.id),
            None => Seq::empty(),
        }
    }
}

impl QuadTree {
    /// Appends the particles of the leaves below this node, but those with
    /// the identifier `id`.
    pub fn collect_leaves(&self, id: u128, out: &mut Vec<Particle>)
        ensures
            final(out)@ == old(out)@ + self@.leaves_except(id),
        decreases self,
    {
        if !self.is_subdivided() {
            if self.particle.id != id {
                out.push(self.particle);
                assert(out@ =~= old(out)@ + self@.leaves_except(id));
            } else {
                assert(out@ =~= old(out)@ + self@.leaves_except(id));
            }
            return ;
        }
        proof {
            self.lemma_view_slots();
        }
        let mut i: usize = 0;
        assert(out@ =~= old(out)@ + Node::slot_leaves(self@.children, 0, id));
        while i < self.children.len()
            invariant
                i <= self.children.len(),
                self@.children.len() == self.children@.len(),
                forall|j: int|
                    0 <= j < self.children@.len() ==> #[trigger] self@.children[j] == (
                    match self.children@[j] {
                        Some(t) => Some(t@),
                        None => None,
                    }),
                out@ == old(out)@ + Node::slot_leaves(self@.children, i as int, id),
            decreases self.children.len() - i,
        {
            let ghost prev = out@;
            if let Some(child) = &self.children[i] {
                child.collect_leaves(id, out);
                assert(self@.children[i as int] == Some(child@));
            } else {
                assert(self@.children[i as int] is None);
            }
            assert(out@ =~= old(out)@ + Node::slot_leaves(self@.children, i + 1, id));
            i += 1;
        }
    }

    /// The node around the leaf of `p`, if the tree holds `p` as a leaf.
    pub fn find_neighbourhood<'a>(&'a self, parent: &'a QuadTree, p: &Particle) -> (r: Option<
        &'a QuadTree,
    >)
        ensures
            match r {
                Some(n) => self@.neighbourhood(parent@, *p) == Some(n@),
                None => self@.neighbourhood(parent@, *p) is None,
            },
        decreases self,
    {
        let quadrant = self.bounding_box.get_point_quadrant(p.position);
        proof {
            self.lemma_view_slots();
        }
        if !self.is_subdivided() {
            if self.particle.id == p.id {
                Some(parent)
            } else {
                None
            }
        } else if quadrant < self.children.len() {
            match &self.children[quadrant] {
                Some(child) => {
                    assert(self@.children[quadrant as int] == Some(child@));
                    child.find_neighbourhood(self, p)
                },
                None => {
                    assert(self@.children[quadrant as int] is None);
                    None
                },
            }
        } else {
            None
        }
    }

    /// The candidates for a collision with `p`.
    pub fn nearby_particles(&self, p: &Particle) -> (r: Vec<Particle>)
        ensures
            r@ == self@.nearby(*p),
    {
        let mut out: Vec<Particle> = Vec::new();
        match self.find_neighbourhood(self, p) {
            Some(n) => {
                n.collect_leaves(p.id, &mut out);
                assert(out@ =~= self@.nearby(*p));
            },
            None => {},
        }
        out
    }
}

} // verus!

//! Opening-angle traversal: the nodes that act on a point as force sources.
use vstd::prelude::*;
use crate::quadtree::{Node, QuadTree};
use crate::scalar::{ONE, Scalar, Vec2, clamp, distance, floor_div, saturate, separation};

verus! {

impl Node {
    /// The node's aggregate sits on the query point itself.
    pub open spec fn coincides(self, p: Vec2) -> bool {
        separation(self.particle.position, p) == 0
    }

    /// Side of the node's box over its distance from `p`, as a fixed-point
    /// number rounded down; for a node that does not coincide with `p`.
    pub open spec fn opening_ratio(self, p: Vec2) -> int {
        clamp(
            clamp(self.bounding_box.spec_length()) * ONE / separation(self.particle.position, p),
        )
    }

    /// The node stands for its whole subtree: it is a leaf, or far enough
    /// from `p` for its opening ratio to stay under `theta`.
    pub open spec fn is_source(self, p: Vec2, theta: Scalar) -> bool {
        !self.coincides(p) && (!self.is_subdivided() || self.opening_ratio(p) < theta)
    }

    /// With a threshold of zero or less no subdivided node stands for its
    /// subtree: every force source is a leaf, and the sum over them is pairwise.
    pub proof fn lemma_zero_threshold_yields_leaves(self, p: Vec2, theta: Scalar)
        requires
            self.bounding_box.wf(),
            theta <= 0,
            self.is_source(p, theta),
        ensures
            !self.is_subdivided(),
    {
        let side = clamp(self.bounding_box.spec_length());
        let d = separation(self.particle.position, p);
        crate::scalar::lemma_separation_not_negative(self.particle.position, p);
        assert(side * ONE >= 0) by (nonlinear_arith)
            requires
                side >= 0,
        ;
        vstd::arithmetic::div_mod::lemma_div_pos_is_pos(side * ONE, d);
    }

    /// The force sources below this node, in the order of the traversal:
    /// none where the node coincides with `p`, the node itself where it is a
    /// source, else those of its children, last slot first.
    pub open spec fn sources(self, p: Vec2, theta: Scalar) -> Seq<Node>
        decreases self, 0nat,
    {
        if self.coincides(p) {
            Seq::empty()
        } else if self.is_source(p, theta) {
            seq![self]
        } else {
            Self::slot_sources(self.children, self.children.len() as int, p, theta)
        }
    }

    /// The force sources below the first `n` child slots, last slot first.
    pub open spec fn slot_sources(
        slots: Seq<Option<Node>>,
        n: int,
        p: Vec2,
        theta: Scalar,
    ) -> Seq<Node>
        decreases slots, n,
    {
        if 0 < n <= slots.len() {
            (match slots[n - 1] {
                Some(c) => c.sources(p, theta),
                None => Seq::empty(),
            }) + Self::slot_sources(slots, n - 1, p, theta)
        } else {
            Seq::empty()
        }
    }

    /// Number of nodes of the subtree.
    pub open spec fn size(self) -> nat
        decreases self, 0nat,
    {
        1 + Self::slot_size(self.children, self.children.len() as int)
    }

    /// Number of nodes below the first `n` child slots.
    pub open spec fn slot_size(slots: Seq<Option<Node>>, n: int) -> nat
        decreases slots, n,
    {
        if 0 < n <= slots.len() {
            (match slots[n - 1] {
                Some(c) => c.size(),
                None => 0,
            }) + Self::slot_size(slots, n - 1)
        } else {
            0
        }
    }
}

/// The force sources that a stack of nodes still yields, its top being its end.
pub open spec fn stack_sources(stack: Seq<Node>, p: Vec2, theta: Scalar) -> Seq<Node>
    decreases stack.len(),
{
    if stack.len() == 0 {
        Seq::empty()
    } else {
        stack.last().sources(p, theta) + stack_sources(stack.drop_last(), p, theta)
    }
}

/// Number of nodes below the nodes of a stack.
pub open spec fn stack_size(stack: Seq<Node>) -> nat
    decreases stack.len(),
{
    if stack.len() == 0 {
        0
    } else {
        stack.last().size() + stack_size(stack.drop_last())
    }
}

/// The models of the trees on a stack.
pub open spec fn stack_view(stack: Seq<&QuadTree>) -> Seq<Node> {
    Seq::new(stack.len(), |i: int| stack[i]@)
}

pub struct QuadTreeIter<'a> {
    /// The point for which net force is being calculated
    p: Vec2,
    /// Accuracy metric. If theta is zero, then this degenerates into a brute force sum (quadratic complexity)
    theta: Scalar,
    stack: Vec<&'a QuadTree>,
}

impl<'a> QuadTreeIter<'a> {
    /// The force sources that the traversal has yet to yield, in order.
    pub closed spec fn remaining(&self) -> Seq<Node> {
        stack_sources(stack_view(self.stack@), self.p, self.theta)
    }

    /// The point for which net force is being calculated.
    pub closed spec fn query(&self) -> Vec2 {
        self.p
    }

    /// The opening-angle threshold.
    pub closed spec fn threshold(&self) -> Scalar {
        self.theta
    }

    pub fn new(p: Vec2, theta: Scalar, root: &'a QuadTree) -> (r: Self)
        ensures
            r.remaining() == root@.sources(p, theta),
            r.query() == p,
            r.threshold() == theta,
    {
        let r = Self { p, theta, stack: vec![root] };
        proof {
            let s = stack_view(r.stack@);
            assert(s.len() == 1 && s.last() == root@);
            assert(s.drop_last() =~= Seq::<Node>::empty());
            assert(stack_sources(s.drop_last(), p, theta) =~= Seq::<Node>::empty());
            assert(stack_sources(s, p, theta) =~= root@.sources(p, theta));
        }
        r
    }

    /// The next force source: the first of those that remain, or `None`
    /// when none remains.
    pub fn next(&mut self) -> (r: Option<&'a QuadTree>)
        ensures
            final(self).query() == old(self).query(),
            final(self).threshold() == old(self).threshold(),
            match r {
                Some(node) => old(self).remaining().len() > 0 && node@ == old(
                    self,
                ).remaining().first() && final(self).remaining() == old(
                    self,
                ).remaining().drop_first(),
                None => old(self).remaining().len() == 0 && final(self).remaining().len() == 0,
            },
    {
        let p = self.p;
        let theta = self.theta;
        while !self.stack.is_empty()
            invariant
                self.p == p,
                self.theta == theta,
                p == old(self).p,
                theta == old(self).theta,
                self.remaining() == old(self).remaining(),
            decreases stack_size(stack_view(self.stack@)),
        {
            let ghost before = stack_view(self.stack@);
            let node = self.stack.pop().unwrap();
            let ghost rest = stack_view(self.stack@);
            proof {
                assert(before.last() == node@);
                assert(before.drop_last() =~= rest);
            }
            let s = node.bounding_box.length();
            let d = distance(node.particle.position, p);
            if d == 0 {
                continue ;
            }
            // If node is a leaf node or if the distance ratio between point and node is low enough
            // (lower the distance ratio, the farther away the two points are in space), then approximate
            // that particle by returning the internal node

            if !node.is_subdivided() || ratio(s, d) < theta {
                proof {
                    let all = old(self).remaining();
                    assert(all =~= seq![node@] + stack_sources(rest, p, theta));
                    assert(all.drop_first() =~= stack_sources(rest, p, theta));
                }
                return Some(node);
            }
            // If node is not sufficiently far away, then recurse into
            // the node's children

            let mut i: usize = 0;
            proof {
                node.lemma_view_slots();
            }
            while i < node.children.len()
                invariant
                    i <= node.children.len(),
                    self.p == p,
                    self.theta == theta,
                    node@.children.len() == node.children@.len(),
                    forall|j: int|
                        0 <= j < node.children@.len() ==> #[trigger] node@.children[j] == (
                        match node.children@[j] {
                            Some(t) => Some(t@),
                            None => None,
                        }),
                    stack_sources(stack_view(self.stack@), p, theta) == Node::slot_sources(
                        node@.children,
                        i as int,
                        p,
                        theta,
                    ) + stack_sources(rest, p, theta),
                    stack_size(stack_view(self.stack@)) == Node::slot_size(
                        node@.children,
                        i as int,
                    ) + stack_size(rest),
                decreases node.children.len() - i,
            {
                let ghost prev = stack_view(self.stack@);
                if let Some(child) = &node.children[i] {
                    self.stack.push(child);
                    proof {
                        let now = stack_view(self.stack@);
                        assert(now.last() == child@);
                        assert(now.drop_last() =~= prev);
                        assert(node@.children[i as int] == Some(child@));
                        assert(stack_sources(now, p, theta) =~= child@.sources(p, theta)
                            + stack_sources(prev, p, theta));
                    }
                } else {
                    assert(node@.children[i as int] is None);
                }
                proof {
                    let now = stack_view(self.stack@);
                    assert(stack_sources(now, p, theta) =~= Node::slot_sources(
                        node@.children,
                        i + 1,
                        p,
                        theta,
                    ) + stack_sources(rest, p, theta));
                }
                i += 1;
            }
        }
        proof {
            assert(stack_view(self.stack@) =~= Seq::<Node>::empty());
        }
        None
    }
}

/// Side `s` over distance `d` as a fixed-point number, rounded down and saturated.
fn ratio(s: Scalar, d: u64) -> (r: Scalar)
    requires
        d > 0,
    ensures
        r == clamp(s * ONE / (d as int)),
{
    assert(-0x8000_0000_0000_0000 * 1_000_000 <= s * ONE <= 0x8000_0000_0000_0000 * 1_000_000);
    saturate(floor_div((s as i128) * (ONE as i128), d as i128))
}

} // verus!

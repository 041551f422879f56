//! Axis-aligned boxes and their split into quadrants.
use vstd::prelude::*;
use crate::scalar::{Scalar, Vec2, clamp, floor_div, sat_sub};
use crate::constants::{MAX_X, MAX_Y, MIN_X, MIN_Y};

verus! {

/// The region `[min_x, max_x] x [min_y, max_y]`, borders included.
#[derive(Debug, Clone, Copy, PartialEq, Eq, Structural)]
pub struct QuadBoundingBox {
    pub min_x: Scalar,
    pub max_x: Scalar,
    pub min_y: Scalar,
    pub max_y: Scalar,
}

impl QuadBoundingBox {
    /// Neither axis is reversed.
    pub open spec fn wf(self) -> bool {
        self.min_x <= self.max_x && self.min_y <= self.max_y
    }

    /// Both sides have the same length.
    pub open spec fn is_square(self) -> bool {
        self.max_x - self.min_x == self.max_y - self.min_y
    }

    /// Midpoint of the x axis, rounded down.
    pub open spec fn spec_cx(self) -> int {
        (self.min_x + self.max_x) / 2
    }

    /// Midpoint of the y axis, rounded down.
    pub open spec fn spec_cy(self) -> int {
        (self.min_y + self.max_y) / 2
    }

    /// Side length along the x axis.
    pub open spec fn spec_length(self) -> int {
        self.max_x - self.min_x
    }

    /// The point lies in the box, borders included.
    pub open spec fn spec_contains(self, p: Vec2) -> bool {
        self.min_x <= p.x <= self.max_x && self.min_y <= p.y <= self.max_y
    }

    /// Quadrant index of a point: bit 0 is set in the right half, bit 1 in the bottom half.
    pub open spec fn spec_quadrant(self, p: Vec2) -> int {
        (if p.x >= self.spec_cx() { 1int } else { 0int })
            + (if p.y <= self.spec_cy() { 2int } else { 0int })
    }

    /// The sub-box of a quadrant; any index above 3 gives the box itself.
    pub open spec fn spec_child_bb(self, quadrant: int) -> QuadBoundingBox {
        let cx = self.spec_cx() as i64;
        let cy = self.spec_cy() as i64;
        if quadrant == 0 {
            QuadBoundingBox { min_x: self.min_x, max_x: cx, min_y: cy, max_y: self.max_y }
        } else if quadrant == 1 {
            QuadBoundingBox { min_x: cx, max_x: self.max_x, min_y: cy, max_y: self.max_y }
        } else if quadrant == 2 {
            QuadBoundingBox { min_x: self.min_x, max_x: cx, min_y: self.min_y, max_y: cy }
        } else if quadrant == 3 {
            QuadBoundingBox { min_x: cx, max_x: self.max_x, min_y: self.min_y, max_y: cy }
        } else {
            self
        }
    }

    /// The world square.
    pub open spec fn default_box() -> QuadBoundingBox {
        QuadBoundingBox { min_x: MIN_X, max_x: MAX_X, min_y: MIN_Y, max_y: MAX_Y }
    }

    /// Gets the center of the x axis of the bounding box
    pub fn cx(&self) -> (r: Scalar)
        ensures
            r == self.spec_cx(),
    {
        floor_div(self.min_x as i128 + self.max_x as i128, 2) as i64
    }

    /// Gets the center of the y axis of the bounding box
    pub fn cy(&self) -> (r: Scalar)
        ensures
            r == self.spec_cy(),
    {
        floor_div(self.min_y as i128 + self.max_y as i128, 2) as i64
    }

    /// Gets the length of the bounding box, saturated where it exceeds the range of a `Scalar`
    pub fn length(&self) -> (r: Scalar)
        ensures
            r == clamp(self.spec_length()),
    {
        sat_sub(self.max_x, self.min_x)
    }

    /// If the point does not lie in this bounding box, `contains` will return false
    pub fn contains(&self, p: Vec2) -> (r: bool)
        ensures
            r == self.spec_contains(p),
    {
        (p.x <= self.max_x && p.y <= self.max_y) && (p.x >= self.min_x && p.y >= self.min_y)
    }

    /// Given a point, determine which quadrant it lies in
    pub fn get_point_quadrant(&self, p: Vec2) -> (r: usize)
        ensures
            r == self.spec_quadrant(p),
            r < 4,
    {
        // 0 if left half. 1 if right half.
        let x_bit: usize = if p.x >= self.cx() { 1 } else { 0 };
        // 0 if top half. 2 if bottom half.
        let y_bit: usize = if p.y <= self.cy() { 2 } else { 0 };
        x_bit + y_bit
    }

    /// Gets the child bounding box given a quadrant index
    /// Quadrant indices go from 0 -> 3
    /// Indices 0 -> 1 represents left -> right of the top half
    /// Indices 2 -> 3 represents left -> right of the bottom half
    pub fn get_child_bb(&self, quadrant: usize) -> (r: Self)
        ensures
            r == self.spec_child_bb(quadrant as int),
    {
        match quadrant {
            0 => Self { min_x: self.min_x, max_x: self.cx(), min_y: self.cy(), max_y: self.max_y },
            1 => Self { min_x: self.cx(), max_x: self.max_x, min_y: self.cy(), max_y: self.max_y },
            2 => Self { min_x: self.min_x, max_x: self.cx(), min_y: self.min_y, max_y: self.cy() },
            3 => Self { min_x: self.cx(), max_x: self.max_x, min_y: self.min_y, max_y: self.cy() },
            _ => *self,
        }
    }

    /// The four sub-boxes cover the box: a point lies in the box exactly when
    /// it lies in one of them, and two different sub-boxes share a point only
    /// on a midline.
    pub proof fn lemma_children_partition(self, p: Vec2, q1: int, q2: int)
        requires
            self.wf(),
            0 <= q1 < 4,
            0 <= q2 < 4,
        ensures
            self.spec_contains(p) <==> (self.spec_child_bb(0).spec_contains(p)
                || self.spec_child_bb(1).spec_contains(p) || self.spec_child_bb(2).spec_contains(p)
                || self.spec_child_bb(3).spec_contains(p)),
            self.spec_child_bb(q1).wf(),
            q1 != q2 && self.spec_child_bb(q1).spec_contains(p) && self.spec_child_bb(
                q2,
            ).spec_contains(p) ==> p.x == self.spec_cx() || p.y == self.spec_cy(),
    {
    }

    /// Each sub-box of a square with an even side is a square of half that side.
    pub proof fn lemma_children_equal_squares(self, q: int)
        requires
            self.wf(),
            self.is_square(),
            self.spec_length() % 2 == 0,
            0 <= q < 4,
        ensures
            self.spec_child_bb(q).is_square(),
            self.spec_child_bb(q).spec_length() * 2 == self.spec_length(),
    {
    }

    /// A point of the box lies in the sub-box of its own quadrant.
    pub proof fn lemma_quadrant_child_contains(self, p: Vec2)
        requires
            self.wf(),
            self.spec_contains(p),
        ensures
            0 <= self.spec_quadrant(p) < 4,
            self.spec_child_bb(self.spec_quadrant(p)).spec_contains(p),
    {
    }
}

impl Default for QuadBoundingBox {
    /// The world square.
    fn default() -> (r: Self)
        ensures
            r == QuadBoundingBox::default_box(),
    {
        Self { min_x: MIN_X, max_x: MAX_X, min_y: MIN_Y, max_y: MAX_Y }
    }
}

} // verus!

//! Window-to-viewport mapping and identifier generation.
use vstd::prelude::*;
use crate::scalar::{Scalar, Vec2, clamp, quotient, sat_add, sat_div, sat_sub, wide_mul};

verus! {

#[derive(Debug)]
pub struct MinMax<T> {
    pub min: T,
    pub max: T,
}

impl<T: Copy> Clone for MinMax<T> {
    fn clone(&self) -> (r: Self)
        ensures
            r == *self,
    {
        MinMax { min: self.min, max: self.max }
    }
}

impl<T: Copy> Copy for MinMax<T> {

}

#[derive(Debug)]
pub struct ViewportTransformOptions {
    pub window_pos: Vec2,
    /// Min and max values of x axis on window space
    pub xw: MinMax<Scalar>,
    /// Min and max values of y axis on window space
    pub yw: MinMax<Scalar>,
    /// Min and max values of x axis on viewport space
    pub xv: MinMax<Scalar>,
    /// Min and max values of y axis on viewport space
    pub yv: MinMax<Scalar>,
}

/// Where `v` of the window range `w` falls in the viewport range `vp`:
/// `vp.min + (v - w.min) * (vp.max - vp.min) / (w.max - w.min)`, the
/// differences, the quotient and the sum each saturated.
pub open spec fn map_axis(v: Scalar, w: MinMax<Scalar>, vp: MinMax<Scalar>) -> int {
    clamp(
        vp.min + clamp(
            quotient(clamp(v - w.min) * clamp(vp.max - vp.min), clamp(w.max - w.min)),
        ),
    )
}

/// Maps one coordinate from the window range to the viewport range.
pub fn transform_axis(v: Scalar, w: MinMax<Scalar>, vp: MinMax<Scalar>) -> (r: Scalar)
    ensures
        r == map_axis(v, w, vp),
{
    let offset = sat_sub(v, w.min);
    let span_v = sat_sub(vp.max, vp.min);
    let span_w = sat_sub(w.max, w.min);
    sat_add(vp.min, sat_div(wide_mul(offset, span_v), span_w as i128))
}

/// Window to viewport transformation
pub fn normalize_window_coordinates(options: &ViewportTransformOptions) -> (r: Vec2)
    ensures
        r.x == map_axis(options.window_pos.x, options.xw, options.xv),
        r.y == map_axis(options.window_pos.y, options.yw, options.yv),
{
    let x = transform_axis(options.window_pos.x, options.xw, options.xv);
    let y = transform_axis(options.window_pos.y, options.yw, options.yv);
    Vec2 { x, y }
}

/// Generates a new v4 UUID, as its 128-bit value.
///
/// Calls `uuid::Uuid::new_v4` and reads the result with `Uuid::as_u128`.
/// The value is random, so nothing is claimed of it.
#[verifier::external_body]
pub fn generate_new_uuid() -> (id: u128) {
    uuid::Uuid::new_v4().as_u128()
}

} // verus!

//! Index buffer of the triangle fan that draws a circle.
use vstd::prelude::*;

verus! {

/// The indices of a fan around vertex 0 after the triangles up to rim
/// vertex `i`: the closing triangle `(0, n - 1, 1)` comes first, then one
/// triangle `(0, k, k + 1)` for each rim vertex `k` from 1 to `i`.
pub open spec fn fan_indices(n: int, i: int) -> Seq<u16>
    decreases i,
{
    if i <= 0 {
        seq![0u16, (n - 1) as u16, 1u16]
    } else {
        fan_indices(n, i - 1) + seq![0u16, i as u16, (i + 1) as u16]
    }
}

/// Connects each rim vertex of a circle of `num_vertices` vertices with
/// the center vertex 0 and the next rim vertex, which produces a fan of
/// triangles.
pub fn circle_indices(num_vertices: u16) -> (ibuf: Vec<u16>)
    requires
        num_vertices >= 1,
    ensures
        ibuf@ == fan_indices(num_vertices as int, num_vertices - 1),
        ibuf@.len() == 3 * num_vertices,
{
    let mut ibuf: Vec<u16> = vec![0, num_vertices - 1, 1];
    let mut i: u16 = 1;
    assert(ibuf@ =~= fan_indices(num_vertices as int, 0));
    while i < num_vertices
        invariant
            1 <= i <= num_vertices,
            ibuf@ == fan_indices(num_vertices as int, i - 1),
            ibuf@.len() == 3 * i,
        decreases num_vertices - i,
    {
        ibuf.push(0);
        ibuf.push(i);
        ibuf.push(i + 1);
        assert(ibuf@ =~= fan_indices(num_vertices as int, i as int));
        i += 1;
    }
    ibuf
}

} // verus!

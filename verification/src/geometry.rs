//! Points, box corner generation, and the subdivision arithmetic.
//!
//! Cells live on a plain integer grid: a caller that measures its cloud in
//! fractional units scales it onto this grid before importing. All corner
//! layouts follow one fixed winding order, and the subdivision midpoint is
//! always derived from the corner-0/corner-3 pair, never from a generic
//! per-axis midpoint.

use vstd::prelude::*;

verus! {

/// A position on the tree's integer coordinate grid.
#[derive(Clone, Copy, PartialEq, Eq, Structural, Debug)]
pub struct Point {
    pub x: i64,
    pub y: i64,
    pub z: i64,
}

/// Builds a `Point` from unbounded coordinates; exact whenever they fit in `i64`.
pub open spec fn pt(x: int, y: int, z: int) -> Point {
    Point { x: x as i64, y: y as i64, z: z as i64 }
}

/// The strict acceptance window of a lobe cell: `p` is accepted iff each axis
/// coordinate lies strictly between `middle - radius` and `middle + radius`.
pub open spec fn in_window(middle: Point, radius: i64, p: Point) -> bool {
    &&& middle.x - radius < p.x < middle.x + radius
    &&& middle.y - radius < p.y < middle.y + radius
    &&& middle.z - radius < p.z < middle.z + radius
}

/// The eight corners of the axis-aligned box with minimum corner `(x, y, z)`
/// and edge length `size`, in the fixed winding order
/// origin, +y, +x+y, +x, then the same four again offset by +z.
pub open spec fn box_corners(x: int, y: int, z: int, size: int) -> Seq<Point> {
    seq![
        pt(x, y, z),
        pt(x, y + size, z),
        pt(x + size, y + size, z),
        pt(x + size, y, z),
        pt(x, y, z + size),
        pt(x, y + size, z + size),
        pt(x + size, y + size, z + size),
        pt(x + size, y, z + size),
    ]
}

/// Half the corner-0-to-corner-3 distance: the sub-box edge length used for
/// every axis when a box is split into octants.
pub open spec fn half_edge(c: Seq<Point>) -> int
    recommends
        c.len() == 8,
{
    (c[3].x - c[0].x) / 2
}

/// A corner array that the subdivision arithmetic accepts: eight corners in
/// the fixed winding order, wide enough apart for the corner-pair midpoint
/// derivation and small enough that every derived coordinate fits in `i64`.
pub open spec fn divisible_box(c: Seq<Point>) -> bool {
    &&& c.len() == 8
    &&& c[0].x <= c[3].x
    &&& c[3].x - c[0].x <= i64::MAX
    &&& c[0].y + (c[3].x - c[0].x) <= i64::MAX
    &&& c[0].z + (c[3].x - c[0].x) <= i64::MAX
}

/// The geometric middle of a box, derived from corners 0 and 3: the half-edge
/// is measured on the x axis and applied to all three axes.
pub open spec fn corners_middle(c: Seq<Point>) -> Point
    recommends
        c.len() == 8,
{
    pt(c[0].x + half_edge(c), c[0].y + half_edge(c), c[0].z + half_edge(c))
}

/// The corner arrays of the eight half-size octants of a box, ordered
/// bottom ring (origin, +y, +x+y, +x) then the same four at +z.
pub open spec fn octants_of(c: Seq<Point>) -> Seq<Seq<Point>>
    recommends
        c.len() == 8,
{
    let s = half_edge(c);
    let x = c[0].x as int;
    let y = c[0].y as int;
    let z = c[0].z as int;
    seq![
        box_corners(x, y, z, s),
        box_corners(x, y + s, z, s),
        box_corners(x + s, y + s, z, s),
        box_corners(x + s, y, z, s),
        box_corners(x, y, z + s, s),
        box_corners(x, y + s, z + s, s),
        box_corners(x + s, y + s, z + s, s),
        box_corners(x + s, y, z + s, s),
    ]
}

/// The corner sequences of a vector of corner arrays, element by element.
pub open spec fn corner_views(s: Seq<Vec<Point>>) -> Seq<Seq<Point>> {
    Seq::new(s.len(), |i: int| s[i]@)
}

/// Octant corner arrays that cluster carving accepts: eight boxes the
/// subdivision arithmetic accepts, with the corner-0-to-corner-1 height of
/// octant 0 (which fixes the cluster radius) representable in `i64`.
pub open spec fn cluster_fits(octs: Seq<Seq<Point>>) -> bool {
    &&& octs.len() == 8
    &&& (forall|k: int| 0 <= k < 8 ==> divisible_box(#[trigger] octs[k]))
    &&& i64::MIN < octs[0][1].y - octs[0][0].y <= i64::MAX
}

/// Coordinates that keep every corner of `box_corners(x, y, z, e)` exact in
/// `i64`, with a nonnegative edge.
pub open spec fn box_fits(x: int, y: int, z: int, e: int) -> bool {
    &&& 0 <= e <= i64::MAX
    &&& i64::MIN <= x && x + e <= i64::MAX
    &&& i64::MIN <= y && y + e <= i64::MAX
    &&& i64::MIN <= z && z + e <= i64::MAX
}

/// A box whose corner coordinates all fit in `i64` and whose edge is
/// nonnegative is itself acceptable to the subdivision arithmetic.
pub proof fn lemma_box_fits(x: int, y: int, z: int, s: int)
    requires
        box_fits(x, y, z, s),
    ensures
        divisible_box(box_corners(x, y, z, s)),
{
}

/// The half-edge of an exact box is half its edge.
pub proof fn lemma_box_half_edge(x: int, y: int, z: int, e: int)
    requires
        box_fits(x, y, z, e),
    ensures
        half_edge(box_corners(x, y, z, e)) == e / 2,
{
}

/// Splitting an acceptable box yields eight octants that cluster carving
/// accepts in turn.
pub proof fn lemma_octants_fit(c: Seq<Point>)
    requires
        divisible_box(c),
    ensures
        cluster_fits(octants_of(c)),
{
    let s = half_edge(c);
    let x = c[0].x as int;
    let y = c[0].y as int;
    let z = c[0].z as int;
    assert(0 <= s);
    assert(2 * s <= c[3].x - c[0].x);
    lemma_box_fits(x, y, z, s);
    lemma_box_fits(x, y + s, z, s);
    lemma_box_fits(x + s, y + s, z, s);
    lemma_box_fits(x + s, y, z, s);
    lemma_box_fits(x, y, z + s, s);
    lemma_box_fits(x, y + s, z + s, s);
    lemma_box_fits(x + s, y + s, z + s, s);
    lemma_box_fits(x + s, y, z + s, s);
}

/// Generates the eight corners of an axis-aligned box in the fixed winding order.
pub fn gen_cube(x: i64, y: i64, z: i64, size: i64) -> (r: Vec<Point>)
    requires
        i64::MIN <= x + size <= i64::MAX,
        i64::MIN <= y + size <= i64::MAX,
        i64::MIN <= z + size <= i64::MAX,
    ensures
        r@ == box_corners(x as int, y as int, z as int, size as int),
{
    let xs = x + size;
    let ys = y + size;
    let zs = z + size;
    let mut r: Vec<Point> = Vec::new();
    r.push(Point { x, y, z });
    r.push(Point { x, y: ys, z });
    r.push(Point { x: xs, y: ys, z });
    r.push(Point { x: xs, y, z });
    r.push(Point { x, y, z: zs });
    r.push(Point { x, y: ys, z: zs });
    r.push(Point { x: xs, y: ys, z: zs });
    r.push(Point { x: xs, y, z: zs });
    proof {
        assert(r@ =~= box_corners(x as int, y as int, z as int, size as int));
    }
    r
}

/// The geometric middle of a box via the corner-0/corner-3 derivation.
pub fn cube_middle(cube: &Vec<Point>) -> (r: Point)
    requires
        divisible_box(cube@),
    ensures
        r == corners_middle(cube@),
{
    let start_x = cube[0].x;
    let start_y = cube[0].y;
    let start_z = cube[0].z;
    let width_x = cube[3].x;

    let size = (width_x - start_x) / 2;
    Point { x: start_x + size, y: start_y + size, z: start_z + size }
}

/// Splits a box into its eight half-size octants.
pub fn octree_divide_into_cube(octree_cube: &Vec<Point>) -> (r: Vec<Vec<Point>>)
    requires
        divisible_box(octree_cube@),
    ensures
        r@.len() == 8,
        forall|k: int| 0 <= k < 8 ==> r@[k]@ == octants_of(octree_cube@)[k],
{
    let start_x = octree_cube[0].x;
    let start_y = octree_cube[0].y;
    let start_z = octree_cube[0].z;
    let width_x = octree_cube[3].x;

    let size = (width_x - start_x) / 2;
    let middle_x = start_x + size;
    let middle_y = start_y + size;
    let middle_z = start_z + size;

    let mut r: Vec<Vec<Point>> = Vec::new();
    r.push(gen_cube(start_x, start_y, start_z, size));
    r.push(gen_cube(start_x, middle_y, start_z, size));
    r.push(gen_cube(middle_x, middle_y, start_z, size));
    r.push(gen_cube(middle_x, start_y, start_z, size));
    r.push(gen_cube(start_x, start_y, middle_z, size));
    r.push(gen_cube(start_x, middle_y, middle_z, size));
    r.push(gen_cube(middle_x, middle_y, middle_z, size));
    r.push(gen_cube(middle_x, start_y, middle_z, size));
    r
}

} // verus!


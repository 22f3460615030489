//! Library-wide laws: statements that relate several operations, proved once
//! over the model that every operation's contract is written in.
//!
//! The window laws pin the strict acceptance boundary; the multiplicity laws
//! say exactly how often an imported point is stored (once per accepting
//! leaf, culminating in: a standard tree never stores one point twice); the
//! filter laws show that points sharing a lobe keep their batch order.

use vstd::prelude::*;

use crate::geometry::{
    box_corners, box_fits, lemma_box_fits, lemma_box_half_edge,
    corners_middle, divisible_box, half_edge, in_window, octants_of, Point,
};
use crate::model::{
    accepting_leaf_count, accepting_leaf_seq_count, accepts, children_of, cluster_radius,
    corners_of, exported, exported_seq, imported, imported_seq, lobe_divided, sphere_cluster,
    standard_branch, standard_tree, stored_of, NodeModel,
};
use crate::tree::Octree;

verus! {

/// Export is read-only: the sequence it returns is a function of the tree
/// alone, so two exports with no import in between return identical results.
pub proof fn lemma_export_repeatable(t: Octree, first: Seq<Point>, second: Seq<Point>)
    requires
        first == exported(t@),
        second == exported(t@),
    ensures
        first == second,
{
}

/// The window boundary is excluded: a point exactly `radius` away from the
/// middle on one axis, level with it on the others, is not accepted.
pub proof fn lemma_window_boundary_excluded(middle: Point, radius: i64, p: Point)
    requires
        radius > 0,
        (p.x == middle.x + radius && p.y == middle.y && p.z == middle.z) || (p.y == middle.y
            + radius && p.x == middle.x && p.z == middle.z) || (p.z == middle.z + radius && p.x
            == middle.x && p.y == middle.y),
    ensures
        !in_window(middle, radius, p),
{
}

/// Just inside the boundary is accepted: pulling the boundary point inward by
/// any `eps` with `0 < eps < 2 * radius` lands in the window.
pub proof fn lemma_window_boundary_included(middle: Point, radius: i64, p: Point, eps: int)
    requires
        radius > 0,
        0 < eps < 2 * radius,
        (p.x == middle.x + radius - eps && p.y == middle.y && p.z == middle.z) || (p.y == middle.y
            + radius - eps && p.x == middle.x && p.z == middle.z) || (p.z == middle.z + radius
            - eps && p.x == middle.x && p.y == middle.y),
    ensures
        in_window(middle, radius, p),
{
}

/// Windows separated by at least the sum of their radii on some axis share no
/// point: such sibling lobes can never store the same point twice.
pub proof fn lemma_separated_windows_disjoint(
    m1: Point,
    r1: i64,
    m2: Point,
    r2: i64,
    p: Point,
)
    requires
        m2.x - m1.x >= r1 + r2 || m2.y - m1.y >= r1 + r2 || m2.z - m1.z >= r1 + r2,
    ensures
        !(in_window(m1, r1, p) && in_window(m2, r2, p)),
{
}

/// Sibling lobes of one freshly carved cluster never both accept a point:
/// two distinct cluster members sit a full octant edge apart on some axis,
/// while each window reaches only a third of that edge from its middle, so
/// within one cluster a point is stored at most once.
pub proof fn lemma_sibling_windows_disjoint(c: Seq<Point>, a: int, b: int, p: Point)
    requires
        divisible_box(c),
        0 <= a < 8,
        0 <= b < 8,
        a != b,
    ensures
        !(accepts(sphere_cluster(octants_of(c))[a], p) && accepts(
            sphere_cluster(octants_of(c))[b],
            p,
        )),
{
    let s = half_edge(c);
    assert(0 <= s);
    assert(2 * s <= c[3].x - c[0].x);
    let rad = cluster_radius(octants_of(c));
    assert(rad == s / 3);
    assert(2 * (s / 3) <= s);
    let ma = corners_middle(octants_of(c)[a]);
    let mb = corners_middle(octants_of(c)[b]);
    if s == 0 {
        assert(rad == 0);
        assert(!in_window(ma, rad, p));
    } else {
        assert(ma.x != mb.x || ma.y != mb.y || ma.z != mb.z);
        assert(ma.x - mb.x == s || mb.x - ma.x == s || ma.x == mb.x);
        assert(ma.y - mb.y == s || mb.y - ma.y == s || ma.y == mb.y);
        assert(ma.z - mb.z == s || mb.z - ma.z == s || ma.z == mb.z);
        if mb.x - ma.x >= 2 * rad || mb.y - ma.y >= 2 * rad || mb.z - ma.z >= 2 * rad {
            lemma_separated_windows_disjoint(ma, rad, mb, rad, p);
        } else {
            lemma_separated_windows_disjoint(mb, rad, ma, rad, p);
        }
    }
}

/// A sequence of subtrees with a positive accepting-leaf total has a member
/// with a positive count.
proof fn lemma_accepting_pos_exists(s: Seq<NodeModel>, p: Point)
    requires
        accepting_leaf_seq_count(s, p) >= 1,
    ensures
        exists|i: int|
            0 <= i < s.len() && accepting_leaf_count(#[trigger] s[i], p) >= 1,
    decreases s.len(),
{
    if accepting_leaf_count(s.last(), p) >= 1 {
        assert(accepting_leaf_count(s[s.len() - 1], p) >= 1);
    } else {
        lemma_accepting_pos_exists(s.drop_last(), p);
        let i = choose|i: int|
            0 <= i < s.drop_last().len() && accepting_leaf_count(
                #[trigger] s.drop_last()[i],
                p,
            ) >= 1;
        assert(accepting_leaf_count(s[i], p) >= 1);
    }
}

/// If each subtree of a sequence stores a point at most once, and no two
/// subtrees both store it, the sequence as a whole stores it at most once.
proof fn lemma_accepting_at_most_one(s: Seq<NodeModel>, p: Point)
    requires
        forall|i: int| 0 <= i < s.len() ==> accepting_leaf_count(#[trigger] s[i], p) <= 1,
        forall|a: int, b: int|
            0 <= a < b < s.len() ==> !(accepting_leaf_count(#[trigger] s[a], p) >= 1
                && accepting_leaf_count(#[trigger] s[b], p) >= 1),
    ensures
        accepting_leaf_seq_count(s, p) <= 1,
    decreases s.len(),
{
    if s.len() > 0 {
        lemma_accepting_at_most_one(s.drop_last(), p);
        if accepting_leaf_seq_count(s.drop_last(), p) >= 1 && accepting_leaf_count(
            s.last(),
            p,
        ) >= 1 {
            lemma_accepting_pos_exists(s.drop_last(), p);
            let i = choose|i: int|
                0 <= i < s.drop_last().len() && accepting_leaf_count(
                    #[trigger] s.drop_last()[i],
                    p,
                ) >= 1;
            assert(accepting_leaf_count(s[i], p) >= 1);
            assert(accepting_leaf_count(s[s.len() - 1], p) >= 1);
        }
    }
}

/// A point accepted by any member of the lobe cluster carved from an exact
/// box lies strictly inside that box on every axis.
proof fn lemma_cluster_accept_interior(x: int, y: int, z: int, e: int, r: int, p: Point)
    requires
        box_fits(x, y, z, e),
        0 <= r < 8,
        accepts(sphere_cluster(octants_of(box_corners(x, y, z, e)))[r], p),
    ensures
        x < p.x < x + e,
        y < p.y < y + e,
        z < p.z < z + e,
{
    lemma_box_half_edge(x, y, z, e);
    let s = e / 2;
    lemma_box_half_edge(x, y, z, s);
    lemma_box_half_edge(x, y + s, z, s);
    lemma_box_half_edge(x + s, y + s, z, s);
    lemma_box_half_edge(x + s, y, z, s);
    lemma_box_half_edge(x, y, z + s, s);
    lemma_box_half_edge(x, y + s, z + s, s);
    lemma_box_half_edge(x + s, y + s, z + s, s);
    lemma_box_half_edge(x + s, y, z + s, s);
    assert(s / 3 <= s / 2);
    assert(s / 2 + s / 3 <= s);
}

/// The lobe cluster carved from an exact box stores a point at most once.
proof fn lemma_cluster_at_most_one(x: int, y: int, z: int, e: int, p: Point)
    requires
        box_fits(x, y, z, e),
    ensures
        accepting_leaf_seq_count(sphere_cluster(octants_of(box_corners(x, y, z, e))), p) <= 1,
{
    let c = box_corners(x, y, z, e);
    let cells = sphere_cluster(octants_of(c));
    lemma_box_fits(x, y, z, e);
    assert(forall|i: int|
        0 <= i < cells.len() ==> accepting_leaf_count(#[trigger] cells[i], p) <= 1);
    assert forall|a: int, b: int|
        0 <= a < b < cells.len() implies !(accepting_leaf_count(#[trigger] cells[a], p) >= 1
        && accepting_leaf_count(#[trigger] cells[b], p) >= 1) by {
        lemma_sibling_windows_disjoint(c, a, b, p);
    }
    lemma_accepting_at_most_one(cells, p);
}

/// A cell carved from an exact box and subdivided into lobes stores a point
/// at most once, and only a point strictly inside that box.
proof fn lemma_lobe_with_box_at_most_one(
    cell: NodeModel,
    x: int,
    y: int,
    z: int,
    e: int,
    p: Point,
)
    requires
        box_fits(x, y, z, e),
        corners_of(cell) == box_corners(x, y, z, e),
    ensures
        accepting_leaf_count(lobe_divided(cell), p) <= 1,
        accepting_leaf_count(lobe_divided(cell), p) >= 1 ==> x < p.x < x + e && y < p.y < y + e
            && z < p.z < z + e,
{
    let cells = sphere_cluster(octants_of(box_corners(x, y, z, e)));
    lemma_cluster_at_most_one(x, y, z, e, p);
    if accepting_leaf_count(lobe_divided(cell), p) >= 1 {
        lemma_accepting_pos_exists(cells, p);
        let r = choose|r: int|
            0 <= r < cells.len() && accepting_leaf_count(#[trigger] cells[r], p) >= 1;
        lemma_cluster_accept_interior(x, y, z, e, r, p);
    }
}

/// One branch of the standard schedule, built over an exact box, stores a
/// point at most once, and only a point strictly inside that box.
#[verifier::rlimit(100)]
#[verifier::spinoff_prover]
proof fn lemma_branch_at_most_one(x: int, y: int, z: int, e: int, p: Point)
    requires
        box_fits(x, y, z, e),
    ensures
        accepting_leaf_count(standard_branch(box_corners(x, y, z, e)), p) <= 1,
        accepting_leaf_count(standard_branch(box_corners(x, y, z, e)), p) >= 1 ==> x < p.x < x
            + e && y < p.y < y + e && z < p.z < z + e,
{
    lemma_box_half_edge(x, y, z, e);
    let s = e / 2;
    let c = box_corners(x, y, z, e);
    let octs = octants_of(c);
    let cells = sphere_cluster(octs);
    let subs = cells.map(|k: int, cc: NodeModel| lobe_divided(cc));
    assert forall|q: int|
        0 <= q < 8 implies (accepting_leaf_count(#[trigger] subs[q], p) <= 1 && (
        accepting_leaf_count(subs[q], p) >= 1 ==> octs[q][0].x < p.x < octs[q][0].x + s
            && octs[q][0].y < p.y < octs[q][0].y + s && octs[q][0].z < p.z < octs[q][0].z
            + s)) by {
        assert(subs[q] == lobe_divided(cells[q]));
        if q == 0 {
            lemma_lobe_with_box_at_most_one(cells[q], x, y, z, s, p);
        } else if q == 1 {
            lemma_lobe_with_box_at_most_one(cells[q], x, y + s, z, s, p);
        } else if q == 2 {
            lemma_lobe_with_box_at_most_one(cells[q], x + s, y + s, z, s, p);
        } else if q == 3 {
            lemma_lobe_with_box_at_most_one(cells[q], x + s, y, z, s, p);
        } else if q == 4 {
            lemma_lobe_with_box_at_most_one(cells[q], x, y, z + s, s, p);
        } else if q == 5 {
            lemma_lobe_with_box_at_most_one(cells[q], x, y + s, z + s, s, p);
        } else if q == 6 {
            lemma_lobe_with_box_at_most_one(cells[q], x + s, y + s, z + s, s, p);
        } else {
            lemma_lobe_with_box_at_most_one(cells[q], x + s, y, z + s, s, p);
        }
    }
    assert forall|a: int, b: int|
        0 <= a < b < subs.len() implies !(accepting_leaf_count(#[trigger] subs[a], p) >= 1
        && accepting_leaf_count(#[trigger] subs[b], p) >= 1) by {
        if accepting_leaf_count(subs[a], p) >= 1 && accepting_leaf_count(subs[b], p) >= 1 {
            assert(octs[a][0].x != octs[b][0].x || octs[a][0].y != octs[b][0].y || octs[a][0].z
                != octs[b][0].z);
        }
    }
    lemma_accepting_at_most_one(subs, p);
    if accepting_leaf_count(standard_branch(c), p) >= 1 {
        lemma_accepting_pos_exists(subs, p);
        let q = choose|q: int|
            0 <= q < subs.len() && accepting_leaf_count(#[trigger] subs[q], p) >= 1;
        assert(octs[q][0].x == x || octs[q][0].x == x + s);
        assert(octs[q][0].y == y || octs[q][0].y == y + s);
        assert(octs[q][0].z == z || octs[q][0].z == z + s);
    }
}

/// One root branch of a standard tree stores a point at most once, and only
/// a point strictly inside that branch's octant.
#[verifier::rlimit(100)]
#[verifier::spinoff_prover]
proof fn lemma_root_branch_facts(size: i64, k: int, p: Point)
    requires
        0 < size,
        0 <= k < 8,
    ensures
        ({
            let e = size as int;
            let s = e / 2;
            let octs = octants_of(box_corners(0, 0, 0, e));
            let branches = children_of(standard_tree(size)).unwrap();
            &&& accepting_leaf_count(branches[k], p) <= 1
            &&& (accepting_leaf_count(branches[k], p) >= 1 ==> octs[k][0].x < p.x < octs[k][0].x
                + s && octs[k][0].y < p.y < octs[k][0].y + s && octs[k][0].z < p.z < octs[k][0].z
                + s)
        }),
{
    let e = size as int;
    lemma_box_half_edge(0, 0, 0, e);
    let s = e / 2;
    let octs = octants_of(box_corners(0, 0, 0, e));
    let branches = children_of(standard_tree(size)).unwrap();
    assert(branches[k] == standard_branch(octs[k]));
    if k == 0 {
        lemma_branch_at_most_one(0, 0, 0, s, p);
    } else if k == 1 {
        lemma_branch_at_most_one(0, s, 0, s, p);
    } else if k == 2 {
        lemma_branch_at_most_one(s, s, 0, s, p);
    } else if k == 3 {
        lemma_branch_at_most_one(s, 0, 0, s, p);
    } else if k == 4 {
        lemma_branch_at_most_one(0, 0, s, s, p);
    } else if k == 5 {
        lemma_branch_at_most_one(0, s, s, s, p);
    } else if k == 6 {
        lemma_branch_at_most_one(s, s, s, s, p);
    } else {
        lemma_branch_at_most_one(s, 0, s, s, p);
    }
}

/// The standard schedule never files one point under two leaf lobes: however
/// a point relates to the gap-ridden leaf windows, at most one leaf of
/// `standard_tree(size)` accepts it.
#[verifier::rlimit(100)]
#[verifier::spinoff_prover]
pub proof fn lemma_standard_tree_at_most_once(size: i64, p: Point)
    requires
        0 < size,
    ensures
        accepting_leaf_count(standard_tree(size), p) <= 1,
{
    let e = size as int;
    lemma_box_half_edge(0, 0, 0, e);
    let s = e / 2;
    let octs = octants_of(box_corners(0, 0, 0, e));
    let branches = children_of(standard_tree(size)).unwrap();
    assert forall|k: int|
        0 <= k < 8 implies (accepting_leaf_count(#[trigger] branches[k], p) <= 1 && (
        accepting_leaf_count(branches[k], p) >= 1 ==> octs[k][0].x < p.x < octs[k][0].x + s
            && octs[k][0].y < p.y < octs[k][0].y + s && octs[k][0].z < p.z < octs[k][0].z
            + s)) by {
        lemma_root_branch_facts(size, k, p);
    }
    assert forall|a: int, b: int|
        0 <= a < b < branches.len() implies !(accepting_leaf_count(#[trigger] branches[a], p)
        >= 1 && accepting_leaf_count(#[trigger] branches[b], p) >= 1) by {
        if accepting_leaf_count(branches[a], p) >= 1 && accepting_leaf_count(branches[b], p)
            >= 1 {
            assert(octs[a][0].x != octs[b][0].x || octs[a][0].y != octs[b][0].y || octs[a][0].z
                != octs[b][0].z);
        }
    }
    lemma_accepting_at_most_one(branches, p);
}

/// Corollary: importing one point into a standard tree grows the export by
/// at most one entry; the known coverage gap can only lose points, never
/// duplicate them.
pub proof fn lemma_standard_import_no_duplicates(size: i64, p: Point)
    requires
        0 < size,
    ensures
        exported(imported(standard_tree(size), seq![p])).len() <= exported(
            standard_tree(size),
        ).len() + 1,
{
    lemma_import_single_multiplicity(standard_tree(size), p);
    lemma_standard_tree_at_most_once(size, p);
}

/// Importing one point grows the export by exactly one copy per accepting
/// leaf lobe: a point in no window is dropped, a point in several windows is
/// stored once per window.
pub proof fn lemma_import_single_multiplicity(m: NodeModel, p: Point)
    ensures
        exported(imported(m, seq![p])).len() == exported(m).len() + accepting_leaf_count(m, p),
    decreases m,
{
    match children_of(m) {
        Some(cs) => {
            lemma_import_single_multiplicity_seq(cs, p);
        }
        None => {
            match m {
                NodeModel::Cube { .. } => {}
                NodeModel::Sphere { middle, radius, data, .. } => {
                    assert(seq![p].drop_last() =~= Seq::<Point>::empty());
                    assert(seq![p].last() == p);
                    assert(stored_of(Seq::<Point>::empty(), middle, radius)
                        == Seq::<Point>::empty());
                    assert(stored_of(seq![p], middle, radius) == if in_window(middle, radius, p) {
                        Seq::<Point>::empty().push(p)
                    } else {
                        Seq::<Point>::empty()
                    });
                }
            }
        }
    }
}

/// The sequence form of the single-point multiplicity law.
proof fn lemma_import_single_multiplicity_seq(s: Seq<NodeModel>, p: Point)
    ensures
        exported_seq(imported_seq(s, seq![p])).len() == exported_seq(s).len()
            + accepting_leaf_seq_count(s, p),
    decreases s,
{
    if s.len() > 0 {
        lemma_import_single_multiplicity_seq(s.drop_last(), p);
        lemma_import_single_multiplicity(s.last(), p);
        let t = imported_seq(s, seq![p]);
        assert(t.drop_last() =~= imported_seq(s.drop_last(), seq![p]));
        assert(t.last() == imported(s.last(), seq![p]));
    }
}

/// Filtering a batch through one window distributes over concatenation.
pub proof fn lemma_stored_of_concat(a: Seq<Point>, b: Seq<Point>, middle: Point, radius: i64)
    ensures
        stored_of(a + b, middle, radius) == stored_of(a, middle, radius) + stored_of(
            b,
            middle,
            radius,
        ),
    decreases b.len(),
{
    if b.len() == 0 {
        assert(a + b =~= a);
        assert(stored_of(a, middle, radius) + stored_of(b, middle, radius) =~= stored_of(
            a,
            middle,
            radius,
        ));
    } else {
        lemma_stored_of_concat(a, b.drop_last(), middle, radius);
        assert((a + b).drop_last() =~= a + b.drop_last());
        assert((a + b).last() == b.last());
        if in_window(middle, radius, b.last()) {
            assert((stored_of(a, middle, radius) + stored_of(b.drop_last(), middle, radius)).push(
                b.last(),
            ) =~= stored_of(a, middle, radius) + stored_of(b.drop_last(), middle, radius).push(
                b.last(),
            ));
        }
    }
}

/// Points that land in the same lobe keep their relative order: the window
/// filter maps a batch `a + [p] + b + [q] + c` with `p` and `q` accepted to
/// `filtered(a) + [p] + filtered(b) + [q] + filtered(c)`, so `p` still comes
/// before `q` in the leaf's stored sequence and in the export that flattens
/// it.
pub proof fn lemma_same_cell_order(
    a: Seq<Point>,
    p: Point,
    b: Seq<Point>,
    q: Point,
    c: Seq<Point>,
    middle: Point,
    radius: i64,
)
    requires
        in_window(middle, radius, p),
        in_window(middle, radius, q),
    ensures
        stored_of(a + seq![p] + b + seq![q] + c, middle, radius) == stored_of(a, middle, radius)
            + seq![p] + stored_of(b, middle, radius) + seq![q] + stored_of(c, middle, radius),
{
    lemma_stored_of_singleton(p, middle, radius);
    lemma_stored_of_singleton(q, middle, radius);
    lemma_stored_of_concat(a, seq![p], middle, radius);
    lemma_stored_of_concat(a + seq![p], b, middle, radius);
    lemma_stored_of_concat(a + seq![p] + b, seq![q], middle, radius);
    lemma_stored_of_concat(a + seq![p] + b + seq![q], c, middle, radius);
}

/// A one-point batch whose point is accepted is stored whole.
proof fn lemma_stored_of_singleton(p: Point, middle: Point, radius: i64)
    requires
        in_window(middle, radius, p),
    ensures
        stored_of(seq![p], middle, radius) == seq![p],
{
    assert(seq![p].drop_last() =~= Seq::<Point>::empty());
    assert(stored_of(Seq::<Point>::empty(), middle, radius) == Seq::<Point>::empty());
    assert(stored_of(seq![p], middle, radius) =~= seq![p]);
}

} // verus!

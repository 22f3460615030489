//! The mathematical model of the partition tree.
//!
//! Every executable node structure abstracts to a `NodeModel`, and all
//! contracts in this crate are stated over these models: corner sequences,
//! stored-point sequences, node counts, and the functional meaning of
//! `import` and `export`.

use vstd::prelude::*;

use crate::geometry::{
    box_corners, corners_middle, in_window, octants_of, Point,
};

verus! {

/// The abstract shape and content of one cell and its subtree.
///
/// `Cube` cells are pure routing containers; `Sphere` cells carry an
/// acceptance window (`middle`, `radius`) and the points stored so far, in
/// insertion order. `children` is either absent (a leaf) or a sequence of
/// eight subtrees.
pub enum NodeModel {
    Cube { corners: Seq<Point>, children: Option<Seq<NodeModel>> },
    Sphere {
        middle: Point,
        radius: i64,
        data: Seq<Point>,
        corners: Seq<Point>,
        children: Option<Seq<NodeModel>>,
    },
}

/// The child subtrees of a cell, if it has any.
pub open spec fn children_of(m: NodeModel) -> Option<Seq<NodeModel>> {
    match m {
        NodeModel::Cube { children, .. } => children,
        NodeModel::Sphere { children, .. } => children,
    }
}

/// The box corners a cell was carved from.
pub open spec fn corners_of(m: NodeModel) -> Seq<Point> {
    match m {
        NodeModel::Cube { corners, .. } => corners,
        NodeModel::Sphere { corners, .. } => corners,
    }
}

/// The same cell with its child array replaced.
pub open spec fn with_children(m: NodeModel, c: Option<Seq<NodeModel>>) -> NodeModel {
    match m {
        NodeModel::Cube { corners, .. } => NodeModel::Cube { corners, children: c },
        NodeModel::Sphere { middle, radius, data, corners, .. } => NodeModel::Sphere {
            middle,
            radius,
            data,
            corners,
            children: c,
        },
    }
}

/// Whether a cell accepts a point: boxes never do, lobes apply the strict
/// window test around their middle.
pub open spec fn accepts(m: NodeModel, p: Point) -> bool {
    match m {
        NodeModel::Cube { .. } => false,
        NodeModel::Sphere { middle, radius, .. } => in_window(middle, radius, p),
    }
}

/// Total number of cells in the subtree.
pub open spec fn node_count(m: NodeModel) -> nat
    decreases m,
{
    match children_of(m) {
        Some(cs) => 1 + seq_count(cs),
        None => 1,
    }
}

/// Total number of cells in a sequence of subtrees.
pub open spec fn seq_count(s: Seq<NodeModel>) -> nat
    decreases s,
{
    if s.len() == 0 {
        0
    } else {
        seq_count(s.drop_last()) + node_count(s.last())
    }
}

/// Number of leaf lobe cells (the cells that can accept data) in the subtree.
pub open spec fn lobe_leaf_count(m: NodeModel) -> nat
    decreases m,
{
    match m {
        NodeModel::Cube { children, .. } => match children {
            Some(cs) => lobe_leaf_seq_count(cs),
            None => 0,
        },
        NodeModel::Sphere { children, .. } => match children {
            Some(cs) => lobe_leaf_seq_count(cs),
            None => 1,
        },
    }
}

/// Number of leaf lobe cells in a sequence of subtrees.
pub open spec fn lobe_leaf_seq_count(s: Seq<NodeModel>) -> nat
    decreases s,
{
    if s.len() == 0 {
        0
    } else {
        lobe_leaf_seq_count(s.drop_last()) + lobe_leaf_count(s.last())
    }
}

/// Whether every lobe cell in the subtree currently stores no points.
pub open spec fn datas_empty(m: NodeModel) -> bool
    decreases m,
{
    &&& (m matches NodeModel::Sphere { data, .. } ==> data.len() == 0)
    &&& match children_of(m) {
        Some(cs) => datas_empty_seq(cs),
        None => true,
    }
}

/// Whether every lobe cell in a sequence of subtrees stores no points.
pub open spec fn datas_empty_seq(s: Seq<NodeModel>) -> bool
    decreases s,
{
    if s.len() == 0 {
        true
    } else {
        datas_empty_seq(s.drop_last()) && datas_empty(s.last())
    }
}

/// The flattened point sequence `export` produces: depth first, children in
/// index order, a lobe's own stored points before its descendants' points.
pub open spec fn exported(m: NodeModel) -> Seq<Point>
    decreases m,
{
    match m {
        NodeModel::Cube { children, .. } => match children {
            Some(cs) => exported_seq(cs),
            None => Seq::empty(),
        },
        NodeModel::Sphere { data, children, .. } => match children {
            Some(cs) => data + exported_seq(cs),
            None => data,
        },
    }
}

/// The concatenated exports of a sequence of subtrees, in index order.
pub open spec fn exported_seq(s: Seq<NodeModel>) -> Seq<Point>
    decreases s,
{
    if s.len() == 0 {
        Seq::empty()
    } else {
        exported_seq(s.drop_last()) + exported(s.last())
    }
}

/// The subsequence of `data` accepted by the window (`middle`, `radius`),
/// in input order.
pub open spec fn stored_of(data: Seq<Point>, middle: Point, radius: i64) -> Seq<Point>
    decreases data.len(),
{
    if data.len() == 0 {
        Seq::empty()
    } else if in_window(middle, radius, data.last()) {
        stored_of(data.drop_last(), middle, radius).push(data.last())
    } else {
        stored_of(data.drop_last(), middle, radius)
    }
}

/// The functional meaning of `import`: every batch is handed unfiltered to
/// every subtree; a leaf lobe appends the points its window accepts, in
/// input order; leaf boxes and all interior cells are unchanged.
pub open spec fn imported(m: NodeModel, data: Seq<Point>) -> NodeModel
    decreases m,
{
    match m {
        NodeModel::Cube { corners, children } => match children {
            Some(cs) => NodeModel::Cube { corners, children: Some(imported_seq(cs, data)) },
            None => NodeModel::Cube { corners, children },
        },
        NodeModel::Sphere { middle, radius, data: stored, corners, children } => match children {
            Some(cs) => NodeModel::Sphere {
                middle,
                radius,
                data: stored,
                corners,
                children: Some(imported_seq(cs, data)),
            },
            None => NodeModel::Sphere {
                middle,
                radius,
                data: stored + stored_of(data, middle, radius),
                corners,
                children,
            },
        },
    }
}

/// `import` applied to each subtree of a sequence.
pub open spec fn imported_seq(s: Seq<NodeModel>, data: Seq<Point>) -> Seq<NodeModel>
    decreases s,
{
    if s.len() == 0 {
        Seq::empty()
    } else {
        imported_seq(s.drop_last(), data).push(imported(s.last(), data))
    }
}

/// How many leaf lobe cells of the subtree accept `p`. Because `import`
/// fans every batch out to every leaf, this is exactly how many copies of
/// `p` one `import` of `[p]` adds to the tree.
pub open spec fn accepting_leaf_count(m: NodeModel, p: Point) -> nat
    decreases m,
{
    match children_of(m) {
        Some(cs) => accepting_leaf_seq_count(cs, p),
        None => if accepts(m, p) {
            1nat
        } else {
            0nat
        },
    }
}

/// How many leaf lobe cells across a sequence of subtrees accept `p`.
pub open spec fn accepting_leaf_seq_count(s: Seq<NodeModel>, p: Point) -> nat
    decreases s,
{
    if s.len() == 0 {
        0
    } else {
        accepting_leaf_seq_count(s.drop_last(), p) + accepting_leaf_count(s.last(), p)
    }
}

/// Every cell of a sequence counts no more than the whole sequence.
pub proof fn lemma_seq_count_element(s: Seq<NodeModel>, i: int)
    requires
        0 <= i < s.len(),
    ensures
        node_count(s[i]) <= seq_count(s),
    decreases s.len(),
{
    if i < s.len() - 1 {
        lemma_seq_count_element(s.drop_last(), i);
    }
}

/// A sequence whose cells are the element-wise imports of another sequence's
/// cells is that sequence's import.
pub proof fn lemma_imported_seq_pointwise(a: Seq<NodeModel>, b: Seq<NodeModel>, data: Seq<Point>)
    requires
        a.len() == b.len(),
        forall|k: int| 0 <= k < a.len() ==> b[k] == imported(a[k], data),
    ensures
        b == imported_seq(a, data),
    decreases a.len(),
{
    if a.len() == 0 {
        assert(b =~= imported_seq(a, data));
    } else {
        lemma_imported_seq_pointwise(a.drop_last(), b.drop_last(), data);
        assert(b =~= imported_seq(a, data));
    }
}

/// Cell counts add over concatenation.
pub proof fn lemma_seq_count_concat(a: Seq<NodeModel>, b: Seq<NodeModel>)
    ensures
        seq_count(a + b) == seq_count(a) + seq_count(b),
    decreases b.len(),
{
    if b.len() == 0 {
        assert(a + b =~= a);
    } else {
        lemma_seq_count_concat(a, b.drop_last());
        assert((a + b).drop_last() =~= a + b.drop_last());
        assert((a + b).last() == b.last());
    }
}

/// A one-subtree sequence counts its subtree.
pub proof fn lemma_seq_count_singleton(m: NodeModel)
    ensures
        seq_count(seq![m]) == node_count(m),
{
    assert(seq![m].drop_last() =~= Seq::<NodeModel>::empty());
    assert(seq_count(Seq::<NodeModel>::empty()) == 0);
}

/// Splitting a nonempty sequence at the front splits its cell count.
pub proof fn lemma_seq_count_first(s: Seq<NodeModel>)
    requires
        s.len() > 0,
    ensures
        seq_count(s) == node_count(s.first()) + seq_count(s.drop_first()),
{
    assert(s =~= seq![s.first()] + s.drop_first());
    lemma_seq_count_singleton(s.first());
    lemma_seq_count_concat(seq![s.first()], s.drop_first());
}

/// A sequence of subtrees that all have the same cell count has their sum.
pub proof fn lemma_seq_count_uniform(s: Seq<NodeModel>, c: nat)
    requires
        forall|k: int| 0 <= k < s.len() ==> node_count(#[trigger] s[k]) == c,
    ensures
        seq_count(s) == s.len() * c,
    decreases s.len(),
{
    if s.len() == 0 {
    } else {
        lemma_seq_count_uniform(s.drop_last(), c);
        assert((s.len() - 1) * c + c == s.len() * c) by (nonlinear_arith);
    }
}

/// A sequence of subtrees that all hold the same number of leaf lobes has
/// their sum.
pub proof fn lemma_lobe_leaf_seq_count_uniform(s: Seq<NodeModel>, c: nat)
    requires
        forall|k: int| 0 <= k < s.len() ==> lobe_leaf_count(#[trigger] s[k]) == c,
    ensures
        lobe_leaf_seq_count(s) == s.len() * c,
    decreases s.len(),
{
    if s.len() == 0 {
    } else {
        lemma_lobe_leaf_seq_count_uniform(s.drop_last(), c);
        assert((s.len() - 1) * c + c == s.len() * c) by (nonlinear_arith);
    }
}

/// A sequence of subtrees is empty of data iff each member is.
pub proof fn lemma_datas_empty_seq_pointwise(s: Seq<NodeModel>)
    requires
        forall|k: int| 0 <= k < s.len() ==> datas_empty(#[trigger] s[k]),
    ensures
        datas_empty_seq(s),
    decreases s.len(),
{
    if s.len() > 0 {
        lemma_datas_empty_seq_pointwise(s.drop_last());
    }
}

/// A tree that stores nothing exports nothing.
pub proof fn lemma_datas_empty_exported(m: NodeModel)
    requires
        datas_empty(m),
    ensures
        exported(m) == Seq::<Point>::empty(),
    decreases m,
{
    match children_of(m) {
        Some(cs) => {
            lemma_datas_empty_exported_seq(cs);
            match m {
                NodeModel::Cube { .. } => {}
                NodeModel::Sphere { data, .. } => {
                    assert(data + exported_seq(cs) =~= Seq::<Point>::empty());
                }
            }
        }
        None => {}
    }
}

/// A sequence of trees that store nothing exports nothing.
pub proof fn lemma_datas_empty_exported_seq(s: Seq<NodeModel>)
    requires
        datas_empty_seq(s),
    ensures
        exported_seq(s) == Seq::<Point>::empty(),
    decreases s,
{
    if s.len() > 0 {
        lemma_datas_empty_exported_seq(s.drop_last());
        lemma_datas_empty_exported(s.last());
        assert(exported_seq(s.drop_last()) + exported(s.last()) =~= Seq::<Point>::empty());
    }
}

/// The shared radius of a freshly carved lobe cluster: one third of the
/// corner-0-to-corner-1 height of octant 0, taken as an absolute value.
pub open spec fn cluster_radius(octs: Seq<Seq<Point>>) -> i64
    recommends
        octs.len() == 8,
{
    (vstd::math::abs(octs[0][1].y - octs[0][0].y) / 3) as i64
}

/// Eight fresh leaf lobe cells, one per octant: each centred on its octant's
/// corner-pair middle, all sharing the cluster radius, with no stored points
/// and no children.
pub open spec fn sphere_cluster(octs: Seq<Seq<Point>>) -> Seq<NodeModel>
    recommends
        octs.len() == 8,
{
    Seq::new(8, |k: int| NodeModel::Sphere {
        middle: corners_middle(octs[k]),
        radius: cluster_radius(octs),
        data: Seq::empty(),
        corners: octs[k],
        children: None,
    })
}

/// Eight fresh leaf box cells, one per octant.
pub open spec fn cube_cluster(octs: Seq<Seq<Point>>) -> Seq<NodeModel>
    recommends
        octs.len() == 8,
{
    Seq::new(8, |k: int| NodeModel::Cube { corners: octs[k], children: None })
}

/// A cell after one lobe subdivision: its children become the lobe cluster
/// of its own octants.
pub open spec fn lobe_divided(m: NodeModel) -> NodeModel {
    with_children(m, Some(sphere_cluster(octants_of(corners_of(m)))))
}

/// A cell after one box subdivision: its children become the box cluster of
/// its own octants.
pub open spec fn cube_divided(m: NodeModel) -> NodeModel {
    with_children(m, Some(cube_cluster(octants_of(corners_of(m)))))
}

/// Kind-directed subdivision: a box divides into boxes, a lobe into lobes.
pub open spec fn divided(m: NodeModel) -> NodeModel {
    match m {
        NodeModel::Cube { .. } => cube_divided(m),
        NodeModel::Sphere { .. } => lobe_divided(m),
    }
}

/// A depth-1 branch of the standard schedule: one box octant whose children
/// are lobes, each of which is subdivided into lobes once more.
pub open spec fn standard_branch(oct: Seq<Point>) -> NodeModel {
    NodeModel::Cube {
        corners: oct,
        children: Some(sphere_cluster(octants_of(oct)).map(|k: int, c: NodeModel| lobe_divided(c))),
    }
}

/// The whole tree the fixed construction schedule produces for `size`: a root
/// box over `[0, size]^3`, eight box octants, sixty-four lobes, and five
/// hundred twelve leaf lobes.
pub open spec fn standard_tree(size: i64) -> NodeModel {
    NodeModel::Cube {
        corners: box_corners(0, 0, 0, size as int),
        children: Some(
            octants_of(box_corners(0, 0, 0, size as int)).map(
                |k: int, oct: Seq<Point>| standard_branch(oct),
            ),
        ),
    }
}

/// A freshly carved lobe cluster: eight cells, eight leaf lobes, no data.
proof fn lemma_sphere_cluster_stats(octs: Seq<Seq<Point>>)
    ensures
        seq_count(sphere_cluster(octs)) == 8,
        lobe_leaf_seq_count(sphere_cluster(octs)) == 8,
        datas_empty_seq(sphere_cluster(octs)),
{
    let cells = sphere_cluster(octs);
    assert(forall|k: int|
        0 <= k < 8 ==> node_count(#[trigger] cells[k]) == 1 && lobe_leaf_count(cells[k]) == 1
            && datas_empty(cells[k]));
    lemma_seq_count_uniform(cells, 1);
    lemma_lobe_leaf_seq_count_uniform(cells, 1);
    lemma_datas_empty_seq_pointwise(cells);
}

/// One cluster lobe subdivided once more: nine cells, eight leaf lobes, no data.
proof fn lemma_lobe_divided_cluster_elem(octs: Seq<Seq<Point>>, k: int)
    requires
        0 <= k < 8,
    ensures
        node_count(lobe_divided(sphere_cluster(octs)[k])) == 9,
        lobe_leaf_count(lobe_divided(sphere_cluster(octs)[k])) == 8,
        datas_empty(lobe_divided(sphere_cluster(octs)[k])),
{
    let c = sphere_cluster(octs)[k];
    lemma_sphere_cluster_stats(octants_of(corners_of(c)));
}

/// One branch of the standard schedule: seventy-three cells, sixty-four leaf
/// lobes, no data.
proof fn lemma_standard_branch_stats(oct: Seq<Point>)
    ensures
        node_count(standard_branch(oct)) == 73,
        lobe_leaf_count(standard_branch(oct)) == 64,
        datas_empty(standard_branch(oct)),
{
    let cells = sphere_cluster(octants_of(oct));
    let subs = cells.map(|k: int, c: NodeModel| lobe_divided(c));
    assert forall|k: int|
        0 <= k < 8 implies node_count(#[trigger] subs[k]) == 9 && lobe_leaf_count(subs[k]) == 8
        && datas_empty(subs[k]) by {
        lemma_lobe_divided_cluster_elem(octants_of(oct), k);
    }
    lemma_seq_count_uniform(subs, 9);
    lemma_lobe_leaf_seq_count_uniform(subs, 8);
    lemma_datas_empty_seq_pointwise(subs);
}

/// The standard schedule always yields 1 + 8 + 64 + 512 cells, of which five
/// hundred twelve are leaf lobes, and the fresh tree stores and exports
/// nothing.
pub proof fn lemma_standard_tree_stats(size: i64)
    ensures
        node_count(standard_tree(size)) == 585,
        lobe_leaf_count(standard_tree(size)) == 512,
        datas_empty(standard_tree(size)),
        exported(standard_tree(size)) == Seq::<Point>::empty(),
{
    let octs = octants_of(box_corners(0, 0, 0, size as int));
    let branches = octs.map(|k: int, oct: Seq<Point>| standard_branch(oct));
    assert forall|k: int|
        0 <= k < 8 implies node_count(#[trigger] branches[k]) == 73 && lobe_leaf_count(
        branches[k],
    ) == 64 && datas_empty(branches[k]) by {
        lemma_standard_branch_stats(octs[k]);
    }
    lemma_seq_count_uniform(branches, 73);
    lemma_lobe_leaf_seq_count_uniform(branches, 64);
    lemma_datas_empty_seq_pointwise(branches);
    lemma_datas_empty_exported(standard_tree(size));
}

} // verus!

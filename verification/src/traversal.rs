//! Breadth-first diagnostic traversal: enumerates every cell exactly once
//! and emits the wireframe index buffer that overlays the cells' vertices.
//!
//! Every cell contributes its eight box corners joined by twelve edges; a
//! lobe cell additionally contributes its twelve skeleton vertices joined by
//! thirty edges (two pentagon rings, ten ring-to-apex edges per half, and ten
//! edges linking the rings). Index offsets accumulate monotonically as cells
//! are visited, so the emitted index buffer stays valid against a vertex
//! buffer laid out in the same cell order.

use vstd::prelude::*;

use std::collections::VecDeque;

use crate::geometry::Point;
use crate::model::{
    children_of, lemma_seq_count_concat, lemma_seq_count_first, lemma_seq_count_singleton,
    node_count, seq_count, NodeModel,
};
use crate::node::{lemma_seq_view, lemma_view_children, node_view, seq_view, OctreeNode};
use crate::tree::Octree;

verus! {

/// What the diagnostic walk reports for one cell: its box corners, and for a
/// lobe also the window middle and radius from which a renderer can place the
/// skeleton vertices.
#[derive(Debug)]
pub enum DebugCell {
    Cube { corners: Vec<Point> },
    Sphere { corners: Vec<Point>, middle: Point, radius: i64 },
}

/// The abstract content of one reported cell.
pub enum CellView {
    Cube { corners: Seq<Point> },
    Sphere { corners: Seq<Point>, middle: Point, radius: i64 },
}

impl View for DebugCell {
    type V = CellView;

    open spec fn view(&self) -> CellView {
        match *self {
            DebugCell::Cube { corners } => CellView::Cube { corners: corners@ },
            DebugCell::Sphere { corners, middle, radius } => CellView::Sphere {
                corners: corners@,
                middle,
                radius,
            },
        }
    }
}

/// The cell a node contributes to the walk.
pub open spec fn cell_of(m: NodeModel) -> CellView {
    match m {
        NodeModel::Cube { corners, .. } => CellView::Cube { corners },
        NodeModel::Sphere { middle, radius, corners, .. } => CellView::Sphere {
            corners,
            middle,
            radius,
        },
    }
}

/// The views of a reported cell vector, element by element.
pub open spec fn cells_view(s: Seq<DebugCell>) -> Seq<CellView> {
    Seq::new(s.len(), |i: int| s[i]@)
}

/// The models of a queue of borrowed nodes, element by element.
pub open spec fn refs_view(q: Seq<&OctreeNode>) -> Seq<NodeModel> {
    Seq::new(q.len(), |i: int| node_view(*q[i]))
}

/// The cells of a breadth-first walk: the front node's cell, then the walk
/// of the remaining queue with the front node's children appended.
pub open spec fn bfs_cells(queue: Seq<NodeModel>) -> Seq<CellView>
    decreases seq_count(queue),
    via bfs_cells_decreases
{
    if queue.len() == 0 {
        Seq::empty()
    } else {
        let expanded = match children_of(queue.first()) {
            Some(cs) => queue.drop_first() + cs,
            None => queue.drop_first(),
        };
        seq![cell_of(queue.first())] + bfs_cells(expanded)
    }
}

#[via_fn]
proof fn bfs_cells_decreases(queue: Seq<NodeModel>) {
    if queue.len() > 0 {
        lemma_seq_count_first(queue);
        match children_of(queue.first()) {
            Some(cs) => {
                lemma_seq_count_concat(queue.drop_first(), cs);
            }
            None => {}
        }
    }
}

/// The walk reports exactly one cell per node reachable from the queue.
pub proof fn lemma_bfs_cells_len(queue: Seq<NodeModel>)
    ensures
        bfs_cells(queue).len() == seq_count(queue),
    decreases seq_count(queue),
{
    if queue.len() > 0 {
        lemma_seq_count_first(queue);
        match children_of(queue.first()) {
            Some(cs) => {
                lemma_seq_count_concat(queue.drop_first(), cs);
                lemma_bfs_cells_len(queue.drop_first() + cs);
            }
            None => {
                lemma_bfs_cells_len(queue.drop_first());
            }
        }
    }
}

impl Octree {
    /// Visits every cell exactly once, breadth first from the root, and
    /// reports each cell's corners, and for lobes the window middle and
    /// radius, for diagnostic wireframe rendering.
    pub fn debug_cells(&self) -> (r: Vec<DebugCell>)
        ensures
            cells_view(r@) == bfs_cells(seq![self@]),
            r@.len() == node_count(self@),
    {
        broadcast use lemma_seq_view;

        let ghost total = bfs_cells(seq![node_view(self.root)]);
        let mut cells: Vec<DebugCell> = Vec::new();
        let mut queue: VecDeque<&OctreeNode> = VecDeque::new();
        queue.push_back(&self.root);
        proof {
            assert(refs_view(queue@) =~= seq![node_view(self.root)]);
            assert(cells_view(cells@) =~= Seq::<CellView>::empty());
            assert(Seq::<CellView>::empty() + bfs_cells(refs_view(queue@)) =~= total);
        }
        while queue.len() > 0
            invariant
                total == bfs_cells(seq![node_view(self.root)]),
                cells_view(cells@) + bfs_cells(refs_view(queue@)) == total,
            decreases seq_count(refs_view(queue@)),
        {
            broadcast use lemma_seq_view;

            let ghost pre_q = refs_view(queue@);
            let ghost pre_cells = cells_view(cells@);
            let ghost m0 = pre_q.first();
            proof {
                lemma_seq_count_first(pre_q);
            }
            let node = queue.pop_front().unwrap();
            proof {
                assert(refs_view(queue@) =~= pre_q.drop_first());
            }
            match node {
                OctreeNode::Cube(cube) => {
                    cells.push(DebugCell::Cube { corners: clone_corners(&cube.cube_points) });
                }
                OctreeNode::Sphere(sphere) => {
                    cells.push(
                        DebugCell::Sphere {
                            corners: clone_corners(&sphere.cube_points),
                            middle: sphere.middle,
                            radius: sphere.radius,
                        },
                    );
                }
            }
            proof {
                assert(cells_view(cells@) =~= pre_cells.push(cell_of(m0)));
            }
            let ghost mid_q = refs_view(queue@);
            match node.nodes_ref() {
                Some(nodes) => {
                    proof {
                        lemma_view_children(*node);
                    }
                    let mut ci: usize = 0;
                    while ci < nodes.len()
                        invariant
                            ci <= nodes@.len(),
                            refs_view(queue@) == mid_q + seq_view(nodes@.take(ci as int)),
                        decreases nodes@.len() - ci,
                    {
                        broadcast use lemma_seq_view;

                        let ghost qpre = queue@;
                        proof {
                            assert(refs_view(qpre).len() == qpre.len());
                            assert(seq_view(nodes@.take(ci as int)).len() == ci);
                            assert(refs_view(qpre) == mid_q + seq_view(nodes@.take(ci as int)));
                            assert(qpre.len() == mid_q.len() + ci);
                        }
                        let child = &nodes[ci];
                        queue.push_back(child);
                        proof {
                            assert(*child == nodes@[ci as int]);
                            assert(nodes@.take(ci as int + 1).drop_last() =~= nodes@.take(
                                ci as int,
                            ));
                            assert(seq_view(nodes@.take(ci as int + 1)) =~= seq_view(
                                nodes@.take(ci as int),
                            ).push(node_view(nodes@[ci as int])));
                            let want = mid_q + seq_view(nodes@.take(ci as int + 1));
                            assert(qpre.len() == mid_q.len() + ci);
                            assert(queue@.len() == qpre.len() + 1);
                            assert(want.len() == mid_q.len() + ci + 1);
                            assert forall|k: int|
                                0 <= k < queue@.len() implies refs_view(queue@)[k] == want[k] by {
                                if k < qpre.len() {
                                    assert(queue@[k] == qpre[k]);
                                    assert(refs_view(queue@)[k] == node_view(*queue@[k]));
                                    assert(refs_view(qpre)[k] == (mid_q + seq_view(
                                        nodes@.take(ci as int),
                                    ))[k]);
                                } else {
                                    assert(k == qpre.len());
                                    assert(queue@[k] == child);
                                    assert(refs_view(queue@)[k] == node_view(*queue@[k]));
                                    assert(want[k] == node_view(nodes@[ci as int]));
                                }
                            }
                            assert(refs_view(queue@) =~= want);
                        }
                        ci += 1;
                    }
                    proof {
                        assert(nodes@.take(nodes@.len() as int) =~= nodes@);
                        assert(children_of(m0) == Some(seq_view(nodes@)));
                        assert(refs_view(queue@) =~= pre_q.drop_first() + seq_view(nodes@));
                        lemma_seq_count_concat(pre_q.drop_first(), seq_view(nodes@));
                    }
                }
                None => {
                    proof {
                        assert(children_of(m0) is None);
                    }
                }
            }
            proof {
                assert(bfs_cells(pre_q) =~= seq![cell_of(m0)] + bfs_cells(refs_view(queue@)));
                assert(pre_cells.push(cell_of(m0)) + bfs_cells(refs_view(queue@)) =~= pre_cells + (
                seq![cell_of(m0)] + bfs_cells(refs_view(queue@))));
            }
        }
        proof {
            assert(refs_view(queue@) =~= Seq::<NodeModel>::empty());
            assert(cells_view(cells@) + bfs_cells(Seq::<NodeModel>::empty()) =~= cells_view(
                cells@,
            ));
            lemma_bfs_cells_len(seq![node_view(self.root)]);
            lemma_seq_count_singleton(node_view(self.root));
        }
        cells
    }
}

/// Copies a corner array for the report.
fn clone_corners(v: &Vec<Point>) -> (r: Vec<Point>)
    ensures
        r@ == v@,
{
    let r = v.clone();
    proof {
        assert(r@ =~= v@);
    }
    r
}

/// How many wireframe vertices a cell contributes: its eight box corners,
/// plus twelve skeleton vertices for a lobe.
pub open spec fn cell_vertex_count(c: CellView) -> int {
    match c {
        CellView::Cube { .. } => 8,
        CellView::Sphere { .. } => 20,
    }
}

/// The vertices contributed by a cell list, in walk order.
pub open spec fn total_vertices(cells: Seq<CellView>) -> int
    decreases cells.len(),
{
    if cells.len() == 0 {
        0
    } else {
        total_vertices(cells.drop_last()) + cell_vertex_count(cells.last())
    }
}

/// The twelve box edges of a cell whose first corner vertex sits at `i`:
/// bottom ring, four verticals, top ring, each edge as an index pair.
pub open spec fn box_edge_template(i: int) -> Seq<int> {
    seq![
        i,
        i + 1,
        i + 1,
        i + 2,
        i + 2,
        i + 3,
        i,
        i + 3,
        i,
        i + 4,
        i + 1,
        i + 5,
        i + 2,
        i + 6,
        i + 3,
        i + 7,
        i + 4,
        i + 5,
        i + 5,
        i + 6,
        i + 6,
        i + 7,
        i + 4,
        i + 7,
    ]
}

/// The thirty skeleton edges of a lobe whose first skeleton vertex sits at
/// `i`: the upper pentagon ring, five edges to the upper apex, the lower
/// ring, five edges to the lower apex, and ten edges linking the rings.
pub open spec fn lobe_edge_template(i: int) -> Seq<int> {
    seq![
        i,
        i + 1,
        i + 1,
        i + 2,
        i + 2,
        i + 3,
        i + 3,
        i + 4,
        i,
        i + 4,
        i,
        i + 5,
        i + 1,
        i + 5,
        i + 2,
        i + 5,
        i + 3,
        i + 5,
        i + 4,
        i + 5,
        i + 6,
        i + 7,
        i + 7,
        i + 8,
        i + 8,
        i + 9,
        i + 9,
        i + 10,
        i + 6,
        i + 10,
        i + 6,
        i + 11,
        i + 7,
        i + 11,
        i + 8,
        i + 11,
        i + 9,
        i + 11,
        i + 10,
        i + 11,
        i,
        i + 6,
        i,
        i + 10,
        i + 1,
        i + 6,
        i + 1,
        i + 7,
        i + 2,
        i + 7,
        i + 2,
        i + 8,
        i + 3,
        i + 8,
        i + 3,
        i + 9,
        i + 4,
        i + 9,
        i + 4,
        i + 10,
    ]
}

/// The index pairs one cell contributes when its first vertex sits at `base`.
pub open spec fn cell_edges(c: CellView, base: int) -> Seq<int> {
    match c {
        CellView::Cube { .. } => box_edge_template(base),
        CellView::Sphere { .. } => box_edge_template(base) + lobe_edge_template(base + 8),
    }
}

/// The whole index buffer of a cell list: each cell's edges at the offset
/// where its vertices sit.
pub open spec fn edge_indices(cells: Seq<CellView>) -> Seq<int>
    decreases cells.len(),
{
    if cells.len() == 0 {
        Seq::empty()
    } else {
        edge_indices(cells.drop_last()) + cell_edges(
            cells.last(),
            total_vertices(cells.drop_last()),
        )
    }
}

/// The integer values of an index vector, element by element.
pub open spec fn indices_view(s: Seq<u32>) -> Seq<int> {
    Seq::new(s.len(), |i: int| s[i] as int)
}

/// Vertex counts never shrink as the walk advances.
proof fn lemma_total_vertices_nonneg(cells: Seq<CellView>)
    ensures
        total_vertices(cells) >= 0,
    decreases cells.len(),
{
    if cells.len() > 0 {
        lemma_total_vertices_nonneg(cells.drop_last());
    }
}

/// The box edges at `base` use only the eight vertices starting there.
proof fn lemma_box_template_bounds(i: int)
    ensures
        forall|k: int| 0 <= k < 24 ==> i <= #[trigger] box_edge_template(i)[k] < i + 8,
{
}

/// The skeleton edges at `base` use only the twelve vertices starting there.
proof fn lemma_lobe_template_bounds(i: int)
    ensures
        forall|k: int| 0 <= k < 60 ==> i <= #[trigger] lobe_edge_template(i)[k] < i + 12,
{
}

/// Offsets accumulate monotonically, so every emitted index points at a
/// vertex that the same cell list contributes.
pub proof fn lemma_edge_indices_valid(cells: Seq<CellView>)
    ensures
        forall|k: int|
            0 <= k < edge_indices(cells).len() ==> 0 <= #[trigger] edge_indices(cells)[k]
                < total_vertices(cells),
    decreases cells.len(),
{
    if cells.len() > 0 {
        lemma_edge_indices_valid(cells.drop_last());
        lemma_total_vertices_nonneg(cells.drop_last());
        let b = total_vertices(cells.drop_last());
        let c = cells.last();
        let left = edge_indices(cells.drop_last());
        let mid = cell_edges(c, b);
        lemma_box_template_bounds(b);
        lemma_lobe_template_bounds(b + 8);
        assert forall|k: int| 0 <= k < mid.len() implies b <= #[trigger] mid[k] < b
            + cell_vertex_count(c) by {
            match c {
                CellView::Cube { .. } => {}
                CellView::Sphere { .. } => {
                    if k < 24 {
                        assert(mid[k] == box_edge_template(b)[k]);
                    } else {
                        assert(mid[k] == lobe_edge_template(b + 8)[k - 24]);
                    }
                }
            }
        }
        assert forall|k: int|
            0 <= k < edge_indices(cells).len() implies 0 <= #[trigger] edge_indices(cells)[k]
            < total_vertices(cells) by {
            if k < left.len() {
                assert(edge_indices(cells)[k] == left[k]);
            } else {
                assert(edge_indices(cells)[k] == mid[k - left.len()]);
            }
        }
    }
}

/// Emits the wireframe index buffer for a reported cell list: per cell the
/// twelve box edges, and for lobes also the thirty skeleton edges, all
/// against a vertex buffer laid out in the same cell order.
pub fn debug_line_indices(cells: &Vec<DebugCell>) -> (r: Vec<u32>)
    requires
        20 * cells@.len() <= u32::MAX,
    ensures
        indices_view(r@) == edge_indices(cells_view(cells@)),
        forall|k: int|
            0 <= k < r@.len() ==> (#[trigger] r@[k]) < total_vertices(cells_view(cells@)),
{
    let ghost cv = cells_view(cells@);
    let mut r: Vec<u32> = Vec::new();
    let mut base: u32 = 0;
    let mut n: usize = 0;
    proof {
        assert(indices_view(r@) =~= edge_indices(cv.take(0)));
    }
    while n < cells.len()
        invariant
            n <= cells@.len(),
            cv == cells_view(cells@),
            20 * cells@.len() <= u32::MAX,
            base <= 20 * n,
            base as int == total_vertices(cv.take(n as int)),
            indices_view(r@) == edge_indices(cv.take(n as int)),
        decreases cells@.len() - n,
    {
        let ghost prefix = cv.take(n as int);
        let c = &cells[n];
        proof {
            assert(c@ == cv[n as int]);
        }
        match c {
            DebugCell::Cube { .. } => {
                push_box_edges(&mut r, base);
                base = base + 8;
            }
            DebugCell::Sphere { .. } => {
                push_box_edges(&mut r, base);
                push_lobe_edges(&mut r, base + 8);
                base = base + 20;
            }
        }
        proof {
            assert(cv.take(n as int + 1).drop_last() =~= prefix);
            assert(cv.take(n as int + 1).last() == cv[n as int]);
            assert(indices_view(r@) =~= edge_indices(cv.take(n as int + 1)));
        }
        n += 1;
    }
    proof {
        assert(cv.take(cells@.len() as int) =~= cv);
        lemma_edge_indices_valid(cv);
        assert forall|k: int| 0 <= k < r@.len() implies (#[trigger] r@[k]) < total_vertices(
            cv,
        ) by {
            assert(indices_view(r@)[k] == r@[k] as int);
            assert(indices_view(r@)[k] == edge_indices(cv)[k]);
        }
    }
    r
}

/// Appends the twelve box edges of the cell whose first vertex sits at `base`.
fn push_box_edges(r: &mut Vec<u32>, base: u32)
    requires
        base + 8 <= u32::MAX,
    ensures
        indices_view((*final(r))@) == indices_view((*old(r))@) + box_edge_template(base as int),
{
    let ghost start = indices_view(r@);
    r.push(base);
    r.push(base + 1);
    r.push(base + 1);
    r.push(base + 2);
    r.push(base + 2);
    r.push(base + 3);
    r.push(base);
    r.push(base + 3);
    r.push(base);
    r.push(base + 4);
    r.push(base + 1);
    r.push(base + 5);
    r.push(base + 2);
    r.push(base + 6);
    r.push(base + 3);
    r.push(base + 7);
    r.push(base + 4);
    r.push(base + 5);
    r.push(base + 5);
    r.push(base + 6);
    r.push(base + 6);
    r.push(base + 7);
    r.push(base + 4);
    r.push(base + 7);
    proof {
        assert(indices_view(r@) =~= start + box_edge_template(base as int));
    }
}

/// Appends the thirty skeleton edges of the lobe whose first skeleton vertex
/// sits at `base`.
#[verifier::rlimit(60)]
fn push_lobe_edges(r: &mut Vec<u32>, base: u32)
    requires
        base + 12 <= u32::MAX,
    ensures
        indices_view((*final(r))@) == indices_view((*old(r))@) + lobe_edge_template(base as int),
{
    let ghost start = indices_view(r@);
    r.push(base);
    r.push(base + 1);
    r.push(base + 1);
    r.push(base + 2);
    r.push(base + 2);
    r.push(base + 3);
    r.push(base + 3);
    r.push(base + 4);
    r.push(base);
    r.push(base + 4);
    r.push(base);
    r.push(base + 5);
    r.push(base + 1);
    r.push(base + 5);
    r.push(base + 2);
    r.push(base + 5);
    r.push(base + 3);
    r.push(base + 5);
    r.push(base + 4);
    r.push(base + 5);
    r.push(base + 6);
    r.push(base + 7);
    r.push(base + 7);
    r.push(base + 8);
    r.push(base + 8);
    r.push(base + 9);
    r.push(base + 9);
    r.push(base + 10);
    r.push(base + 6);
    r.push(base + 10);
    r.push(base + 6);
    r.push(base + 11);
    r.push(base + 7);
    r.push(base + 11);
    r.push(base + 8);
    r.push(base + 11);
    r.push(base + 9);
    r.push(base + 11);
    r.push(base + 10);
    r.push(base + 11);
    r.push(base);
    r.push(base + 6);
    r.push(base);
    r.push(base + 10);
    r.push(base + 1);
    r.push(base + 6);
    r.push(base + 1);
    r.push(base + 7);
    r.push(base + 2);
    r.push(base + 7);
    r.push(base + 2);
    r.push(base + 8);
    r.push(base + 3);
    r.push(base + 8);
    r.push(base + 3);
    r.push(base + 9);
    r.push(base + 4);
    r.push(base + 9);
    r.push(base + 4);
    r.push(base + 10);
    proof {
        assert(indices_view(r@) =~= start + lobe_edge_template(base as int));
    }
}

} // verus!

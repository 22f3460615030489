//! The executable cell structures and their operations.
//!
//! A node is either a pure routing box or a data-holding lobe; both may own
//! exactly eight children. Every operation's contract is stated over the
//! node's abstract `NodeModel` view.

use vstd::prelude::*;

use crate::geometry::{
    cluster_fits, corner_views, cube_middle, divisible_box, in_window, lemma_octants_fit,
    octants_of, octree_divide_into_cube, Point,
};
use crate::model::{
    accepts, cluster_radius, corners_of, cube_cluster, cube_divided, divided, exported,
    exported_seq, imported, lemma_imported_seq_pointwise, stored_of, lemma_seq_count_element, lobe_divided,
    node_count, seq_count, sphere_cluster, with_children, NodeModel,
};

verus! {

/// A pure subdivision container: it never stores data points itself.
#[derive(Debug)]
pub struct OctreeCube {
    pub cube_points: Vec<Point>,
    pub nodes: Option<Vec<OctreeNode>>,
}

/// A data-holding cell: an acceptance window around `middle`, the box corners
/// it was carved from, and the points assigned to it in insertion order.
#[derive(Debug)]
pub struct OctreeSphere {
    pub middle: Point,
    pub radius: i64,
    pub data_points: Vec<Point>,
    pub cube_points: Vec<Point>,
    pub nodes: Option<Vec<OctreeNode>>,
}

/// A cell of either kind.
#[derive(Debug)]
pub enum OctreeNode {
    Cube(OctreeCube),
    Sphere(OctreeSphere),
}

/// The abstract model of a node.
pub open spec fn node_view(n: OctreeNode) -> NodeModel
    decreases n,
{
    match n {
        OctreeNode::Cube(c) => NodeModel::Cube {
            corners: c.cube_points@,
            children: nodes_view(c.nodes),
        },
        OctreeNode::Sphere(s) => NodeModel::Sphere {
            middle: s.middle,
            radius: s.radius,
            data: s.data_points@,
            corners: s.cube_points@,
            children: nodes_view(s.nodes),
        },
    }
}

/// The abstract model of an optional child array.
pub open spec fn nodes_view(o: Option<Vec<OctreeNode>>) -> Option<Seq<NodeModel>>
    decreases o,
{
    match o {
        Some(v) => Some(seq_view(v@)),
        None => None,
    }
}

/// The abstract models of a sequence of nodes, element by element.
pub open spec fn seq_view(s: Seq<OctreeNode>) -> Seq<NodeModel>
    decreases s,
{
    if s.len() == 0 {
        Seq::empty()
    } else {
        seq_view(s.drop_last()).push(node_view(s.last()))
    }
}

impl View for OctreeNode {
    type V = NodeModel;

    open spec fn view(&self) -> NodeModel {
        node_view(*self)
    }
}

/// `seq_view` maps element by element.
pub broadcast proof fn lemma_seq_view(s: Seq<OctreeNode>)
    ensures
        (#[trigger] seq_view(s)).len() == s.len(),
        forall|i: int| 0 <= i < s.len() ==> seq_view(s)[i] == node_view(s[i]),
    decreases s,
{
    if s.len() > 0 {
        lemma_seq_view(s.drop_last());
    }
}

/// The child array of a node, as the plain field value.
pub open spec fn nodes_of(n: OctreeNode) -> Option<Vec<OctreeNode>> {
    match n {
        OctreeNode::Cube(c) => c.nodes,
        OctreeNode::Sphere(s) => s.nodes,
    }
}

/// The model's children are the view of the node's child array.
pub proof fn lemma_view_children(n: OctreeNode)
    ensures
        crate::model::children_of(node_view(n)) == nodes_view(nodes_of(n)),
{
    match n {
        OctreeNode::Cube(_) => {}
        OctreeNode::Sphere(_) => {}
    }
}

/// Exports every node of a child array into `output`, in index order.
fn export_children(nodes: &Vec<OctreeNode>, output: &mut Vec<Point>)
    ensures
        (*final(output))@ == (*old(output))@ + exported_seq(seq_view(nodes@)),
    decreases seq_count(seq_view(nodes@)), 1int,
{
    broadcast use lemma_seq_view;

    let ghost base = output@;
    let mut i: usize = 0;
    while i < nodes.len()
        invariant
            i <= nodes@.len(),
            output@ == base + exported_seq(seq_view(nodes@.take(i as int))),
        decreases nodes@.len() - i,
    {
        let child = &nodes[i];
        proof {
            lemma_seq_view(nodes@);
            lemma_seq_count_element(seq_view(nodes@), i as int);
        }
        child.export(output);
        proof {
            let t = nodes@.take(i as int + 1);
            assert(t.drop_last() =~= nodes@.take(i as int));
            assert(t.last() == nodes@[i as int]);
            assert(seq_view(t).drop_last() =~= seq_view(nodes@.take(i as int)));
            assert(seq_view(t).last() == node_view(nodes@[i as int]));
            assert(base + exported_seq(seq_view(nodes@.take(i as int))) + exported(
                node_view(nodes@[i as int]),
            ) =~= base + exported_seq(seq_view(t)));
        }
        i += 1;
    }
    proof {
        assert(nodes@.take(nodes@.len() as int) =~= nodes@);
    }
}

/// Copies a corner array; the elements are plain `Copy` points.
fn clone_points(v: &Vec<Point>) -> (r: Vec<Point>)
    ensures
        r@ == v@,
{
    let r = v.clone();
    proof {
        assert(r@ =~= v@);
    }
    r
}

impl OctreeNode {
    /// The box corners this cell was carved from.
    pub fn cube_points(&self) -> (r: Vec<Point>)
        ensures
            r@ == corners_of(self@),
    {
        match self {
            OctreeNode::Cube(cube) => clone_points(&cube.cube_points),
            OctreeNode::Sphere(sphere) => clone_points(&sphere.cube_points),
        }
    }

    /// A shared borrow of the child array, if this cell has children.
    pub fn nodes_ref(&self) -> (r: Option<&Vec<OctreeNode>>)
        ensures
            match r {
                Some(v) => nodes_of(*self) == Some(*v),
                None => nodes_of(*self) is None,
            },
    {
        match self {
            OctreeNode::Cube(cube) => cube.nodes.as_ref(),
            OctreeNode::Sphere(sphere) => sphere.nodes.as_ref(),
        }
    }

    /// A mutable borrow of the child array, if this cell has children; the
    /// cell's final value holds whatever the caller leaves behind the borrow.
    pub fn nodes_mut(&mut self) -> (r: Option<&mut Vec<OctreeNode>>)
        ensures
            match r {
                Some(v) => {
                    &&& nodes_of(*old(self)) == Some(*v)
                    &&& nodes_of(*final(self)) == Some(*final(v))
                    &&& (*final(self))@ == with_children(
                        (*old(self))@,
                        Some(seq_view((*final(v))@)),
                    )
                },
                None => {
                    &&& nodes_of(*old(self)) is None
                    &&& *final(self) == *old(self)
                },
            },
    {
        match self {
            OctreeNode::Cube(cube) => cube.nodes.as_mut(),
            OctreeNode::Sphere(sphere) => sphere.nodes.as_mut(),
        }
    }

    /// A mutable borrow of child `i`; the cell's final value holds whatever
    /// the caller leaves behind the borrow, in place of that child.
    pub fn node(&mut self, i: usize) -> (r: &mut OctreeNode)
        requires
            nodes_of(*old(self)) is Some,
            i < nodes_of(*old(self)).unwrap()@.len(),
        ensures
            *r == nodes_of(*old(self)).unwrap()@[i as int],
            nodes_of(*final(self)) is Some,
            nodes_of(*final(self)).unwrap()@ == nodes_of(*old(self)).unwrap()@.update(
                i as int,
                *final(r),
            ),
            (*final(self))@ == with_children(
                (*old(self))@,
                Some(seq_view(nodes_of(*old(self)).unwrap()@.update(i as int, *final(r)))),
            ),
    {
        match self {
            OctreeNode::Cube(cube) => {
                let nodes = cube.nodes.as_mut().unwrap();
                &mut nodes[i]
            }
            OctreeNode::Sphere(sphere) => {
                let nodes = sphere.nodes.as_mut().unwrap();
                &mut nodes[i]
            }
        }
    }

    /// Removes and returns the child array, leaving this cell a leaf.
    pub(crate) fn take_nodes(&mut self) -> (r: Option<Vec<OctreeNode>>)
        ensures
            r == nodes_of(*old(self)),
            (*final(self))@ == with_children((*old(self))@, None),
    {
        match self {
            OctreeNode::Cube(cube) => cube.nodes.take(),
            OctreeNode::Sphere(sphere) => sphere.nodes.take(),
        }
    }

    /// Installs `nodes` as this cell's children.
    pub fn set_nodes(&mut self, nodes: Vec<OctreeNode>)
        ensures
            (*final(self))@ == with_children((*old(self))@, Some(seq_view(nodes@))),
            nodes_of(*final(self)) == Some(nodes),
    {
        match self {
            OctreeNode::Cube(cube) => {
                cube.nodes = Some(nodes);
            }
            OctreeNode::Sphere(sphere) => {
                sphere.nodes = Some(nodes);
            }
        }
    }

    /// Appends one point to a lobe's stored data; a box ignores it.
    pub fn add_data_point(&mut self, data_point: Point)
        ensures
            (*final(self))@ == match (*old(self))@ {
                NodeModel::Cube { corners, children } => NodeModel::Cube { corners, children },
                NodeModel::Sphere { middle, radius, data, corners, children } => (
                NodeModel::Sphere {
                    middle,
                    radius,
                    data: data.push(data_point),
                    corners,
                    children,
                }),
            },
    {
        match self {
            OctreeNode::Cube(_cube) => {
            }
            OctreeNode::Sphere(sphere) => {
                sphere.data_points.push(data_point);
            }
        }
    }

    /// Kind-directed subdivision: a box divides into boxes, a lobe into lobes.
    pub fn divide(&mut self)
        requires
            divisible_box(corners_of((*old(self))@)),
        ensures
            (*final(self))@ == divided((*old(self))@),
    {
        match self {
            OctreeNode::Cube(cube) => {
                cube.divide();
            }
            OctreeNode::Sphere(sphere) => {
                sphere.divide();
            }
        }
    }

    /// Replaces this cell's children with a fresh box cluster carved from its
    /// own corners.
    pub fn divide_into_cubes(&mut self)
        requires
            divisible_box(corners_of((*old(self))@)),
        ensures
            (*final(self))@ == cube_divided((*old(self))@),
    {
        let cube_points = self.cube_points();
        let cluster = OctreeCube::into_cluster(cube_points);
        self.set_nodes(cluster);
    }

    /// Replaces this cell's children with a fresh lobe cluster carved from
    /// its own corners.
    pub fn divide_into_spheres(&mut self)
        requires
            divisible_box(corners_of((*old(self))@)),
        ensures
            (*final(self))@ == lobe_divided((*old(self))@),
    {
        let cube_points = self.cube_points();
        let cluster = OctreeSphere::into_cluster(cube_points);
        self.set_nodes(cluster);
    }

    /// Hands the whole batch to every subtree. A cell with children recurses
    /// into all eight with the batch unfiltered; a leaf lobe appends the
    /// points its window accepts, in batch order; a leaf box stores nothing.
    pub fn import(&mut self, data_points: &[Point])
        ensures
            (*final(self))@ == imported((*old(self))@, data_points@),
        decreases node_count(node_view(*self)),
    {
        broadcast use lemma_seq_view;

        let taken = self.take_nodes();
        match taken {
            Some(mut nodes) => {
                let ghost orig = nodes@;
                let mut i: usize = 0;
                while i < nodes.len()
                    invariant
                        i <= nodes@.len(),
                        nodes@.len() == orig.len(),
                        forall|k: int| i <= k < orig.len() ==> nodes@[k] == orig[k],
                        forall|k: int|
                            0 <= k < i ==> node_view(nodes@[k]) == imported(
                                node_view(orig[k]),
                                data_points@,
                            ),
                        node_count(node_view(*old(self))) == 1 + seq_count(seq_view(orig)),
                    decreases nodes@.len() - i,
                {
                    let mut child = nodes.remove(i);
                    proof {
                        lemma_seq_view(orig);
                        lemma_seq_count_element(seq_view(orig), i as int);
                    }
                    child.import(data_points);
                    nodes.insert(i, child);
                    proof {
                        assert(forall|k: int|
                            i + 1 <= k < orig.len() ==> nodes@[k] == orig[k]);
                    }
                    i += 1;
                }
                self.set_nodes(nodes);
                proof {
                    lemma_seq_view(orig);
                    lemma_seq_view(nodes@);
                    lemma_imported_seq_pointwise(seq_view(orig), seq_view(nodes@), data_points@);
                }
            }
            None => {
                let mut j: usize = 0;
                while j < data_points.len()
                    invariant
                        j <= data_points@.len(),
                        nodes_of(*old(self)) is None,
                        (*self)@ == imported((*old(self))@, data_points@.take(j as int)),
                    decreases data_points@.len() - j,
                {
                    let ghost prefix = data_points@.take(j as int);
                    let p = data_points[j];
                    if self.is_inside(&p) {
                        self.add_data_point(p);
                    }
                    proof {
                        let t = data_points@.take(j as int + 1);
                        assert(t.drop_last() =~= prefix);
                        assert(t.last() == p);
                        match (*old(self))@ {
                            NodeModel::Sphere { middle, radius, data, .. } => {
                                assert((data + stored_of(prefix, middle, radius)).push(p) =~= data
                                    + stored_of(prefix, middle, radius).push(p));
                            }
                            NodeModel::Cube { .. } => {}
                        }
                    }
                    j += 1;
                }
                proof {
                    assert(data_points@.take(data_points@.len() as int) =~= data_points@);
                }
            }
        }
    }

    /// Flattens the stored points into `output`, depth first: a lobe appends
    /// its own points first, then every cell descends into its children in
    /// index order.
    pub fn export(&self, output: &mut Vec<Point>)
        ensures
            (*final(output))@ == (*old(output))@ + exported(self@),
        decreases node_count(node_view(*self)), 0int,
    {
        let ghost base = output@;
        match self {
            OctreeNode::Cube(cube) => {
                match cube.nodes.as_ref() {
                    Some(nodes) => {
                        export_children(nodes, output);
                    }
                    None => {
                        proof {
                            assert(base + exported(self@) =~= base);
                        }
                    }
                }
            }
            OctreeNode::Sphere(sphere) => {
                let mut stored = clone_points(&sphere.data_points);
                output.append(&mut stored);
                match sphere.nodes.as_ref() {
                    Some(nodes) => {
                        export_children(nodes, output);
                        proof {
                            assert(base + sphere.data_points@ + exported_seq(seq_view(nodes@))
                                =~= base + exported(self@));
                        }
                    }
                    None => {}
                }
            }
        }
    }

    /// The acceptance test: a box accepts nothing; a lobe applies the strict
    /// window test around its middle.
    pub fn is_inside(&self, point: &Point) -> (r: bool)
        ensures
            r == accepts(self@, *point),
    {
        match self {
            OctreeNode::Cube(_cube) => false,
            OctreeNode::Sphere(sphere) => sphere.is_inside(point),
        }
    }
}

impl OctreeSphere {
    /// Replaces this lobe's children with a fresh lobe cluster carved from
    /// its own box corners.
    pub fn divide(&mut self)
        requires
            divisible_box((*old(self)).cube_points@),
        ensures
            (*final(self)).middle == (*old(self)).middle,
            (*final(self)).radius == (*old(self)).radius,
            (*final(self)).data_points == (*old(self)).data_points,
            (*final(self)).cube_points == (*old(self)).cube_points,
            nodes_view((*final(self)).nodes) == Some(
                sphere_cluster(octants_of((*old(self)).cube_points@)),
            ),
    {
        let corners = clone_points(&self.cube_points);
        self.nodes = Some(Self::into_cluster(corners));
    }

    /// Carves a box into eight fresh leaf lobes, one per octant.
    pub fn into_cluster(cube: Vec<Point>) -> (r: Vec<OctreeNode>)
        requires
            divisible_box(cube@),
        ensures
            r@.len() == 8,
            seq_view(r@) == sphere_cluster(octants_of(cube@)),
    {
        let cluster = octree_divide_into_cube(&cube);
        proof {
            lemma_octants_fit(cube@);
            assert(corner_views(cluster@) =~= octants_of(cube@));
        }
        Self::from_cluster(cluster)
    }

    /// Builds the eight leaf lobes of one cluster: each is centred on its
    /// octant's corner-pair middle and all share one radius, a third of the
    /// corner-0-to-corner-1 height of octant 0.
    pub fn from_cluster(points: Vec<Vec<Point>>) -> (r: Vec<OctreeNode>)
        requires
            cluster_fits(corner_views(points@)),
        ensures
            r@.len() == 8,
            seq_view(r@) == sphere_cluster(corner_views(points@)),
    {
        let ghost octs = corner_views(points@);
        let oct0 = &points[0];
        let d = oct0[1].y - oct0[0].y;
        let ad = if d < 0 {
            -d
        } else {
            d
        };
        let size = ad / 3;
        proof {
            assert(size == cluster_radius(octs));
        }

        let mut r: Vec<OctreeNode> = Vec::new();
        let mut k: usize = 0;
        while k < 8
            invariant
                cluster_fits(octs),
                octs == corner_views(points@),
                points@.len() == 8,
                size == cluster_radius(octs),
                k <= 8,
                r@.len() == k,
                seq_view(r@) == sphere_cluster(octs).take(k as int),
            decreases 8 - k,
        {
            let oct = &points[k];
            let middle = cube_middle(oct);
            let node = OctreeNode::Sphere(
                OctreeSphere {
                    middle,
                    radius: size,
                    data_points: Vec::new(),
                    cube_points: clone_points(oct),
                    nodes: None,
                },
            );
            let ghost prev = r@;
            proof {
                assert(node_view(node) == sphere_cluster(octs)[k as int]);
            }
            r.push(node);
            proof {
                assert(r@.drop_last() =~= prev);
                assert(seq_view(r@) =~= sphere_cluster(octs).take(k as int + 1));
            }
            k += 1;
        }
        proof {
            assert(sphere_cluster(octs).take(8) =~= sphere_cluster(octs));
        }
        r
    }

    /// The strict window test: every axis coordinate of `point` must lie
    /// strictly between `middle - radius` and `middle + radius`. Widening to
    /// `i128` keeps the window arithmetic exact for any cell.
    pub fn is_inside(&self, point: &Point) -> (r: bool)
        ensures
            r == in_window(self.middle, self.radius, *point),
    {
        let rad = self.radius as i128;
        let px = point.x as i128;
        let py = point.y as i128;
        let pz = point.z as i128;
        let mx = self.middle.x as i128;
        let my = self.middle.y as i128;
        let mz = self.middle.z as i128;

        px > mx - rad && px < mx + rad && py > my - rad && py < my + rad && pz > mz - rad && pz
            < mz + rad
    }
}

impl OctreeCube {
    /// Replaces this box's children with a fresh box cluster carved from its
    /// own corners.
    pub fn divide(&mut self)
        requires
            divisible_box((*old(self)).cube_points@),
        ensures
            (*final(self)).cube_points == (*old(self)).cube_points,
            nodes_view((*final(self)).nodes) == Some(
                cube_cluster(octants_of((*old(self)).cube_points@)),
            ),
    {
        let corners = clone_points(&self.cube_points);
        self.nodes = Some(Self::into_cluster(corners));
    }

    /// Carves a box into eight fresh leaf boxes, one per octant.
    pub fn into_cluster(cube: Vec<Point>) -> (r: Vec<OctreeNode>)
        requires
            divisible_box(cube@),
        ensures
            r@.len() == 8,
            seq_view(r@) == cube_cluster(octants_of(cube@)),
    {
        let cluster = octree_divide_into_cube(&cube);
        proof {
            lemma_octants_fit(cube@);
            assert(corner_views(cluster@) =~= octants_of(cube@));
        }
        Self::from_cluster(cluster)
    }

    /// Builds the eight leaf boxes of one cluster.
    pub fn from_cluster(points: Vec<Vec<Point>>) -> (r: Vec<OctreeNode>)
        requires
            corner_views(points@).len() == 8,
        ensures
            r@.len() == 8,
            seq_view(r@) == cube_cluster(corner_views(points@)),
    {
        let ghost octs = corner_views(points@);
        let mut r: Vec<OctreeNode> = Vec::new();
        let mut k: usize = 0;
        while k < 8
            invariant
                octs == corner_views(points@),
                points@.len() == 8,
                k <= 8,
                r@.len() == k,
                seq_view(r@) == cube_cluster(octs).take(k as int),
            decreases 8 - k,
        {
            let node = OctreeNode::Cube(
                OctreeCube { cube_points: clone_points(&points[k]), nodes: None },
            );
            let ghost prev = r@;
            proof {
                assert(node_view(node) == cube_cluster(octs)[k as int]);
            }
            r.push(node);
            proof {
                assert(r@.drop_last() =~= prev);
                assert(seq_view(r@) =~= cube_cluster(octs).take(k as int + 1));
            }
            k += 1;
        }
        proof {
            assert(cube_cluster(octs).take(8) =~= cube_cluster(octs));
        }
        r
    }
}

} // verus!

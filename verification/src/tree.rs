//! The tree: fixed-schedule construction, bulk import, and flattening export.

use vstd::prelude::*;

use crate::geometry::{box_corners, cluster_fits, gen_cube, lemma_octants_fit, octants_of, Point};
use crate::model::{
    cube_cluster, datas_empty, exported, imported, lobe_divided, lobe_leaf_count,
    node_count, sphere_cluster, standard_branch, standard_tree, NodeModel,
};
use crate::node::{
    lemma_seq_view, lemma_view_children, node_view, nodes_view, seq_view, OctreeCube, OctreeNode,
};

verus! {

/// The spatial partition: one root box subdivided by the fixed schedule
/// (boxes at depth one, lobes at depths two and three).
#[derive(Debug)]
pub struct Octree {
    pub root: OctreeNode,
}

impl View for Octree {
    type V = NodeModel;

    open spec fn view(&self) -> NodeModel {
        self.root@
    }
}

impl Octree {
    /// Builds the whole hierarchy eagerly: a root box over `[0, size]^3`,
    /// eight box octants, and two rounds of lobe subdivision below each. The
    /// shape is fixed for the tree's lifetime and no cell stores data yet.
    pub fn new(size: i64) -> (r: Self)
        requires
            0 < size,
        ensures
            r@ == standard_tree(size),
            node_count(r@) == 585,
            lobe_leaf_count(r@) == 512,
            datas_empty(r@),
            exported(r@) == Seq::<Point>::empty(),
    {
        broadcast use lemma_seq_view;

        let root = gen_cube(0, 0, 0, size);
        let ghost root_model = box_corners(0, 0, 0, size as int);
        let ghost octs = octants_of(root_model);
        proof {
            lemma_octants_fit(root_model);
        }

        let mut nodes = OctreeCube::into_cluster(root);
        let mut i: usize = 0;
        while i < 8
            invariant
                i <= 8,
                nodes@.len() == 8,
                octs == octants_of(box_corners(0, 0, 0, size as int)),
                cluster_fits(octs),
                forall|k: int|
                    i <= k < 8 ==> node_view(#[trigger] nodes@[k]) == cube_cluster(octs)[k],
                forall|k: int|
                    0 <= k < i ==> node_view(#[trigger] nodes@[k]) == standard_branch(octs[k]),
            decreases 8 - i,
        {
            broadcast use lemma_seq_view;

            let mut node = nodes.remove(i);
            node.divide_into_spheres();

            let ghost inner_octs = octants_of(octs[i as int]);
            proof {
                lemma_octants_fit(octs[i as int]);
            }
            let ghost node_divided = node;
            let taken = node.take_nodes();
            proof {
                lemma_view_children(node_divided);
                assert(nodes_view(taken) == Some(sphere_cluster(inner_octs)));
            }
            let mut spheres = match taken {
                Some(s) => s,
                None => {
                    // a just-subdivided node always has children
                    proof {
                        assert(false);
                    }
                    Vec::new()
                }
            };
            proof {
                assert(seq_view(spheres@) == sphere_cluster(inner_octs));
            }
            let mut q: usize = 0;
            while q < 8
                invariant
                    q <= 8,
                    spheres@.len() == 8,
                    cluster_fits(inner_octs),
                    forall|k: int|
                        q <= k < 8 ==> node_view(#[trigger] spheres@[k]) == sphere_cluster(
                            inner_octs,
                        )[k],
                    forall|k: int|
                        0 <= k < q ==> node_view(#[trigger] spheres@[k]) == lobe_divided(
                            sphere_cluster(inner_octs)[k],
                        ),
                decreases 8 - q,
            {
                broadcast use lemma_seq_view;

                let mut sp = spheres.remove(q);
                sp.divide_into_spheres();
                spheres.insert(q, sp);
                q += 1;
            }
            node.set_nodes(spheres);
            proof {
                let want = standard_branch(octs[i as int]);
                let cells = sphere_cluster(inner_octs);
                assert(seq_view(spheres@) =~= cells.map(|k: int, c: NodeModel| lobe_divided(c)));
                assert(node_view(node) == want);
            }
            nodes.insert(i, node);
            i += 1;
        }

        let root_corners = gen_cube(0, 0, 0, size);
        let r = Octree {
            root: OctreeNode::Cube(OctreeCube { cube_points: root_corners, nodes: Some(nodes) }),
        };
        proof {
            assert(seq_view(nodes@) =~= octs.map(|k: int, oct: Seq<Point>| standard_branch(oct)));
            assert(r@ == standard_tree(size));
            crate::model::lemma_standard_tree_stats(size);
        }
        r
    }

    /// Hands the whole batch to the root; every leaf lobe appends the points
    /// its window accepts, in batch order, however many leaves accept each
    /// point.
    pub fn import(&mut self, data: &[Point])
        ensures
            (*final(self))@ == imported((*old(self))@, data@),
    {
        self.root.import(data);
    }

    /// Flattens every stored point into one buffer, depth first, children in
    /// index order, each lobe's points before its descendants'. Reading does
    /// not change the tree, so repeated exports return the same sequence.
    pub fn export(&self) -> (output: Vec<Point>)
        ensures
            output@ == exported(self@),
    {
        let mut output = Vec::new();
        self.root.export(&mut output);
        proof {
            assert(Seq::<Point>::empty() + exported(self@) =~= exported(self@));
        }
        output
    }
}

} // verus!

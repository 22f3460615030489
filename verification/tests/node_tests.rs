use octree::geometry::{gen_cube, Point};
use octree::node::{OctreeCube, OctreeNode, OctreeSphere};

fn p(x: i64, y: i64, z: i64) -> Point {
    Point { x, y, z }
}

fn leaf_sphere(middle: Point, radius: i64) -> OctreeSphere {
    OctreeSphere {
        middle,
        radius,
        data_points: Vec::new(),
        cube_points: gen_cube(0, 0, 0, 1),
        nodes: None,
    }
}

#[test]
fn window_boundary_is_excluded() {
    let s = leaf_sphere(p(100, 100, 100), 10);
    // exactly radius away on one axis: not contained (strict inequality)
    assert!(!s.is_inside(&p(110, 100, 100)));
    assert!(!s.is_inside(&p(100, 110, 100)));
    assert!(!s.is_inside(&p(100, 100, 110)));
    assert!(!s.is_inside(&p(90, 100, 100)));
    // one step inside the boundary: contained
    assert!(s.is_inside(&p(109, 100, 100)));
    assert!(s.is_inside(&p(100, 109, 100)));
    assert!(s.is_inside(&p(100, 100, 109)));
    assert!(s.is_inside(&p(91, 100, 100)));
    assert!(s.is_inside(&p(100, 100, 100)));
}

#[test]
fn degenerate_radius_accepts_nothing() {
    let s = leaf_sphere(p(5, 5, 5), 0);
    assert!(!s.is_inside(&p(5, 5, 5)));
}

#[test]
fn cube_nodes_accept_nothing() {
    let n = OctreeNode::Cube(OctreeCube { cube_points: gen_cube(0, 0, 0, 100), nodes: None });
    assert!(!n.is_inside(&p(50, 50, 50)));
}

#[test]
fn sphere_cluster_radius_is_a_third_of_the_edge() {
    let cluster = OctreeSphere::into_cluster(gen_cube(0, 0, 0, 216));
    assert_eq!(cluster.len(), 8);
    for node in &cluster {
        match node {
            OctreeNode::Sphere(s) => {
                // octant edge 108, radius 108 / 3
                assert_eq!(s.radius, 36);
                assert!(s.nodes.is_none());
                assert!(s.data_points.is_empty());
            }
            OctreeNode::Cube(_) => panic!("lobe cluster produced a box"),
        }
    }
    match &cluster[0] {
        OctreeNode::Sphere(s) => assert_eq!(s.middle, p(54, 54, 54)),
        OctreeNode::Cube(_) => unreachable!(),
    }
}

#[test]
fn divide_into_cubes_makes_eight_boxes() {
    let mut n = OctreeNode::Cube(OctreeCube { cube_points: gen_cube(0, 0, 0, 64), nodes: None });
    n.divide_into_cubes();
    let children = n.nodes_ref().expect("children after subdivision");
    assert_eq!(children.len(), 8);
    for child in children.iter() {
        assert!(matches!(child, OctreeNode::Cube(_)));
    }
}

#[test]
fn divide_dispatches_on_kind() {
    let mut b = OctreeNode::Cube(OctreeCube { cube_points: gen_cube(0, 0, 0, 64), nodes: None });
    b.divide();
    for child in b.nodes_ref().unwrap().iter() {
        assert!(matches!(child, OctreeNode::Cube(_)));
    }

    let mut s = OctreeNode::Sphere(OctreeSphere {
        middle: p(32, 32, 32),
        radius: 21,
        data_points: Vec::new(),
        cube_points: gen_cube(0, 0, 0, 64),
        nodes: None,
    });
    s.divide();
    for child in s.nodes_ref().unwrap().iter() {
        assert!(matches!(child, OctreeNode::Sphere(_)));
    }
}

#[test]
fn node_accessor_borrows_children_mutably() {
    let mut n = OctreeNode::Cube(OctreeCube { cube_points: gen_cube(0, 0, 0, 64), nodes: None });
    n.divide_into_spheres();
    {
        let child = n.node(2);
        child.add_data_point(p(1, 2, 3));
    }
    match n.nodes_ref().unwrap()[2] {
        OctreeNode::Sphere(ref s) => assert_eq!(s.data_points, vec![p(1, 2, 3)]),
        OctreeNode::Cube(_) => panic!("expected a lobe child"),
    }
    match n.nodes_mut() {
        Some(children) => {
            children[1].add_data_point(p(9, 9, 9));
        }
        None => panic!("children present"),
    }
    match n.nodes_ref().unwrap()[1] {
        OctreeNode::Sphere(ref s) => assert_eq!(s.data_points, vec![p(9, 9, 9)]),
        OctreeNode::Cube(_) => panic!("expected a lobe child"),
    }
}

#[test]
fn add_data_point_ignored_by_boxes() {
    let mut n = OctreeNode::Cube(OctreeCube { cube_points: gen_cube(0, 0, 0, 8), nodes: None });
    n.add_data_point(p(1, 1, 1));
    let mut out = Vec::new();
    n.export(&mut out);
    assert!(out.is_empty());
}

#[test]
fn export_appends_lobe_data_before_descendants() {
    let mut s = OctreeNode::Sphere(OctreeSphere {
        middle: p(32, 32, 32),
        radius: 21,
        data_points: vec![p(7, 7, 7)],
        cube_points: gen_cube(0, 0, 0, 64),
        nodes: None,
    });
    s.divide_into_spheres();
    // put a point directly into the first child lobe
    s.node(0).add_data_point(p(3, 3, 3));
    let mut out = Vec::new();
    s.export(&mut out);
    assert_eq!(out, vec![p(7, 7, 7), p(3, 3, 3)]);
}

#[test]
fn cube_points_returns_the_corners() {
    let n = OctreeNode::Cube(OctreeCube { cube_points: gen_cube(2, 4, 6, 10), nodes: None });
    assert_eq!(n.cube_points(), gen_cube(2, 4, 6, 10));
}

#[test]
fn set_nodes_installs_children() {
    let mut n = OctreeNode::Cube(OctreeCube { cube_points: gen_cube(0, 0, 0, 4), nodes: None });
    assert!(n.nodes_ref().is_none());
    n.set_nodes(OctreeCube::into_cluster(gen_cube(0, 0, 0, 4)));
    assert_eq!(n.nodes_ref().unwrap().len(), 8);
}

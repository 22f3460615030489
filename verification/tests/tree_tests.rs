use octree::geometry::Point;
use octree::node::OctreeNode;
use octree::tree::Octree;

fn p(x: i64, y: i64, z: i64) -> Point {
    Point { x, y, z }
}

/// total cells, leaf lobes, leaf boxes, interior cells
fn census(n: &OctreeNode) -> (usize, usize, usize, usize) {
    let (mut total, mut leaf_lobes, mut leaf_boxes, mut interior) = (1usize, 0usize, 0usize, 0usize);
    match n.nodes_ref() {
        Some(children) => {
            interior += 1;
            for child in children.iter() {
                let (t, ll, lb, i) = census(child);
                total += t;
                leaf_lobes += ll;
                leaf_boxes += lb;
                interior += i;
            }
        }
        None => match n {
            OctreeNode::Sphere(_) => leaf_lobes += 1,
            OctreeNode::Cube(_) => leaf_boxes += 1,
        },
    }
    (total, leaf_lobes, leaf_boxes, interior)
}

#[test]
fn new_tree_has_585_cells_and_512_leaf_lobes() {
    let tree = Octree::new(216);
    let (total, leaf_lobes, leaf_boxes, interior) = census(&tree.root);
    assert_eq!(total, 585);
    assert_eq!(leaf_lobes, 512);
    assert_eq!(leaf_boxes, 0);
    assert_eq!(interior, 73);
}

#[test]
fn fresh_tree_exports_nothing() {
    let tree = Octree::new(1920);
    assert!(tree.export().is_empty());
}

#[test]
fn export_is_idempotent() {
    let mut tree = Octree::new(216);
    let data = vec![p(13, 13, 13), p(5, 5, 5), p(100, 100, 100)];
    tree.import(&data);
    let first = tree.export();
    let second = tree.export();
    assert_eq!(first, second);
}

#[test]
fn point_in_one_leaf_window_is_stored_once() {
    // leaf lobes of a size-216 tree: radius 9, middles at 27k + 13
    let mut tree = Octree::new(216);
    tree.import(&vec![p(13, 13, 13)]);
    assert_eq!(tree.export(), vec![p(13, 13, 13)]);
}

#[test]
fn point_between_leaf_windows_is_dropped() {
    // x = 24 falls in the gap between the windows (4, 22) and (31, 49)
    let mut tree = Octree::new(216);
    tree.import(&vec![p(24, 13, 13)]);
    assert!(tree.export().is_empty());
}

#[test]
fn duplicate_batch_entries_are_stored_per_occurrence() {
    let mut tree = Octree::new(216);
    tree.import(&vec![p(13, 13, 13), p(13, 13, 13)]);
    assert_eq!(tree.export(), vec![p(13, 13, 13), p(13, 13, 13)]);
}

#[test]
fn same_leaf_points_keep_import_order() {
    // all three land in the leaf window (4, 22)^3 of the first leaf lobe
    let mut tree = Octree::new(216);
    tree.import(&vec![p(5, 5, 5), p(13, 13, 13), p(20, 20, 20)]);
    assert_eq!(tree.export(), vec![p(5, 5, 5), p(13, 13, 13), p(20, 20, 20)]);
}

#[test]
fn later_imports_append_after_earlier_ones() {
    let mut tree = Octree::new(216);
    tree.import(&vec![p(20, 20, 20)]);
    tree.import(&vec![p(5, 5, 5)]);
    assert_eq!(tree.export(), vec![p(20, 20, 20), p(5, 5, 5)]);
}

#[test]
fn end_to_end_scenario() {
    // a size-1920 tree has leaf lobes of radius 80 with middles at 240k + 120
    let mut tree = Octree::new(1920);
    let a = p(120, 120, 120);
    let b = p(1080, 1080, 1080);
    let c = p(1800, 1800, 1800);
    tree.import(&vec![a, b, c]);
    let out = tree.export();
    assert_eq!(out.len(), 3);
    assert!(out.contains(&a));
    assert!(out.contains(&b));
    assert!(out.contains(&c));
    // each of the three sits inside some leaf lobe's recorded window
    for q in [a, b, c] {
        assert!(some_leaf_window_contains(&tree.root, &q));
    }
}

#[test]
fn coverage_gap_drops_off_window_points() {
    // the same scenario points scaled from fractional coordinates miss every
    // leaf window: the unfiltered fan-out stores only what some window accepts
    let mut tree = Octree::new(1920);
    tree.import(&vec![p(24, 24, 24), p(1896, 1896, 1896), p(960, 960, 960)]);
    assert!(tree.export().is_empty());
}

fn some_leaf_window_contains(n: &OctreeNode, q: &Point) -> bool {
    match n.nodes_ref() {
        Some(children) => children.iter().any(|c| some_leaf_window_contains(c, q)),
        None => n.is_inside(q),
    }
}

#[test]
fn tiny_tree_keeps_the_full_shape_but_zero_radius_accepts_nothing() {
    // edge length collapses to zero after three halvings, radius to zero:
    // degenerate geometry propagates silently, the shape stays fixed
    let mut tree = Octree::new(1);
    let (total, leaf_lobes, _, _) = census(&tree.root);
    assert_eq!(total, 585);
    assert_eq!(leaf_lobes, 512);
    tree.import(&vec![p(0, 0, 0), p(1, 1, 1)]);
    assert!(tree.export().is_empty());
}

#[test]
fn points_outside_the_root_box_are_dropped() {
    let mut tree = Octree::new(216);
    tree.import(&vec![p(-13, -13, -13), p(500, 500, 500)]);
    assert!(tree.export().is_empty());
}

#[test]
fn import_reaches_every_octant() {
    // one point per leaf-lobe middle of a distinct level-1 octant
    let mut tree = Octree::new(216);
    let pts: Vec<Point> = (0..8)
        .map(|k| {
            let o = 27 * (k as i64);
            p(o + 13, 13, 13)
        })
        .collect();
    tree.import(&pts);
    let out = tree.export();
    assert_eq!(out.len(), 8);
    for q in &pts {
        assert!(out.contains(q));
    }
}

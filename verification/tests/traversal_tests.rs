use octree::geometry::Point;
use octree::traversal::{debug_line_indices, DebugCell};
use octree::tree::Octree;

fn p(x: i64, y: i64, z: i64) -> Point {
    Point { x, y, z }
}

#[test]
fn walk_visits_every_cell_once() {
    let tree = Octree::new(216);
    let cells = tree.debug_cells();
    assert_eq!(cells.len(), 585);
    let boxes = cells.iter().filter(|c| matches!(c, DebugCell::Cube { .. })).count();
    let lobes = cells.iter().filter(|c| matches!(c, DebugCell::Sphere { .. })).count();
    assert_eq!(boxes, 9);
    assert_eq!(lobes, 576);
}

#[test]
fn walk_is_breadth_first() {
    let tree = Octree::new(216);
    let cells = tree.debug_cells();
    // root first, then its eight box octants, then sixty-four lobes
    match &cells[0] {
        DebugCell::Cube { corners } => {
            assert_eq!(corners[0], p(0, 0, 0));
            assert_eq!(corners[6], p(216, 216, 216));
        }
        DebugCell::Sphere { .. } => panic!("root reported as a lobe"),
    }
    for c in &cells[1..9] {
        assert!(matches!(c, DebugCell::Cube { .. }));
    }
    for c in &cells[9..73] {
        match c {
            DebugCell::Sphere { radius, .. } => assert_eq!(*radius, 18),
            DebugCell::Cube { .. } => panic!("depth-two cell reported as a box"),
        }
    }
    for c in &cells[73..] {
        match c {
            DebugCell::Sphere { radius, .. } => assert_eq!(*radius, 9),
            DebugCell::Cube { .. } => panic!("leaf cell reported as a box"),
        }
    }
}

#[test]
fn box_cell_emits_twelve_edges() {
    let cells = vec![DebugCell::Cube { corners: octree::geometry::gen_cube(0, 0, 0, 8) }];
    let idx = debug_line_indices(&cells);
    assert_eq!(
        idx,
        vec![0, 1, 1, 2, 2, 3, 0, 3, 0, 4, 1, 5, 2, 6, 3, 7, 4, 5, 5, 6, 6, 7, 4, 7]
    );
}

#[test]
fn lobe_cell_emits_box_and_skeleton_edges() {
    let cells = vec![
        DebugCell::Cube { corners: octree::geometry::gen_cube(0, 0, 0, 8) },
        DebugCell::Sphere {
            corners: octree::geometry::gen_cube(0, 0, 0, 4),
            middle: p(2, 2, 2),
            radius: 1,
        },
    ];
    let idx = debug_line_indices(&cells);
    // 24 box indices for the first cell, then 24 + 60 for the lobe
    assert_eq!(idx.len(), 24 + 24 + 60);
    // the lobe's box edges start at vertex 8
    assert_eq!(&idx[24..32], &[8, 9, 9, 10, 10, 11, 8, 11]);
    // the skeleton ring starts at vertex 16
    assert_eq!(&idx[48..54], &[16, 17, 17, 18, 18, 19]);
    // every index points into the 28-vertex buffer
    assert!(idx.iter().all(|&i| i < 28));
}

#[test]
fn whole_tree_index_buffer_stays_valid() {
    let tree = Octree::new(1920);
    let cells = tree.debug_cells();
    let idx = debug_line_indices(&cells);
    let total: u32 = cells
        .iter()
        .map(|c| match c {
            DebugCell::Cube { .. } => 8u32,
            DebugCell::Sphere { .. } => 20u32,
        })
        .sum();
    assert_eq!(total, 9 * 8 + 576 * 20);
    assert_eq!(idx.len(), 9 * 24 + 576 * 84);
    assert!(idx.iter().all(|&i| i < total));
}

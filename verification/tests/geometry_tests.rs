use octree::geometry::{cube_middle, gen_cube, octree_divide_into_cube, Point};

fn p(x: i64, y: i64, z: i64) -> Point {
    Point { x, y, z }
}

#[test]
fn gen_cube_corner_order() {
    let c = gen_cube(1, 2, 3, 10);
    assert_eq!(
        c,
        vec![
            p(1, 2, 3),
            p(1, 12, 3),
            p(11, 12, 3),
            p(11, 2, 3),
            p(1, 2, 13),
            p(1, 12, 13),
            p(11, 12, 13),
            p(11, 2, 13),
        ]
    );
}

#[test]
fn cube_middle_uses_corner_pair() {
    let c = gen_cube(0, 0, 0, 216);
    assert_eq!(cube_middle(&c), p(108, 108, 108));
    let shifted = gen_cube(10, 20, 30, 8);
    assert_eq!(cube_middle(&shifted), p(14, 24, 34));
}

#[test]
fn cube_middle_floors_odd_edges() {
    let c = gen_cube(0, 0, 0, 27);
    assert_eq!(cube_middle(&c), p(13, 13, 13));
}

#[test]
fn divide_into_cube_octant_origins() {
    let c = gen_cube(0, 0, 0, 216);
    let octs = octree_divide_into_cube(&c);
    assert_eq!(octs.len(), 8);
    let expected_origins = [
        p(0, 0, 0),
        p(0, 108, 0),
        p(108, 108, 0),
        p(108, 0, 0),
        p(0, 0, 108),
        p(0, 108, 108),
        p(108, 108, 108),
        p(108, 0, 108),
    ];
    for (k, oct) in octs.iter().enumerate() {
        assert_eq!(oct.len(), 8);
        assert_eq!(oct[0], expected_origins[k]);
        // each octant is a half-size box in the same winding order
        assert_eq!(oct[3].x - oct[0].x, 108);
        assert_eq!(oct[1].y - oct[0].y, 108);
        assert_eq!(oct[4].z - oct[0].z, 108);
    }
}

use mimesis::{Error, Point, Polygon, Ring};

fn ring(points: &[(u32, u32)]) -> Ring {
    Ring::new(points.iter().map(|&(x, y)| Point { x, y }).collect()).unwrap()
}

fn coords(ring: &Ring) -> Vec<(u32, u32)> {
    ring.points().iter().map(|p| (p.x, p.y)).collect()
}

#[test]
fn new_ring_is_closed() {
    let square = ring(&[(0, 0), (4, 0), (4, 4), (0, 4)]);
    assert_eq!(coords(&square), vec![(0, 0), (4, 0), (4, 4), (0, 4), (0, 0)]);
    assert_eq!(square.len(), 5);
}

#[test]
fn closed_ring_is_kept_as_it_is() {
    let square = ring(&[(0, 0), (4, 0), (4, 4), (0, 4), (0, 0)]);
    assert_eq!(coords(&square), vec![(0, 0), (4, 0), (4, 4), (0, 4), (0, 0)]);
}

#[test]
fn too_few_points_make_no_ring() {
    assert!(matches!(Ring::new(vec![]), Err(Error::NotEnoughPoints)));
    assert!(matches!(Ring::new(vec![Point { x: 1, y: 1 }]), Err(Error::NotEnoughPoints)));
    assert!(matches!(
        Ring::new(vec![Point { x: 1, y: 1 }, Point { x: 2, y: 1 }]),
        Err(Error::NotEnoughPoints)
    ));
    assert!(matches!(
        Ring::new(vec![Point { x: 1, y: 1 }, Point { x: 2, y: 1 }, Point { x: 1, y: 1 }]),
        Err(Error::NotEnoughPoints)
    ));
    assert!(Ring::new(vec![Point { x: 1, y: 1 }, Point { x: 2, y: 1 }, Point { x: 1, y: 2 }]).is_ok());
}

#[test]
fn area_of_a_square() {
    let square = ring(&[(2, 2), (6, 2), (6, 6), (2, 6)]);
    assert!(square.is_positive());
    assert!(!square.is_negative());
    assert_eq!(square.doubled_area(), 32);
}

#[test]
fn area_of_a_reversed_square() {
    let square = ring(&[(2, 2), (2, 6), (6, 6), (6, 2)]);
    assert!(square.is_negative());
    assert!(!square.is_positive());
    assert_eq!(square.doubled_area(), 32);
}

#[test]
fn area_of_a_triangle() {
    let triangle = ring(&[(0, 0), (1, 0), (0, 1)]);
    assert!(triangle.is_positive());
    assert_eq!(triangle.doubled_area(), 1);
}

#[test]
fn area_of_a_flat_ring_is_zero() {
    let flat = ring(&[(0, 0), (5, 0), (9, 0)]);
    assert!(!flat.is_positive());
    assert!(!flat.is_negative());
    assert_eq!(flat.doubled_area(), 0);
}

#[test]
fn area_at_the_far_corner_of_the_grid() {
    let max = u32::MAX;
    let square = ring(&[(0, 0), (max, 0), (max, max), (0, max)]);
    assert!(square.is_positive());
    assert_eq!(square.doubled_area(), 2 * (max as u128) * (max as u128));
}

#[test]
fn reversed_runs_the_other_way() {
    let square = ring(&[(2, 2), (6, 2), (6, 6), (2, 6)]);
    let back = square.reversed();
    assert_eq!(coords(&back), vec![(2, 2), (2, 6), (6, 6), (6, 2), (2, 2)]);
    assert!(back.is_negative());
    assert_eq!(back.doubled_area(), 32);
}

#[test]
fn contains_by_even_odd() {
    let square = ring(&[(2, 2), (6, 2), (6, 6), (2, 6)]);
    assert!(square.contains(Point { x: 3, y: 3 }));
    assert!(square.contains(Point { x: 5, y: 5 }));
    assert!(!square.contains(Point { x: 1, y: 3 }));
    assert!(!square.contains(Point { x: 7, y: 3 }));
    assert!(!square.contains(Point { x: 3, y: 1 }));
    assert!(!square.contains(Point { x: 3, y: 7 }));
    // On the left and top sides a point counts as inside, on the right and
    // bottom sides as outside.
    assert!(square.contains(Point { x: 2, y: 3 }));
    assert!(square.contains(Point { x: 3, y: 2 }));
    assert!(!square.contains(Point { x: 6, y: 3 }));
    assert!(!square.contains(Point { x: 3, y: 6 }));
}

#[test]
fn contains_with_a_slanted_side() {
    let triangle = ring(&[(0, 0), (8, 0), (0, 8)]);
    assert!(triangle.contains(Point { x: 1, y: 1 }));
    assert!(triangle.contains(Point { x: 3, y: 4 }));
    assert!(!triangle.contains(Point { x: 4, y: 4 }));
    assert!(!triangle.contains(Point { x: 5, y: 4 }));
}

#[test]
fn contains_in_a_concave_ring() {
    let shape = ring(&[(0, 0), (6, 0), (6, 6), (4, 6), (4, 2), (2, 2), (2, 6), (0, 6)]);
    assert!(shape.contains(Point { x: 1, y: 4 }));
    assert!(!shape.contains(Point { x: 3, y: 4 }));
    assert!(shape.contains(Point { x: 5, y: 4 }));
    assert!(shape.contains(Point { x: 3, y: 1 }));
}

#[test]
fn reaches_counts_pixels() {
    let hole = ring(&[(5, 5), (5, 7), (7, 7), (7, 5)]);
    assert!(hole.reaches(0));
    assert!(hole.reaches(2));
    assert!(!hole.reaches(3));
    let slab = ring(&[(0, 0), (9, 0), (9, 1), (0, 1)]);
    assert!(slab.reaches(1));
    assert!(!slab.reaches(2));
    let pixel = ring(&[(3, 3), (4, 3), (4, 4), (3, 4)]);
    assert!(pixel.reaches(1));
    assert!(!pixel.reaches(2));
}

#[test]
fn covers_counts_grid_lines() {
    let hole = ring(&[(5, 5), (5, 7), (7, 7), (7, 5)]);
    assert!(hole.covers(0));
    assert!(hole.covers(1));
    assert!(hole.covers(3));
    assert!(!hole.covers(4));
    assert!(!hole.covers(5));
    let slab = ring(&[(0, 0), (9, 0), (9, 1), (0, 1)]);
    assert!(slab.covers(2));
    assert!(!slab.covers(3));
}

#[test]
fn polygon_keeps_its_rings() {
    let outer = ring(&[(0, 0), (9, 0), (9, 9), (0, 9)]);
    let hole = ring(&[(3, 3), (3, 5), (5, 5), (5, 3)]);
    let mut polygon = Polygon::new(outer, vec![hole]);
    assert_eq!(coords(polygon.exterior()), vec![(0, 0), (9, 0), (9, 9), (0, 9), (0, 0)]);
    assert_eq!(polygon.interiors().len(), 1);
    polygon.push_interior(ring(&[(6, 6), (6, 8), (8, 8), (8, 6)]));
    assert_eq!(polygon.interiors().len(), 2);
    assert_eq!(
        coords(&polygon.interiors()[1]),
        vec![(6, 6), (6, 8), (8, 8), (8, 6), (6, 6)]
    );
}

#[test]
fn mesh_input_drops_the_closing_points() {
    let outer = ring(&[(0, 0), (9, 0), (9, 9), (0, 9)]);
    let first = ring(&[(1, 1), (1, 3), (3, 3), (3, 1)]);
    let second = ring(&[(5, 5), (5, 7), (7, 5)]);
    let polygon = Polygon::new(outer, vec![first, second]);
    let (vertices, holes) = polygon.mesh_input();
    let flat: Vec<(u32, u32)> = vertices.iter().map(|p| (p.x, p.y)).collect();
    assert_eq!(
        flat,
        vec![
            (0, 0),
            (9, 0),
            (9, 9),
            (0, 9),
            (1, 1),
            (1, 3),
            (3, 3),
            (3, 1),
            (5, 5),
            (5, 7),
            (7, 5)
        ]
    );
    assert_eq!(holes, vec![4, 8]);
}

#[test]
fn mesh_input_without_holes() {
    let polygon = Polygon::new(ring(&[(0, 0), (4, 0), (4, 4), (0, 4)]), vec![]);
    let (vertices, holes) = polygon.mesh_input();
    assert_eq!(vertices.len(), 4);
    assert!(holes.is_empty());
}

use mimesis::{BinaryImage, Point, Polygon};

fn mask(rows: &[&str]) -> BinaryImage {
    let height = rows.len() as u32;
    let width = rows[0].len() as u32;
    let mut bytes = Vec::new();
    for row in rows {
        for c in row.chars() {
            bytes.push(if c == '#' { 1u8 } else { 0u8 });
        }
    }
    BinaryImage::from_raw(width, height, &bytes).unwrap()
}

fn filled(width: u32, height: u32, value: u8) -> BinaryImage {
    BinaryImage::from_raw(width, height, &vec![value; (width * height) as usize]).unwrap()
}

fn coords(points: &[Point]) -> Vec<(u32, u32)> {
    points.iter().map(|p| (p.x, p.y)).collect()
}

fn exterior(polygon: &Polygon) -> Vec<(u32, u32)> {
    coords(polygon.exterior().points())
}

fn interiors(polygon: &Polygon) -> Vec<Vec<(u32, u32)>> {
    polygon.interiors().iter().map(|r| coords(r.points())).collect()
}

#[test]
fn all_background_traces_nothing() {
    let polygons = filled(8, 8, 0).trace_polygons(0);
    assert!(polygons.is_empty());
}

#[test]
fn all_foreground_traces_the_image_rectangle() {
    let polygons = filled(4, 4, 255).trace_polygons(0);
    assert_eq!(polygons.len(), 1);
    assert_eq!(exterior(&polygons[0]), vec![(0, 0), (4, 0), (4, 4), (0, 4), (0, 0)]);
    assert!(polygons[0].interiors().is_empty());
}

#[test]
fn centred_block_has_square_exterior() {
    let image = mask(&[
        "........",
        "........",
        "..####..",
        "..####..",
        "..####..",
        "..####..",
        "........",
        "........",
    ]);
    let polygons = image.trace_polygons(0);
    assert_eq!(polygons.len(), 1);
    assert_eq!(exterior(&polygons[0]), vec![(2, 2), (6, 2), (6, 6), (2, 6), (2, 2)]);
    assert!(polygons[0].interiors().is_empty());
    assert!(polygons[0].exterior().is_positive());
    assert_eq!(polygons[0].exterior().doubled_area(), 32);
}

fn annulus() -> BinaryImage {
    mask(&[
        "............",
        "............",
        "..########..",
        "..########..",
        "..########..",
        "..###..###..",
        "..###..###..",
        "..########..",
        "..########..",
        "..########..",
        "............",
        "............",
    ])
}

#[test]
fn annulus_has_one_hole() {
    let polygons = annulus().trace_polygons(3);
    assert_eq!(polygons.len(), 1);
    assert_eq!(exterior(&polygons[0]), vec![(2, 2), (10, 2), (10, 10), (2, 10), (2, 2)]);
    assert_eq!(interiors(&polygons[0]), vec![vec![(5, 5), (5, 7), (7, 7), (7, 5), (5, 5)]]);
    assert!(polygons[0].interiors()[0].is_negative());
    assert!(polygons[0].exterior().contains(Point { x: 5, y: 5 }));
}

#[test]
fn annulus_hole_is_dropped_below_min_dimension() {
    let polygons = annulus().trace_polygons(5);
    assert_eq!(polygons.len(), 1);
    assert_eq!(exterior(&polygons[0]), vec![(2, 2), (10, 2), (10, 10), (2, 10), (2, 2)]);
    assert!(polygons[0].interiors().is_empty());
}

#[test]
fn annulus_is_dropped_whole_when_too_small() {
    assert!(annulus().trace_polygons(9).is_empty());
    assert_eq!(annulus().trace_polygons(8).len(), 1);
}

#[test]
fn two_disjoint_squares_in_scan_order() {
    let image = mask(&[
        "..........",
        ".##.......",
        ".##...###.",
        "......###.",
        "..........",
    ]);
    let first = image.trace_polygons(0);
    assert_eq!(first.len(), 2);
    assert_eq!(exterior(&first[0]), vec![(1, 1), (3, 1), (3, 3), (1, 3), (1, 1)]);
    assert_eq!(exterior(&first[1]), vec![(6, 2), (9, 2), (9, 4), (6, 4), (6, 2)]);
    let second = image.trace_polygons(0);
    assert_eq!(second.len(), 2);
    assert_eq!(exterior(&second[0]), exterior(&first[0]));
    assert_eq!(exterior(&second[1]), exterior(&first[1]));
}

#[test]
fn diagonal_pixels_are_separate_regions() {
    let polygons = mask(&["#.", ".#"]).trace_polygons(0);
    assert_eq!(polygons.len(), 2);
    assert_eq!(exterior(&polygons[0]), vec![(0, 0), (1, 0), (1, 1), (0, 1), (0, 0)]);
    assert_eq!(exterior(&polygons[1]), vec![(1, 1), (2, 1), (2, 2), (1, 2), (1, 1)]);
}

#[test]
fn l_shape_follows_the_concave_corner() {
    let polygons = mask(&["#.", "##"]).trace_polygons(0);
    assert_eq!(polygons.len(), 1);
    assert_eq!(
        exterior(&polygons[0]),
        vec![(0, 0), (1, 0), (1, 1), (2, 1), (2, 2), (0, 2), (0, 0)]
    );
}

#[test]
fn nested_regions_get_their_own_holes() {
    let image = mask(&[
        "#######",
        "#.....#",
        "#.###.#",
        "#.#.#.#",
        "#.###.#",
        "#.....#",
        "#######",
    ]);
    let polygons = image.trace_polygons(0);
    assert_eq!(polygons.len(), 2);
    assert_eq!(exterior(&polygons[0]), vec![(0, 0), (7, 0), (7, 7), (0, 7), (0, 0)]);
    assert_eq!(interiors(&polygons[0]), vec![vec![(1, 1), (1, 6), (6, 6), (6, 1), (1, 1)]]);
    assert_eq!(exterior(&polygons[1]), vec![(2, 2), (5, 2), (5, 5), (2, 5), (2, 2)]);
    assert_eq!(interiors(&polygons[1]), vec![vec![(3, 3), (3, 4), (4, 4), (4, 3), (3, 3)]]);
}

#[test]
fn every_ring_is_closed_and_oriented() {
    let image = mask(&[
        "##..###...",
        "#.#.#.#.##",
        "###.###..#",
        "....#...##",
        "#.#####.#.",
        "#.#...#.##",
        "#.#.#.#...",
        "#.#...#.#.",
        "#.#####.#.",
        "#.......#.",
    ]);
    let polygons = image.trace_polygons(0);
    assert!(!polygons.is_empty());
    for polygon in &polygons {
        let ring = polygon.exterior().points();
        assert!(ring.len() >= 4);
        assert_eq!(ring.first(), ring.last());
        assert!(polygon.exterior().is_positive());
        for hole in polygon.interiors() {
            let points = hole.points();
            assert!(points.len() >= 4);
            assert_eq!(points.first(), points.last());
            assert!(hole.is_negative());
            assert!(polygon.exterior().contains(points[0]));
        }
    }
}

#[test]
fn empty_image_traces_nothing() {
    assert!(BinaryImage::new(0, 5).trace_polygons(0).is_empty());
    assert!(BinaryImage::new(5, 0).trace_polygons(0).is_empty());
    assert!(BinaryImage::new(0, 0).trace_polygons(0).is_empty());
    assert!(BinaryImage::new(3, 3).trace_polygons(0).is_empty());
}

#[test]
fn single_pixel_is_traced() {
    let polygons = mask(&["...", ".#.", "..."]).trace_polygons(0);
    assert_eq!(polygons.len(), 1);
    assert_eq!(exterior(&polygons[0]), vec![(1, 1), (2, 1), (2, 2), (1, 2), (1, 1)]);
    assert_eq!(polygons[0].exterior().doubled_area(), 2);
    assert!(mask(&["...", ".#.", "..."]).trace_polygons(2).is_empty());
    assert_eq!(mask(&["...", ".#.", "..."]).trace_polygons(1).len(), 1);
}

#[test]
fn mask_of_one_pixel_is_its_square() {
    let image = BinaryImage::from_raw(1, 1, &[1]).unwrap();
    let polygons = image.trace_polygons(0);
    assert_eq!(polygons.len(), 1);
    assert_eq!(exterior(&polygons[0]), vec![(0, 0), (1, 0), (1, 1), (0, 1), (0, 0)]);
    assert!(polygons[0].interiors().is_empty());
    assert_eq!(image.trace_polygons(1).len(), 1);
    assert!(image.trace_polygons(2).is_empty());
}

#[test]
fn hole_of_one_pixel_is_its_square() {
    let polygons = mask(&["###", "#.#", "###"]).trace_polygons(0);
    assert_eq!(polygons.len(), 1);
    assert_eq!(interiors(&polygons[0]), vec![vec![(1, 1), (1, 2), (2, 2), (2, 1), (1, 1)]]);
    assert_eq!(polygons[0].interiors()[0].doubled_area(), 2);
    assert_eq!(mask(&["###", "#.#", "###"]).trace_polygons(2).len(), 1);
    assert_eq!(mask(&["###", "#.#", "###"]).trace_polygons(2)[0].interiors().len(), 1);
    assert!(mask(&["###", "#.#", "###"]).trace_polygons(3)[0].interiors().is_empty());
}

#[test]
fn corner_is_kept_where_the_walk_comes_home_round_it() {
    // The walk comes back to its first cell by a move round a corner.
    let polygons = mask(&["####.", ".####"]).trace_polygons(0);
    assert_eq!(polygons.len(), 1);
    assert_eq!(
        exterior(&polygons[0]),
        vec![(0, 0), (4, 0), (4, 1), (5, 1), (5, 2), (1, 2), (1, 1), (0, 1), (0, 0)]
    );
    let polygons = mask(&[".##", "##.", ".#."]).trace_polygons(0);
    assert_eq!(polygons.len(), 1);
    assert_eq!(polygons[0].exterior().doubled_area(), 10);
}

#[test]
fn region_on_the_image_edge_is_traced() {
    let polygons = mask(&["##.", "##.", "..."]).trace_polygons(0);
    assert_eq!(polygons.len(), 1);
    assert_eq!(exterior(&polygons[0]), vec![(0, 0), (2, 0), (2, 2), (0, 2), (0, 0)]);
    let polygons = mask(&["...", ".##", ".##"]).trace_polygons(0);
    assert_eq!(exterior(&polygons[0]), vec![(1, 1), (3, 1), (3, 3), (1, 3), (1, 1)]);
}

#[test]
fn bay_open_to_the_outside_is_no_hole() {
    let polygons = mask(&["###", "#..", "###"]).trace_polygons(0);
    assert_eq!(polygons.len(), 1);
    assert!(polygons[0].interiors().is_empty());
    assert_eq!(
        exterior(&polygons[0]),
        vec![(0, 0), (3, 0), (3, 1), (1, 1), (1, 2), (3, 2), (3, 3), (0, 3), (0, 0)]
    );
}

#[test]
fn hole_open_across_a_diagonal_is_no_hole() {
    let polygons = mask(&["##.", "#.#", "###"]).trace_polygons(0);
    assert_eq!(polygons.len(), 1);
    for polygon in &polygons {
        for hole in polygon.interiors() {
            assert!(hole.is_negative());
            assert!(polygon.exterior().contains(hole.points()[0]));
        }
    }
}

#[test]
fn wide_image_is_traced_row_by_row() {
    let polygons = mask(&["#.##.###.#"]).trace_polygons(0);
    let firsts: Vec<(u32, u32)> = polygons.iter().map(|p| exterior(p)[0]).collect();
    assert_eq!(firsts, vec![(0, 0), (2, 0), (5, 0), (9, 0)]);
    assert_eq!(exterior(&polygons[2]), vec![(5, 0), (8, 0), (8, 1), (5, 1), (5, 0)]);
}

#[test]
fn report_gives_the_polygons_and_what_was_left_out() {
    let (polygons, left_out) = annulus().trace_report(3);
    assert_eq!(left_out, 0);
    assert_eq!(polygons.len(), 1);
    assert_eq!(exterior(&polygons[0]), vec![(2, 2), (10, 2), (10, 10), (2, 10), (2, 2)]);
    assert_eq!(interiors(&polygons[0]), vec![vec![(5, 5), (5, 7), (7, 7), (7, 5), (5, 5)]]);
    assert_eq!(filled(8, 8, 0).trace_report(0).1, 0);
    assert!(filled(8, 8, 0).trace_report(0).0.is_empty());
}

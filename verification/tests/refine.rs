use geo::{Area, ChaikinSmoothing, Coord, LineString, Simplify};
use mimesis::mesh::Mesh2D;
use mimesis::{BinaryImage, Polygon, Ring};

fn line_string(ring: &Ring) -> LineString {
    LineString::from(
        ring.points().iter().map(|p| Coord { x: p.x as f64, y: p.y as f64 }).collect::<Vec<Coord>>(),
    )
}

fn to_geo(polygon: &Polygon) -> geo::Polygon {
    geo::Polygon::new(
        line_string(polygon.exterior()),
        polygon.interiors().iter().map(line_string).collect(),
    )
}

fn stairs() -> BinaryImage {
    let rows = [
        "#.......",
        "##......",
        "###.....",
        "####....",
        "#####...",
        "######..",
        "#######.",
        "########",
    ];
    let mut bytes = Vec::new();
    for row in rows {
        for c in row.chars() {
            bytes.push(if c == '#' { 1u8 } else { 0u8 });
        }
    }
    BinaryImage::from_raw(8, 8, &bytes).unwrap()
}

#[test]
fn traced_rings_convert_closed() {
    let polygons = stairs().trace_polygons(0);
    assert_eq!(polygons.len(), 1);
    let converted = to_geo(&polygons[0]);
    assert_eq!(converted.exterior().0.len(), polygons[0].exterior().len());
    assert!(converted.exterior().is_closed());
    assert_eq!(2.0 * converted.unsigned_area(), polygons[0].exterior().doubled_area() as f64);
}

#[test]
fn simplification_is_idempotent() {
    let polygons = stairs().trace_polygons(0);
    let traced = to_geo(&polygons[0]);
    for epsilon in [0.5, 1.0, 2.5] {
        let once = traced.simplify(&epsilon);
        let twice = once.simplify(&epsilon);
        assert_eq!(once, twice);
        assert_eq!(once.exterior().0.first(), once.exterior().0.last());
    }
}

#[test]
fn smoothing_keeps_rings_closed() {
    let polygons = stairs().trace_polygons(0);
    let traced = to_geo(&polygons[0]);
    let smooth = traced.chaikin_smoothing(2);
    assert!(smooth.exterior().is_closed());
    assert!(smooth.exterior().0.len() > traced.exterior().0.len());
}

#[test]
fn triangles_cover_the_polygon() {
    let mut bytes = vec![0u8; 144];
    for y in 2..10 {
        for x in 2..10 {
            if !((5..7).contains(&x) && (5..7).contains(&y)) {
                bytes[y * 12 + x] = 1;
            }
        }
    }
    let image = BinaryImage::from_raw(12, 12, &bytes).unwrap();
    let polygons = image.trace_polygons(0);
    let polygon = &polygons[0];
    let (vertices, holes) = polygon.mesh_input();
    let mut coords: Vec<f64> = Vec::new();
    for p in &vertices {
        coords.push(p.x as f64);
        coords.push(p.y as f64);
    }
    let indices = earcutr::earcut(&coords, &holes, 2).unwrap();
    let mesh = Mesh2D::new(vertices.len(), indices).unwrap();

    let mut doubled: i64 = 0;
    for triangle in mesh.get_indices().chunks(3) {
        let (a, b, c) = (vertices[triangle[0]], vertices[triangle[1]], vertices[triangle[2]]);
        let cross = (b.x as i64 - a.x as i64) * (c.y as i64 - a.y as i64)
            - (c.x as i64 - a.x as i64) * (b.y as i64 - a.y as i64);
        doubled += cross.abs();
    }
    let holes_area: u128 = polygon.interiors().iter().map(|ring| ring.doubled_area()).sum();
    assert_eq!(doubled as u128, polygon.exterior().doubled_area() - holes_area);
    assert_eq!(doubled, 2 * (64 - 4));
}

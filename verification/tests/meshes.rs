use mimesis::edges::boundary_edges;
use mimesis::mesh::{Layer, Mesh2D, Mesh3D, Texture, Vertex3};
use mimesis::triangulate::{hole_starts, ring_layout};
use mimesis::{BinaryImage, Error};

fn vertex(source: usize, layer: Layer, texture: Texture) -> Vertex3 {
    Vertex3 { source, layer, texture }
}

#[test]
fn boundary_of_one_triangle() {
    assert_eq!(boundary_edges(&vec![2, 0, 1]), vec![(0, 1), (0, 2), (1, 2)]);
}

#[test]
fn boundary_of_a_quad_leaves_out_the_diagonal() {
    assert_eq!(boundary_edges(&vec![0, 1, 2, 0, 2, 3]), vec![(0, 1), (0, 3), (1, 2), (2, 3)]);
    assert_eq!(boundary_edges(&vec![3, 2, 0, 2, 1, 0]), vec![(0, 1), (0, 3), (1, 2), (2, 3)]);
}

#[test]
fn boundary_of_nothing_is_empty() {
    assert!(boundary_edges(&vec![]).is_empty());
}

#[test]
fn boundary_leaves_out_an_edge_used_three_times() {
    // Three triangles around the edge (0, 1).
    let edges = boundary_edges(&vec![0, 1, 2, 0, 1, 3, 0, 1, 4]);
    assert_eq!(edges, vec![(0, 2), (0, 3), (0, 4), (1, 2), (1, 3), (1, 4)]);
}

#[test]
fn boundary_of_a_degenerate_triangle() {
    // The side from a vertex to itself is an edge too; the side (0, 1)
    // occurs twice.
    assert_eq!(boundary_edges(&vec![0, 0, 1]), vec![(0, 0)]);
}

#[test]
fn boundary_of_a_ring_of_triangles_has_two_loops() {
    // A square frame: outer corners 0..4, inner corners 4..8.
    let indices = vec![
        0, 1, 5, 0, 5, 4, 1, 2, 6, 1, 6, 5, 2, 3, 7, 2, 7, 6, 3, 0, 4, 3, 4, 7,
    ];
    let edges = boundary_edges(&indices);
    assert_eq!(
        edges,
        vec![(0, 1), (0, 3), (1, 2), (2, 3), (4, 5), (4, 7), (5, 6), (6, 7)]
    );
    // Every vertex has two boundary edges, so the edges close into loops.
    for v in 0..8 {
        assert_eq!(edges.iter().filter(|e| e.0 == v || e.1 == v).count(), 2);
    }
}

#[test]
fn mesh_refuses_a_broken_triangle_list() {
    assert!(matches!(Mesh2D::new(3, vec![0, 1]), Err(Error::TriangulationFailed)));
    assert!(matches!(Mesh2D::new(3, vec![0, 1, 3]), Err(Error::TriangulationFailed)));
    assert!(matches!(Mesh2D::new(0, vec![0, 0, 0]), Err(Error::TriangulationFailed)));
    assert!(matches!(Mesh2D::new(3, vec![0, 0, 1]), Err(Error::TriangulationFailed)));
    assert!(matches!(Mesh2D::new(3, vec![0, 1, 1]), Err(Error::TriangulationFailed)));
    assert!(matches!(Mesh2D::new(3, vec![2, 1, 2]), Err(Error::TriangulationFailed)));
    assert!(matches!(Mesh2D::new(4, vec![0, 1, 2, 3, 3, 3]), Err(Error::TriangulationFailed)));
    assert!(Mesh2D::new(3, vec![0, 1, 2]).is_ok());
    assert!(Mesh2D::new(0, vec![]).is_ok());
}

#[test]
fn mesh_keeps_its_triangles() {
    let mesh = Mesh2D::new(4, vec![0, 1, 2, 0, 2, 3]).unwrap();
    assert_eq!(mesh.vertex_count(), 4);
    assert_eq!(mesh.get_indices(), &vec![0, 1, 2, 0, 2, 3]);
}

#[test]
fn empty_prism() {
    let mesh = Mesh3D::new();
    assert!(mesh.get_vertices().is_empty());
    assert!(mesh.get_faces().is_empty());
    assert!(mesh.get_boundary().is_empty());
}

#[test]
fn prism_over_one_triangle() {
    let prism = Mesh2D::new(3, vec![0, 1, 2]).unwrap().extrude();
    assert_eq!(prism.get_boundary(), &vec![(0, 1), (0, 2), (1, 2)]);
    let expected = vec![
        vertex(0, Layer::Base, Texture::Image),
        vertex(1, Layer::Base, Texture::Image),
        vertex(2, Layer::Base, Texture::Image),
        vertex(0, Layer::Raised, Texture::Image),
        vertex(1, Layer::Raised, Texture::Image),
        vertex(2, Layer::Raised, Texture::Image),
        vertex(0, Layer::Base, Texture::SideStart(0)),
        vertex(1, Layer::Base, Texture::SideEnd(0)),
        vertex(1, Layer::Raised, Texture::SideEnd(0)),
        vertex(0, Layer::Raised, Texture::SideStart(0)),
        vertex(0, Layer::Base, Texture::SideStart(1)),
        vertex(2, Layer::Base, Texture::SideEnd(1)),
        vertex(2, Layer::Raised, Texture::SideEnd(1)),
        vertex(0, Layer::Raised, Texture::SideStart(1)),
        vertex(1, Layer::Base, Texture::SideStart(2)),
        vertex(2, Layer::Base, Texture::SideEnd(2)),
        vertex(2, Layer::Raised, Texture::SideEnd(2)),
        vertex(1, Layer::Raised, Texture::SideStart(2)),
    ];
    assert_eq!(prism.get_vertices(), &expected);
    let faces = prism.get_faces();
    assert_eq!(faces.len(), 3);
    assert_eq!(faces[0].name, "front");
    assert_eq!(faces[0].indices, vec![[5, 4, 3]]);
    assert_eq!(faces[1].name, "back");
    assert_eq!(faces[1].indices, vec![[0, 1, 2]]);
    assert_eq!(faces[2].name, "side");
    assert_eq!(
        faces[2].indices,
        vec![[6, 7, 8], [6, 8, 9], [10, 11, 12], [10, 12, 13], [14, 15, 16], [14, 16, 17]]
    );
}

#[test]
fn prism_counts_follow_the_flat_mesh() {
    let flat = Mesh2D::new(8, vec![
        0, 1, 5, 0, 5, 4, 1, 2, 6, 1, 6, 5, 2, 3, 7, 2, 7, 6, 3, 0, 4, 3, 4, 7,
    ])
    .unwrap();
    let prism = flat.extrude();
    let boundary = prism.get_boundary().len();
    assert_eq!(boundary, 8);
    let faces = prism.get_faces();
    assert_eq!(faces[0].indices.len(), flat.get_indices().len() / 3);
    assert_eq!(faces[1].indices.len(), flat.get_indices().len() / 3);
    assert_eq!(faces[2].indices.len(), 2 * boundary);
    assert_eq!(prism.get_vertices().len(), 2 * flat.vertex_count() + 4 * boundary);
    for group in faces {
        for triangle in &group.indices {
            for &index in triangle {
                assert!(index < prism.get_vertices().len());
            }
        }
    }
}

#[test]
fn side_walls_lie_on_both_layers() {
    let prism = Mesh2D::new(4, vec![0, 1, 2, 0, 2, 3]).unwrap().extrude();
    let vertices = prism.get_vertices();
    for (k, edge) in prism.get_boundary().iter().enumerate() {
        let quad = &vertices[8 + 4 * k..8 + 4 * k + 4];
        assert_eq!(quad[0], vertex(edge.0, Layer::Base, Texture::SideStart(k)));
        assert_eq!(quad[1], vertex(edge.1, Layer::Base, Texture::SideEnd(k)));
        assert_eq!(quad[2], vertex(edge.1, Layer::Raised, Texture::SideEnd(k)));
        assert_eq!(quad[3], vertex(edge.0, Layer::Raised, Texture::SideStart(k)));
    }
}

#[test]
fn prism_over_nothing() {
    let prism = Mesh2D::new(0, vec![]).unwrap().extrude();
    assert!(prism.get_vertices().is_empty());
    assert_eq!(prism.get_faces().len(), 3);
    assert!(prism.get_faces().iter().all(|group| group.indices.is_empty()));
}

#[test]
fn hole_starts_count_open_rings() {
    assert_eq!(hole_starts(&vec![5]).unwrap(), Vec::<usize>::new());
    assert_eq!(hole_starts(&vec![5, 5, 4]).unwrap(), vec![4, 8]);
    assert_eq!(hole_starts(&vec![9, 4, 7, 5]).unwrap(), vec![8, 11, 17]);
}

#[test]
fn hole_starts_need_rings() {
    assert!(matches!(hole_starts(&vec![]), Err(Error::NotEnoughPoints)));
    assert!(matches!(hole_starts(&vec![3]), Err(Error::NotEnoughPoints)));
    assert!(matches!(hole_starts(&vec![5, 2]), Err(Error::NotEnoughPoints)));
}

#[test]
fn hole_starts_must_be_addressable() {
    assert!(matches!(
        hole_starts(&vec![usize::MAX, usize::MAX, 4]),
        Err(Error::TriangulationFailed)
    ));
    // The last ring starts inside the list, wherever it ends.
    assert_eq!(hole_starts(&vec![5, usize::MAX]).unwrap(), vec![4]);
}

#[test]
fn layout_names_every_point_but_the_closing_ones() {
    let (sources, holes) = ring_layout(&vec![5, 4]).unwrap();
    assert_eq!(sources, vec![(0, 0), (0, 1), (0, 2), (0, 3), (1, 0), (1, 1), (1, 2)]);
    assert_eq!(holes, vec![4]);
    let (sources, holes) = ring_layout(&vec![4]).unwrap();
    assert_eq!(sources, vec![(0, 0), (0, 1), (0, 2)]);
    assert!(holes.is_empty());
    assert!(matches!(ring_layout(&vec![]), Err(Error::NotEnoughPoints)));
    assert!(matches!(ring_layout(&vec![5, 3]), Err(Error::NotEnoughPoints)));
    assert!(matches!(
        ring_layout(&vec![usize::MAX, usize::MAX, 4]),
        Err(Error::TriangulationFailed)
    ));
}

#[test]
fn layout_and_vertex_list_agree() {
    let mut bytes = vec![0u8; 144];
    for y in 2..10 {
        for x in 2..10 {
            if !((5..7).contains(&x) && (5..7).contains(&y)) {
                bytes[y * 12 + x] = 1;
            }
        }
    }
    let image = BinaryImage::from_raw(12, 12, &bytes).unwrap();
    let polygons = image.trace_polygons(0);
    let polygon = &polygons[0];
    let mut rings = vec![polygon.exterior()];
    rings.extend(polygon.interiors().iter());
    let sizes: Vec<usize> = rings.iter().map(|ring| ring.len()).collect();
    let (sources, starts) = ring_layout(&sizes).unwrap();
    let (vertices, holes) = polygon.mesh_input();
    assert_eq!(starts, holes);
    assert_eq!(sources.len(), vertices.len());
    for (k, (ring, place)) in sources.iter().enumerate() {
        assert_eq!(vertices[k], rings[*ring].points()[*place]);
    }
}

fn triangulate(image: &BinaryImage) -> Vec<Mesh2D> {
    let mut meshes = Vec::new();
    for polygon in image.trace_polygons(0) {
        let (vertices, holes) = polygon.mesh_input();
        let mut coords: Vec<f64> = Vec::new();
        for p in &vertices {
            coords.push(p.x as f64);
            coords.push(p.y as f64);
        }
        let indices = earcutr::earcut(&coords, &holes, 2).unwrap();
        meshes.push(Mesh2D::new(vertices.len(), indices).unwrap());
    }
    meshes
}

#[test]
fn all_foreground_square_becomes_a_slab() {
    let image = BinaryImage::from_raw(4, 4, &[255u8; 16]).unwrap();
    let meshes = triangulate(&image);
    assert_eq!(meshes.len(), 1);
    assert_eq!(meshes[0].vertex_count(), 4);
    assert_eq!(meshes[0].get_indices().len() / 3, 2);
    let prism = meshes[0].extrude();
    assert_eq!(prism.get_boundary().len(), 4);
    assert_eq!(prism.get_vertices().len(), 8 + 16);
    let faces = prism.get_faces();
    assert_eq!(faces[0].indices.len(), 2);
    assert_eq!(faces[1].indices.len(), 2);
    assert_eq!(faces[2].indices.len(), 8);
    assert_eq!(faces.iter().map(|group| group.indices.len()).sum::<usize>(), 12);
}

#[test]
fn annulus_boundary_has_two_loops() {
    let mut bytes = vec![0u8; 144];
    for y in 2..10 {
        for x in 2..10 {
            if !((5..7).contains(&x) && (5..7).contains(&y)) {
                bytes[y * 12 + x] = 1;
            }
        }
    }
    let image = BinaryImage::from_raw(12, 12, &bytes).unwrap();
    let meshes = triangulate(&image);
    assert_eq!(meshes.len(), 1);
    assert_eq!(meshes[0].vertex_count(), 8);
    let prism = meshes[0].extrude();
    let edges = prism.get_boundary();
    assert_eq!(edges.len(), 8);
    // Follow the boundary edges from vertex to vertex and count the loops.
    let mut seen = vec![false; edges.len()];
    let mut loops = 0;
    for start in 0..edges.len() {
        if seen[start] {
            continue;
        }
        loops += 1;
        seen[start] = true;
        let mut at = edges[start].1;
        while at != edges[start].0 {
            let next = (0..edges.len())
                .find(|&k| !seen[k] && (edges[k].0 == at || edges[k].1 == at))
                .unwrap();
            seen[next] = true;
            at = if edges[next].0 == at { edges[next].1 } else { edges[next].0 };
        }
    }
    assert_eq!(loops, 2);
}

#[test]
fn two_squares_make_two_prisms() {
    let mut bytes = vec![0u8; 50];
    for (x, y) in [(1, 1), (2, 1), (1, 2), (2, 2), (6, 2), (7, 2), (8, 2), (6, 3), (7, 3), (8, 3)] {
        bytes[y * 10 + x] = 1;
    }
    let image = BinaryImage::from_raw(10, 5, &bytes).unwrap();
    let meshes = triangulate(&image);
    assert_eq!(meshes.len(), 2);
    for mesh in &meshes {
        let prism = mesh.extrude();
        assert_eq!(prism.get_vertices().len(), 24);
        assert!(prism.obj_faces().starts_with("usemtl front\ng front\nf "));
    }
}

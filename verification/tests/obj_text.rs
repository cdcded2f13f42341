use mimesis::mesh::Mesh2D;
use mimesis::obj::{export_mtl, obj_header};

#[test]
fn header_names_the_material_file() {
    assert_eq!(obj_header("tree_0.mtl"), "mtllib tree_0.mtl\no Mesh3D\n");
}

#[test]
fn material_file_has_three_materials() {
    let text = export_mtl("tree.png", "back.png", "side.png");
    let expected = "newmtl front\n\
Ka 1.0 1.0 1.0\n\
Kd 1.0 1.0 1.0\n\
Ks 0.0 0.0 0.0\n\
d 1.0\n\
Ns 10.0\n\
illum 2\n\
map_Kd textures/tree.png\n\
\n\
newmtl back\n\
Ka 1.0 1.0 1.0\n\
Kd 1.0 1.0 1.0\n\
Ks 0.0 0.0 0.0\n\
d 1.0\n\
Ns 10.0\n\
illum 2\n\
map_Kd textures/back.png\n\
\n\
newmtl side\n\
Ka 1.0 1.0 1.0\n\
Kd 1.0 1.0 1.0\n\
Ks 0.0 0.0 0.0\n\
d 1.0\n\
Ns 10.0\n\
illum 2\n\
map_Kd textures/side.png\n";
    assert_eq!(text, expected);
}

#[test]
fn faces_count_from_one() {
    let prism = Mesh2D::new(3, vec![0, 1, 2]).unwrap().extrude();
    let expected = "usemtl front\n\
g front\n\
f 6/6 5/5 4/4\n\
usemtl back\n\
g back\n\
f 1/1 2/2 3/3\n\
usemtl side\n\
g side\n\
f 7/7 8/8 9/9\n\
f 7/7 9/9 10/10\n\
f 11/11 12/12 13/13\n\
f 11/11 13/13 14/14\n\
f 15/15 16/16 17/17\n\
f 15/15 17/17 18/18\n";
    assert_eq!(prism.obj_faces(), expected);
}

#[test]
fn flat_faces_count_from_one() {
    let mesh = Mesh2D::new(120, vec![0, 9, 10, 99, 100, 119]).unwrap();
    assert_eq!(mesh.obj_faces(), "f 1 10 11\nf 100 101 120\n");
    assert_eq!(Mesh2D::new(0, vec![]).unwrap().obj_faces(), "");
}

#[test]
fn mesh_file_reads_back_with_the_same_counts() {
    let flat = Mesh2D::new(4, vec![0, 1, 2, 0, 2, 3]).unwrap();
    let prism = flat.extrude();
    let mut text = obj_header("square.mtl");
    for _ in prism.get_vertices() {
        text.push_str("v 0 0 0\n");
    }
    for _ in prism.get_vertices() {
        text.push_str("vt 0 0\n");
    }
    text.push_str(&prism.obj_faces());

    let mut vertices = 0;
    let mut coordinates = 0;
    let mut faces = 0;
    let mut groups = Vec::new();
    for line in text.lines() {
        let mut words = line.split(' ');
        match words.next() {
            Some("v") => vertices += 1,
            Some("vt") => coordinates += 1,
            Some("g") => groups.push(words.next().unwrap().to_string()),
            Some("f") => {
                faces += 1;
                let corners: Vec<&str> = words.collect();
                assert_eq!(corners.len(), 3);
                for corner in corners {
                    let mut parts = corner.split('/');
                    let v: usize = parts.next().unwrap().parse().unwrap();
                    let vt: usize = parts.next().unwrap().parse().unwrap();
                    assert_eq!(v, vt);
                    assert!(1 <= v && v <= prism.get_vertices().len());
                }
            },
            _ => {},
        }
    }
    assert_eq!(vertices, prism.get_vertices().len());
    assert_eq!(coordinates, prism.get_vertices().len());
    assert_eq!(faces, prism.get_faces().iter().map(|g| g.indices.len()).sum::<usize>());
    assert_eq!(groups, vec!["front", "back", "side"]);
}

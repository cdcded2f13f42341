//! Triangle meshes: the flat mesh of a polygon and the prism extruded from it.
//!
//! The library decides the structure of a mesh: which vertices there are,
//! where each comes from, and which triangles join them. Coordinates are real
//! numbers and are filled in by the caller: every vertex of a prism names the
//! vertex of the flat mesh that it copies, the layer it lies on and the rule
//! that gives its texture coordinate.
use crate::edges::{boundary_edges, is_boundary, Edge};
use crate::error::Error;
use vstd::prelude::*;

verus! {

/// The triangles of one face of a prism, under the name of its material.
#[derive(Debug)]
pub struct MeshGroup {
    pub indices: Vec<[usize; 3]>,
    pub name: &'static str,
}

/// The layer of a prism that a vertex lies on.
#[derive(Clone, Copy, Debug, PartialEq, Eq, Structural)]
pub enum Layer {
    /// The plane `z = 0`.
    Base,
    /// The plane `z = depth`.
    Raised,
}

/// The rule that gives the texture coordinate `(u, v)` of a vertex.
#[derive(Clone, Copy, Debug, PartialEq, Eq, Structural)]
pub enum Texture {
    /// The image laid over the silhouette: `u = x / image_width` and
    /// `v = -y / image_height`.
    Image,
    /// The side wall at the start of boundary edge `k`: `u` is the length of
    /// the boundary edges before `k` over the length of all of them; `v` is
    /// 0 on the base layer and -1 on the raised layer.
    SideStart(usize),
    /// The side wall at the end of boundary edge `k`: `u` is the length of
    /// the boundary edges up to and with `k` over the length of all of them;
    /// `v` is 0 on the base layer and -1 on the raised layer.
    SideEnd(usize),
}

/// A vertex of a prism: the flat vertex `(x, y)` that it copies to
/// `(x, -y, z)`, with `z` given by its layer, and its texture rule.
#[derive(Clone, Copy, Debug, PartialEq, Eq, Structural)]
pub struct Vertex3 {
    pub source: usize,
    pub layer: Layer,
    pub texture: Texture,
}

/// Whether triangle `t` of a triangle list has three different corners.
pub open spec fn has_distinct_corners(indices: Seq<usize>, t: int) -> bool {
    &&& indices[3 * t] != indices[3 * t + 1]
    &&& indices[3 * t + 1] != indices[3 * t + 2]
    &&& indices[3 * t] != indices[3 * t + 2]
}

/// Whether a triangle list fits a mesh of `vertex_count` vertices: whole
/// triangles only, every index that of a vertex, and the three corners of
/// every triangle different vertices.
pub open spec fn is_triangle_list(indices: Seq<usize>, vertex_count: int) -> bool {
    &&& indices.len() % 3 == 0
    &&& forall|i: int| 0 <= i < indices.len() ==> #[trigger] indices[i] < vertex_count
    &&& forall|t: int| 0 <= t < indices.len() / 3 ==> #[trigger] has_distinct_corners(indices, t)
}

/// The triangles of a polygon: the number of its vertices and three vertex
/// indices for each triangle.
#[derive(Debug)]
pub struct Mesh2D {
    vertex_count: usize,
    indices: Vec<usize>,
}

/// Vertex `i` of the prism over a flat mesh of `n` vertices with the given
/// boundary: first the `n` flat vertices on the base layer, then the same on
/// the raised layer, then four for the side wall of each boundary edge: its
/// start and its end on the base layer, its end and its start on the raised
/// layer.
pub open spec fn prism_vertex(n: int, boundary: Seq<Edge>, i: int) -> Vertex3 {
    if i < n {
        Vertex3 { source: i as usize, layer: Layer::Base, texture: Texture::Image }
    } else if i < 2 * n {
        Vertex3 { source: (i - n) as usize, layer: Layer::Raised, texture: Texture::Image }
    } else {
        let k = (i - 2 * n) / 4;
        let corner = (i - 2 * n) % 4;
        let edge = boundary[k];
        if corner == 0 {
            Vertex3 { source: edge.0, layer: Layer::Base, texture: Texture::SideStart(k as usize) }
        } else if corner == 1 {
            Vertex3 { source: edge.1, layer: Layer::Base, texture: Texture::SideEnd(k as usize) }
        } else if corner == 2 {
            Vertex3 { source: edge.1, layer: Layer::Raised, texture: Texture::SideEnd(k as usize) }
        } else {
            Vertex3 {
                source: edge.0,
                layer: Layer::Raised,
                texture: Texture::SideStart(k as usize),
            }
        }
    }
}

/// The vertices of the prism over a flat mesh of `n` vertices.
pub open spec fn prism_vertices(n: int, boundary: Seq<Edge>) -> Seq<Vertex3> {
    Seq::new((2 * n + 4 * boundary.len()) as nat, |i: int| prism_vertex(n, boundary, i))
}

/// Triangle `t` of the front face: flat triangle `t` on the raised layer,
/// its corners in reverse.
pub open spec fn front_triangle(indices: Seq<usize>, n: int, t: int) -> Seq<usize> {
    seq![
        (indices[3 * t + 2] + n) as usize,
        (indices[3 * t + 1] + n) as usize,
        (indices[3 * t] + n) as usize,
    ]
}

/// Triangle `t` of the back face: flat triangle `t` on the base layer.
pub open spec fn back_triangle(indices: Seq<usize>, t: int) -> Seq<usize> {
    seq![indices[3 * t], indices[3 * t + 1], indices[3 * t + 2]]
}

/// Triangle `t` of the side face: each boundary edge gives a quad of four
/// vertices of its own, cut into two triangles along its diagonal.
pub open spec fn side_triangle(n: int, t: int) -> Seq<usize> {
    let base = 2 * n + 4 * (t / 2);
    if t % 2 == 0 {
        seq![base as usize, (base + 1) as usize, (base + 2) as usize]
    } else {
        seq![base as usize, (base + 2) as usize, (base + 3) as usize]
    }
}

/// The front face of a prism lies on the raised layer and the back face on
/// the base layer, both under the image; every side triangle joins vertices
/// of the side wall of one boundary edge, which stand over the two ends of
/// that edge.
pub proof fn lemma_prism_layers(indices: Seq<usize>, n: int, boundary: Seq<Edge>, t: int, c: int)
    requires
        0 <= n,
        is_triangle_list(indices, n),
        0 <= c < 3,
    ensures
        0 <= t < indices.len() / 3 ==> {
            let front = prism_vertex(n, boundary, front_triangle(indices, n, t)[c] as int);
            let back = prism_vertex(n, boundary, back_triangle(indices, t)[c] as int);
            &&& 2 * n <= usize::MAX ==> front.layer == Layer::Raised && front.texture
                == Texture::Image && front.source == indices[3 * t + 2 - c]
            &&& back.layer == Layer::Base && back.texture == Texture::Image && back.source
                == indices[3 * t + c]
        },
        0 <= t < 2 * boundary.len() && 2 * n + 4 * boundary.len() <= usize::MAX ==> {
            let side = prism_vertex(n, boundary, side_triangle(n, t)[c] as int);
            let edge = boundary[t / 2];
            &&& side.texture == Texture::SideStart((t / 2) as usize) || side.texture
                == Texture::SideEnd((t / 2) as usize)
            &&& side.texture is SideStart ==> side.source == edge.0
            &&& side.texture is SideEnd ==> side.source == edge.1
        },
{
    if 0 <= t < indices.len() / 3 {
        assert(indices[3 * t] < n && indices[3 * t + 1] < n && indices[3 * t + 2] < n);
    }
    if 0 <= t < 2 * boundary.len() && 2 * n + 4 * boundary.len() <= usize::MAX {
        let k = t / 2;
        let base = 2 * n + 4 * k;
        let at = side_triangle(n, t)[c] as int;
        assert(0 <= k < boundary.len());
        assert(base <= at <= base + 3);
        assert((at - 2 * n) / 4 == k);
    }
}

/// The triangles of a face group as sequences.
pub open spec fn triangles_of(group: MeshGroup) -> Seq<Seq<usize>> {
    Seq::new(group.indices@.len(), |t: int| group.indices@[t]@)
}

/// The prism over a flat mesh: its vertices with their provenance, its
/// faces in the groups `front`, `back` and `side`, and the boundary edges
/// that its side walls stand on.
#[derive(Debug)]
pub struct Mesh3D {
    vertices: Vec<Vertex3>,
    faces: Vec<MeshGroup>,
    boundary: Vec<Edge>,
}

/// Whether every triangle of every group joins vertices of the mesh.
pub open spec fn faces_in_range(faces: Seq<MeshGroup>, vertex_count: int) -> bool {
    forall|g: int, t: int, c: int|
        0 <= g < faces.len() && 0 <= t < faces[g].indices@.len() && 0 <= c < 3
            ==> #[trigger] faces[g].indices@[t]@[c] < vertex_count
}

impl Mesh3D {
    #[verifier::type_invariant]
    spec fn well_formed(self) -> bool {
        faces_in_range(self.faces@, self.vertices@.len() as int)
    }

    /// The vertices.
    pub closed spec fn spec_vertices(&self) -> Seq<Vertex3> {
        self.vertices@
    }

    /// The face groups.
    pub closed spec fn spec_faces(&self) -> Seq<MeshGroup> {
        self.faces@
    }

    /// The boundary edges under the side walls.
    pub closed spec fn spec_boundary(&self) -> Seq<Edge> {
        self.boundary@
    }

    /// A mesh without vertices or faces.
    pub fn new() -> (mesh: Mesh3D)
        ensures
            mesh.spec_vertices().len() == 0,
            mesh.spec_faces().len() == 0,
            mesh.spec_boundary().len() == 0,
    {
        Mesh3D { vertices: Vec::new(), faces: Vec::new(), boundary: Vec::new() }
    }

    /// The vertices, each with the flat vertex it copies, its layer and its
    /// texture rule.
    pub fn get_vertices(&self) -> (vertices: &Vec<Vertex3>)
        ensures
            vertices@ == self.spec_vertices(),
    {
        &self.vertices
    }

    /// The face groups. Every triangle joins vertices of this mesh.
    pub fn get_faces(&self) -> (faces: &Vec<MeshGroup>)
        ensures
            faces@ == self.spec_faces(),
            faces_in_range(faces@, self.spec_vertices().len() as int),
    {
        proof {
            use_type_invariant(self);
        }
        &self.faces
    }

    /// The boundary edges of the flat mesh, in the order of the side walls.
    pub fn get_boundary(&self) -> (boundary: &Vec<Edge>)
        ensures
            boundary@ == self.spec_boundary(),
    {
        &self.boundary
    }
}

impl Mesh2D {
    #[verifier::type_invariant]
    spec fn well_formed(self) -> bool {
        is_triangle_list(self.indices@, self.vertex_count as int)
    }

    /// The number of vertices.
    pub closed spec fn spec_vertex_count(&self) -> usize {
        self.vertex_count
    }

    /// The triangle list.
    pub closed spec fn spec_indices(&self) -> Seq<usize> {
        self.indices@
    }

    /// Takes the triangle list of a triangulation over `vertex_count`
    /// vertices. A list that is no whole number of triangles, that names a
    /// vertex that does not exist, or that holds a triangle with a corner
    /// repeated, is refused.
    pub fn new(vertex_count: usize, indices: Vec<usize>) -> (res: Result<Mesh2D, Error>)
        ensures
            res is Ok <==> is_triangle_list(indices@, vertex_count as int),
            res matches Ok(mesh) ==> mesh.spec_vertex_count() == vertex_count && mesh.spec_indices()
                == indices@,
            res matches Err(e) ==> e is TriangulationFailed,
    {
        if indices.len() % 3 != 0 {
            return Err(Error::TriangulationFailed);
        }
        let mut i: usize = 0;
        while i < indices.len()
            invariant
                i <= indices@.len(),
                forall|k: int| 0 <= k < i ==> #[trigger] indices@[k] < vertex_count,
            decreases indices@.len() - i,
        {
            if indices[i] >= vertex_count {
                return Err(Error::TriangulationFailed);
            }
            i += 1;
        }
        let mut t: usize = 0;
        while t < indices.len() / 3
            invariant
                indices@.len() % 3 == 0,
                t <= indices@.len() / 3,
                forall|k: int| 0 <= k < t ==> #[trigger] has_distinct_corners(indices@, k),
            decreases indices@.len() / 3 - t,
        {
            let a = indices[3 * t];
            let b = indices[3 * t + 1];
            let c = indices[3 * t + 2];
            if a == b || b == c || a == c {
                assert(!has_distinct_corners(indices@, t as int));
                return Err(Error::TriangulationFailed);
            }
            t += 1;
        }
        Ok(Mesh2D { vertex_count, indices })
    }

    /// The number of vertices.
    pub fn vertex_count(&self) -> (n: usize)
        ensures
            n == self.spec_vertex_count(),
    {
        self.vertex_count
    }

    /// The triangle list: three vertex indices for each triangle.
    pub fn get_indices(&self) -> (indices: &Vec<usize>)
        ensures
            indices@ == self.spec_indices(),
            is_triangle_list(indices@, self.spec_vertex_count() as int),
    {
        proof {
            use_type_invariant(self);
        }
        &self.indices
    }

    /// Extrudes the flat mesh into a prism.
    ///
    /// With `n` flat vertices, the prism has the `n` vertices on the base
    /// layer, the same `n` on the raised layer and four more for each
    /// boundary edge. The `front` group holds every flat triangle on the
    /// raised layer with its corners in reverse, the `back` group every flat
    /// triangle on the base layer, the `side` group two triangles for each
    /// boundary edge, in the order of the edges.
    ///
    /// The prism over the flat vertices must be addressable.
    pub fn extrude(&self) -> (mesh: Mesh3D)
        requires
            2 * self.spec_vertex_count() + 4 * self.spec_indices().len() <= usize::MAX,
        ensures
            is_boundary(self.spec_indices(), mesh.spec_boundary()),
            mesh.spec_boundary().len() <= self.spec_indices().len(),
            mesh.spec_vertices() == prism_vertices(
                self.spec_vertex_count() as int,
                mesh.spec_boundary(),
            ),
            mesh.spec_vertices().len() == 2 * self.spec_vertex_count() + 4
                * mesh.spec_boundary().len(),
            mesh.spec_faces().len() == 3,
            mesh.spec_faces()[0].indices@.len() == self.spec_indices().len() / 3,
            mesh.spec_faces()[1].indices@.len() == self.spec_indices().len() / 3,
            mesh.spec_faces()[2].indices@.len() == 2 * mesh.spec_boundary().len(),
            mesh.spec_faces()[0].name@ == "front"@,
            mesh.spec_faces()[1].name@ == "back"@,
            mesh.spec_faces()[2].name@ == "side"@,
            triangles_of(mesh.spec_faces()[0]) == Seq::new(
                self.spec_indices().len() / 3,
                |t: int| front_triangle(self.spec_indices(), self.spec_vertex_count() as int, t),
            ),
            triangles_of(mesh.spec_faces()[1]) == Seq::new(
                self.spec_indices().len() / 3,
                |t: int| back_triangle(self.spec_indices(), t),
            ),
            triangles_of(mesh.spec_faces()[2]) == Seq::new(
                2 * mesh.spec_boundary().len(),
                |t: int| side_triangle(self.spec_vertex_count() as int, t),
            ),
    {
        proof {
            use_type_invariant(self);
        }
        let n = self.vertex_count;
        let count = self.indices.len();
        let boundary = boundary_edges(&self.indices);
        let mut vertices: Vec<Vertex3> = Vec::new();
        let mut i: usize = 0;
        while i < n
            invariant
                i <= n,
                vertices@.len() == i,
                forall|k: int| 0 <= k < i ==> vertices@[k] == prism_vertex(n as int, boundary@, k),
            decreases n - i,
        {
            vertices.push(Vertex3 { source: i, layer: Layer::Base, texture: Texture::Image });
            i += 1;
        }
        let mut i: usize = 0;
        while i < n
            invariant
                i <= n,
                2 * n <= usize::MAX,
                vertices@.len() == n + i,
                forall|k: int|
                    0 <= k < n + i ==> vertices@[k] == prism_vertex(n as int, boundary@, k),
            decreases n - i,
        {
            vertices.push(Vertex3 { source: i, layer: Layer::Raised, texture: Texture::Image });
            i += 1;
        }
        let mut front: Vec<[usize; 3]> = Vec::new();
        let mut back: Vec<[usize; 3]> = Vec::new();
        let mut t: usize = 0;
        while t < count / 3
            invariant
                count == self.indices@.len(),
                n == self.vertex_count,
                2 * n <= usize::MAX,
                is_triangle_list(self.indices@, n as int),
                t <= count / 3,
                front@.len() == t,
                back@.len() == t,
                forall|k: int|
                    0 <= k < t ==> (#[trigger] front@[k])@ == front_triangle(
                        self.indices@,
                        n as int,
                        k,
                    ),
                forall|k: int|
                    0 <= k < t ==> (#[trigger] back@[k])@ == back_triangle(self.indices@, k),
                forall|k: int, c: int|
                    0 <= k < t && 0 <= c < 3 ==> (#[trigger] front@[k]@[c]) < 2 * n,
                forall|k: int, c: int| 0 <= k < t && 0 <= c < 3 ==> (#[trigger] back@[k]@[c]) < n,
            decreases count / 3 - t,
        {
            let i0 = self.indices[3 * t];
            let i1 = self.indices[3 * t + 1];
            let i2 = self.indices[3 * t + 2];
            let forward: [usize; 3] = [i2 + n, i1 + n, i0 + n];
            let backward: [usize; 3] = [i0, i1, i2];
            assert(forward@ =~= front_triangle(self.indices@, n as int, t as int));
            assert(backward@ =~= back_triangle(self.indices@, t as int));
            front.push(forward);
            back.push(backward);
            t += 1;
        }
        let mut side: Vec<[usize; 3]> = Vec::new();
        let mut k: usize = 0;
        while k < boundary.len()
            invariant
                k <= boundary@.len(),
                2 * n + 4 * boundary@.len() <= usize::MAX,
                vertices@.len() == 2 * n + 4 * k,
                side@.len() == 2 * k,
                forall|i: int|
                    0 <= i < 2 * n + 4 * k ==> vertices@[i] == prism_vertex(n as int, boundary@, i),
                forall|i: int|
                    0 <= i < 2 * k ==> (#[trigger] side@[i])@ == side_triangle(n as int, i),
                forall|i: int, c: int|
                    0 <= i < 2 * k && 0 <= c < 3 ==> (#[trigger] side@[i]@[c]) < 2 * n + 4 * k,
            decreases boundary@.len() - k,
        {
            let edge = boundary[k];
            let base = vertices.len();
            vertices.push(
                Vertex3 { source: edge.0, layer: Layer::Base, texture: Texture::SideStart(k) },
            );
            vertices.push(
                Vertex3 { source: edge.1, layer: Layer::Base, texture: Texture::SideEnd(k) },
            );
            vertices.push(
                Vertex3 { source: edge.1, layer: Layer::Raised, texture: Texture::SideEnd(k) },
            );
            vertices.push(
                Vertex3 { source: edge.0, layer: Layer::Raised, texture: Texture::SideStart(k) },
            );
            let lower: [usize; 3] = [base, base + 1, base + 2];
            let upper: [usize; 3] = [base, base + 2, base + 3];
            assert(lower@ =~= side_triangle(n as int, 2 * k));
            assert(upper@ =~= side_triangle(n as int, 2 * k + 1));
            side.push(lower);
            side.push(upper);
            k += 1;
        }
        let mut faces: Vec<MeshGroup> = Vec::new();
        faces.push(MeshGroup { indices: front, name: "front" });
        faces.push(MeshGroup { indices: back, name: "back" });
        faces.push(MeshGroup { indices: side, name: "side" });
        assert(vertices@ =~= prism_vertices(n as int, boundary@));
        assert(triangles_of(faces@[0]) =~= Seq::new(
            self.indices@.len() / 3,
            |t: int| front_triangle(self.indices@, n as int, t),
        ));
        assert(triangles_of(faces@[1]) =~= Seq::new(
            self.indices@.len() / 3,
            |t: int| back_triangle(self.indices@, t),
        ));
        assert(triangles_of(faces@[2]) =~= Seq::new(
            2 * boundary@.len(),
            |t: int| side_triangle(n as int, t),
        ));
        Mesh3D { vertices, faces, boundary }
    }
}

} // verus!

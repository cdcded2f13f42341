//! The text of Wavefront OBJ and MTL files.
//!
//! A mesh file names its material file, lists its vertices and texture
//! coordinates and then, for each face group, the triangles of the group
//! with indices counted from one. The vertex and texture lines hold real
//! numbers and are written by the caller between the header and the faces.
use crate::mesh::{faces_in_range, is_triangle_list, Mesh2D, Mesh3D, MeshGroup};
use vstd::prelude::*;
use vstd::string::*;

verus! {

/// The decimal digit of a number below ten.
pub open spec fn digit(d: int) -> char {
    if d == 0 {
        '0'
    } else if d == 1 {
        '1'
    } else if d == 2 {
        '2'
    } else if d == 3 {
        '3'
    } else if d == 4 {
        '4'
    } else if d == 5 {
        '5'
    } else if d == 6 {
        '6'
    } else if d == 7 {
        '7'
    } else if d == 8 {
        '8'
    } else {
        '9'
    }
}

/// A number in decimal, without leading zeros.
pub open spec fn decimal(n: nat) -> Seq<char>
    decreases n,
{
    if n < 10 {
        seq![digit(n as int)]
    } else {
        decimal(n / 10).push(digit((n % 10) as int))
    }
}

/// The number that a digit stands for.
pub open spec fn digit_value(c: char) -> nat {
    if c == '1' {
        1
    } else if c == '2' {
        2
    } else if c == '3' {
        3
    } else if c == '4' {
        4
    } else if c == '5' {
        5
    } else if c == '6' {
        6
    } else if c == '7' {
        7
    } else if c == '8' {
        8
    } else if c == '9' {
        9
    } else {
        0
    }
}

/// Whether a character is a decimal digit.
pub open spec fn is_digit(c: char) -> bool {
    c == '0' || c == '1' || c == '2' || c == '3' || c == '4' || c == '5' || c == '6' || c == '7'
        || c == '8' || c == '9'
}

/// The number that a text of digits reads as.
pub open spec fn number_of(text: Seq<char>) -> nat
    decreases text.len(),
{
    if text.len() == 0 {
        0
    } else {
        10 * number_of(text.drop_last()) + digit_value(text.last())
    }
}

/// A number written in decimal reads back as itself: its text is made of
/// digits only, does not start with a zero unless it is the single digit
/// zero, and has the value of the number.
pub proof fn lemma_decimal_reads_back(n: nat)
    ensures
        number_of(decimal(n)) == n,
        decimal(n).len() >= 1,
        forall|i: int| 0 <= i < decimal(n).len() ==> is_digit(#[trigger] decimal(n)[i]),
        decimal(n)[0] == '0' ==> n == 0,
    decreases n,
{
    if n < 10 {
        let text = decimal(n);
        assert(text.drop_last() =~= Seq::<char>::empty());
        assert(number_of(text.drop_last()) == 0);
    } else {
        lemma_decimal_reads_back(n / 10);
        let head = decimal(n / 10);
        let text = decimal(n);
        assert(text.drop_last() =~= head);
        assert(text[0] == head[0]);
    }
}

/// The line of a textured triangle: each corner as `index/index`, the vertex
/// index and the index of its texture coordinate, both counted from one.
pub open spec fn face_line(triangle: Seq<usize>) -> Seq<char> {
    "f "@ + decimal((triangle[0] + 1) as nat) + "/"@ + decimal((triangle[0] + 1) as nat) + " "@
        + decimal((triangle[1] + 1) as nat) + "/"@ + decimal((triangle[1] + 1) as nat) + " "@
        + decimal((triangle[2] + 1) as nat) + "/"@ + decimal((triangle[2] + 1) as nat) + "\n"@
}

/// The lines of the first `n` triangles of a list.
pub open spec fn face_lines(triangles: Seq<[usize; 3]>, n: nat) -> Seq<char>
    decreases n,
{
    if n == 0 {
        Seq::empty()
    } else {
        face_lines(triangles, (n - 1) as nat) + face_line(triangles[n - 1]@)
    }
}

/// The text of a face group: its material, its name and its triangles.
pub open spec fn group_text(group: MeshGroup) -> Seq<char> {
    "usemtl "@ + group.name@ + "\n"@ + "g "@ + group.name@ + "\n"@ + face_lines(
        group.indices@,
        group.indices@.len(),
    )
}

/// The text of the first `n` face groups of a mesh.
pub open spec fn groups_text(faces: Seq<MeshGroup>, n: nat) -> Seq<char>
    decreases n,
{
    if n == 0 {
        Seq::empty()
    } else {
        groups_text(faces, (n - 1) as nat) + group_text(faces[n - 1])
    }
}

/// The first lines of a mesh file: the material file it uses and the name of
/// its object.
pub open spec fn header_text(mtl_name: Seq<char>) -> Seq<char> {
    "mtllib "@ + mtl_name + "\n"@ + "o Mesh3D\n"@
}

/// The block of one material: white ambient and diffuse colour, no specular
/// colour, opaque, and the texture as its diffuse map.
pub open spec fn material_text(name: Seq<char>, texture: Seq<char>) -> Seq<char> {
    "newmtl "@ + name + "\n"@ + "Ka 1.0 1.0 1.0\n"@ + "Kd 1.0 1.0 1.0\n"@ + "Ks 0.0 0.0 0.0\n"@
        + "d 1.0\n"@ + "Ns 10.0\n"@ + "illum 2\n"@ + "map_Kd textures/"@ + texture + "\n"@
}

/// The text of a material file: the materials `front`, `back` and `side`,
/// with an empty line between two blocks.
pub open spec fn materials_text(front: Seq<char>, back: Seq<char>, side: Seq<char>) -> Seq<char> {
    material_text("front"@, front) + "\n"@ + material_text("back"@, back) + "\n"@ + material_text(
        "side"@,
        side,
    )
}

/// The line of a bare triangle: its three vertex indices counted from one.
pub open spec fn bare_face_line(indices: Seq<usize>, t: int) -> Seq<char> {
    "f "@ + decimal((indices[3 * t] + 1) as nat) + " "@ + decimal((indices[3 * t + 1] + 1) as nat)
        + " "@ + decimal((indices[3 * t + 2] + 1) as nat) + "\n"@
}

/// The lines of the first `n` triangles of a flat triangle list.
pub open spec fn bare_face_lines(indices: Seq<usize>, n: nat) -> Seq<char>
    decreases n,
{
    if n == 0 {
        Seq::empty()
    } else {
        bare_face_lines(indices, (n - 1) as nat) + bare_face_line(indices, n - 1)
    }
}

/// The lines of a face group: the line of its material, the line of its
/// name, and the line of each of its triangles.
pub open spec fn group_lines(group: MeshGroup) -> Seq<Seq<char>> {
    seq!["usemtl "@ + group.name@ + "\n"@, "g "@ + group.name@ + "\n"@] + Seq::new(
        group.indices@.len(),
        |t: int| face_line(group.indices@[t]@),
    )
}

/// The lines of the first `n` face groups of a mesh.
pub open spec fn faces_lines(faces: Seq<MeshGroup>, n: nat) -> Seq<Seq<char>>
    decreases n,
{
    if n == 0 {
        Seq::empty()
    } else {
        faces_lines(faces, (n - 1) as nat) + group_lines(faces[n - 1])
    }
}

/// The first `n` lines of a list, one after the other.
pub open spec fn joined(lines: Seq<Seq<char>>, n: nat) -> Seq<char>
    decreases n,
{
    if n == 0 {
        Seq::empty()
    } else {
        joined(lines, (n - 1) as nat) + lines[n - 1]
    }
}

/// Whether a line is the line of a face: it starts with `f` and a blank.
pub open spec fn is_face_line(line: Seq<char>) -> bool {
    line.len() >= 2 && line[0] == 'f' && line[1] == ' '
}

/// How many of the first `n` lines of a list are lines of faces.
pub open spec fn face_line_count(lines: Seq<Seq<char>>, n: nat) -> nat
    decreases n,
{
    if n == 0 {
        0
    } else {
        face_line_count(lines, (n - 1) as nat) + if is_face_line(lines[n - 1]) {
            1nat
        } else {
            0nat
        }
    }
}

/// How many triangles the first `n` face groups of a mesh hold.
pub open spec fn triangle_total(faces: Seq<MeshGroup>, n: nat) -> nat
    decreases n,
{
    if n == 0 {
        0
    } else {
        triangle_total(faces, (n - 1) as nat) + faces[n - 1].indices@.len()
    }
}

/// Joining two lists of lines joins their texts.
pub proof fn lemma_joined_lists(a: Seq<Seq<char>>, b: Seq<Seq<char>>, n: nat)
    requires
        n <= b.len(),
    ensures
        joined(a + b, a.len() + n) == joined(a, a.len()) + joined(b, n),
        face_line_count(a + b, a.len() + n) == face_line_count(a, a.len()) + face_line_count(b, n),
    decreases n,
{
    if n == 0 {
        lemma_joined_prefix(a, a + b, a.len());
        assert(joined(a, a.len()) + joined(b, 0) =~= joined(a, a.len()));
    } else {
        lemma_joined_lists(a, b, (n - 1) as nat);
        assert((a + b)[a.len() + n - 1] == b[n - 1]);
        assert(joined(a, a.len()) + joined(b, (n - 1) as nat) + b[n - 1] =~= joined(a, a.len())
            + (joined(b, (n - 1) as nat) + b[n - 1]));
    }
}

/// The text and the count of the first lines of a list do not depend on the
/// lines after them.
pub proof fn lemma_joined_prefix(a: Seq<Seq<char>>, b: Seq<Seq<char>>, n: nat)
    requires
        n <= a.len() <= b.len(),
        forall|i: int| 0 <= i < a.len() ==> a[i] == b[i],
    ensures
        joined(a, n) == joined(b, n),
        face_line_count(a, n) == face_line_count(b, n),
    decreases n,
{
    if n > 0 {
        lemma_joined_prefix(a, b, (n - 1) as nat);
    }
}

/// The text of a face group is its lines, one after the other; its two first
/// lines are no lines of faces, and every other line is the line of a face.
pub proof fn lemma_group_lines(group: MeshGroup, m: nat)
    requires
        m <= group.indices@.len(),
    ensures
        joined(group_lines(group), 2 + m) == "usemtl "@ + group.name@ + "\n"@ + "g "@
            + group.name@ + "\n"@ + face_lines(group.indices@, m),
        face_line_count(group_lines(group), 2 + m) == m,
    decreases m,
{
    let lines = group_lines(group);
    reveal_strlit("usemtl ");
    reveal_strlit("g ");
    reveal_strlit("f ");
    let first = "usemtl "@ + group.name@ + "\n"@;
    let second = "g "@ + group.name@ + "\n"@;
    assert(lines[0] == first && lines[1] == second);
    assert(first[0] == 'u' && second[0] == 'g');
    if m == 0 {
        assert(joined(lines, 0) =~= Seq::<char>::empty());
        assert(joined(lines, 1) =~= first);
        assert(joined(lines, 2) =~= first + second);
        assert(face_lines(group.indices@, 0) =~= Seq::<char>::empty());
        assert(first + second =~= "usemtl "@ + group.name@ + "\n"@ + "g "@ + group.name@ + "\n"@
            + face_lines(group.indices@, 0));
        assert(face_line_count(lines, 0) == 0);
        assert(face_line_count(lines, 1) == 0);
        assert(face_line_count(lines, 2) == 0);
    } else {
        lemma_group_lines(group, (m - 1) as nat);
        let line = face_line(group.indices@[m - 1]@);
        assert(lines[2 + m - 1] == line);
        assert(line[0] == 'f' && line[1] == ' ' && line.len() >= 2);
        let head = "usemtl "@ + group.name@ + "\n"@ + "g "@ + group.name@ + "\n"@;
        assert(head + face_lines(group.indices@, (m - 1) as nat) + line =~= head + (face_lines(
            group.indices@,
            (m - 1) as nat,
        ) + line));
    }
}

/// The face text of a mesh is its lines, one after the other: two lines for
/// each face group and one line, which starts with `f` and a blank, for each
/// triangle; no other line starts so.
pub proof fn lemma_faces_lines(faces: Seq<MeshGroup>, n: nat)
    requires
        n <= faces.len(),
    ensures
        groups_text(faces, n) == joined(faces_lines(faces, n), faces_lines(faces, n).len()),
        faces_lines(faces, n).len() == 2 * n + triangle_total(faces, n),
        face_line_count(faces_lines(faces, n), faces_lines(faces, n).len()) == triangle_total(
            faces,
            n,
        ),
    decreases n,
{
    if n == 0 {
        assert(joined(faces_lines(faces, 0), 0) =~= groups_text(faces, 0));
    } else {
        lemma_faces_lines(faces, (n - 1) as nat);
        let group = faces[n - 1];
        let before = faces_lines(faces, (n - 1) as nat);
        let lines = group_lines(group);
        lemma_group_lines(group, group.indices@.len());
        lemma_joined_lists(before, lines, lines.len());
        assert(group_text(group) =~= joined(lines, lines.len()));
    }
}

/// The text of one decimal digit.
fn digit_text(d: usize) -> (text: &'static str)
    requires
        d < 10,
    ensures
        text@ == seq![digit(d as int)],
{
    proof {
        reveal_strlit("0");
        reveal_strlit("1");
        reveal_strlit("2");
        reveal_strlit("3");
        reveal_strlit("4");
        reveal_strlit("5");
        reveal_strlit("6");
        reveal_strlit("7");
        reveal_strlit("8");
        reveal_strlit("9");
    }
    let text = if d == 0 {
        "0"
    } else if d == 1 {
        "1"
    } else if d == 2 {
        "2"
    } else if d == 3 {
        "3"
    } else if d == 4 {
        "4"
    } else if d == 5 {
        "5"
    } else if d == 6 {
        "6"
    } else if d == 7 {
        "7"
    } else if d == 8 {
        "8"
    } else {
        "9"
    };
    assert(text@ =~= seq![digit(d as int)]);
    text
}

/// Appends a number in decimal.
fn append_decimal(out: &mut String, n: usize)
    ensures
        final(out)@ == old(out)@ + decimal(n as nat),
    decreases n,
{
    if n >= 10 {
        append_decimal(out, n / 10);
    }
    out.append(digit_text(n % 10));
    assert(out@ =~= old(out)@ + decimal(n as nat));
}

/// Appends a corner of a textured triangle.
fn append_corner(out: &mut String, index: usize)
    requires
        index < usize::MAX,
    ensures
        final(out)@ == old(out)@ + decimal((index + 1) as nat) + "/"@ + decimal((index + 1) as nat),
{
    append_decimal(out, index + 1);
    out.append("/");
    append_decimal(out, index + 1);
}

/// Appends the text of a face group.
fn append_group(out: &mut String, group: &MeshGroup)
    requires
        forall|t: int, c: int|
            0 <= t < group.indices@.len() && 0 <= c < 3 ==> (#[trigger] group.indices@[t]@[c])
                < usize::MAX,
    ensures
        final(out)@ == old(out)@ + group_text(*group),
{
    out.append("usemtl ");
    out.append(group.name);
    out.append("\n");
    out.append("g ");
    out.append(group.name);
    out.append("\n");
    let ghost start = out@;
    assert(start =~= old(out)@ + ("usemtl "@ + group.name@ + "\n"@ + "g "@ + group.name@ + "\n"@));
    let mut t: usize = 0;
    while t < group.indices.len()
        invariant
            t <= group.indices@.len(),
            forall|t: int, c: int|
                0 <= t < group.indices@.len() && 0 <= c < 3 ==> (#[trigger] group.indices@[t]@[c])
                    < usize::MAX,
            out@ == start + face_lines(group.indices@, t as nat),
        decreases group.indices@.len() - t,
    {
        let triangle = &group.indices[t];
        let ghost before = out@;
        assert(triangle@[0] < usize::MAX && triangle@[1] < usize::MAX && triangle@[2] < usize::MAX);
        out.append("f ");
        append_corner(out, triangle[0]);
        out.append(" ");
        append_corner(out, triangle[1]);
        out.append(" ");
        append_corner(out, triangle[2]);
        out.append("\n");
        assert(out@ =~= before + face_line(triangle@));
        assert(out@ =~= start + face_lines(group.indices@, (t + 1) as nat));
        t += 1;
    }
    assert(out@ =~= old(out)@ + group_text(*group));
}

/// Appends the block of one material.
fn append_material(out: &mut String, name: &str, texture: &str)
    ensures
        final(out)@ == old(out)@ + material_text(name@, texture@),
{
    out.append("newmtl ");
    out.append(name);
    out.append("\n");
    out.append("Ka 1.0 1.0 1.0\n");
    out.append("Kd 1.0 1.0 1.0\n");
    out.append("Ks 0.0 0.0 0.0\n");
    out.append("d 1.0\n");
    out.append("Ns 10.0\n");
    out.append("illum 2\n");
    out.append("map_Kd textures/");
    out.append(texture);
    out.append("\n");
    assert(out@ =~= old(out)@ + material_text(name@, texture@));
}

/// The first lines of a mesh file that uses the material file `mtl_name`.
pub fn obj_header(mtl_name: &str) -> (text: String)
    ensures
        text@ == header_text(mtl_name@),
{
    let mut text = String::from_str("mtllib ");
    text.append(mtl_name);
    text.append("\n");
    text.append("o Mesh3D\n");
    assert(text@ =~= header_text(mtl_name@));
    text
}

/// The text of the material file of a prism: the materials `front`, `back`
/// and `side`, each with its texture under `textures/`.
pub fn export_mtl(front_texture: &str, back_texture: &str, side_texture: &str) -> (text: String)
    ensures
        text@ == materials_text(front_texture@, back_texture@, side_texture@),
{
    let mut text = String::new();
    append_material(&mut text, "front", front_texture);
    text.append("\n");
    append_material(&mut text, "back", back_texture);
    text.append("\n");
    append_material(&mut text, "side", side_texture);
    assert(text@ =~= materials_text(front_texture@, back_texture@, side_texture@));
    text
}

impl Mesh3D {
    /// The face lines of the mesh file: every face group in order, with its
    /// material, its name and one line for each of its triangles. The text
    /// has as many lines that start with `f` and a blank as the mesh has
    /// triangles.
    pub fn obj_faces(&self) -> (text: String)
        ensures
            text@ == groups_text(self.spec_faces(), self.spec_faces().len()),
            text@ == joined(
                faces_lines(self.spec_faces(), self.spec_faces().len()),
                faces_lines(self.spec_faces(), self.spec_faces().len()).len(),
            ),
            face_line_count(
                faces_lines(self.spec_faces(), self.spec_faces().len()),
                faces_lines(self.spec_faces(), self.spec_faces().len()).len(),
            ) == triangle_total(self.spec_faces(), self.spec_faces().len()),
    {
        proof {
            lemma_faces_lines(self.spec_faces(), self.spec_faces().len());
        }
        let faces = self.get_faces();
        let vertices = self.get_vertices();
        let count = vertices.len();
        let mut text = String::new();
        let mut g: usize = 0;
        assert(text@ =~= groups_text(faces@, 0));
        while g < faces.len()
            invariant
                g <= faces@.len(),
                faces_in_range(faces@, count as int),
                text@ == groups_text(faces@, g as nat),
            decreases faces@.len() - g,
        {
            let group = &faces[g];
            assert forall|t: int, c: int|
                0 <= t < group.indices@.len() && 0 <= c < 3 implies (
            #[trigger] group.indices@[t]@[c]) < usize::MAX by {
                assert(faces@[g as int].indices@[t]@[c] < count);
            }
            append_group(&mut text, group);
            g += 1;
        }
        text
    }
}

impl Mesh2D {
    /// The face lines of the flat mesh file: one line for each triangle.
    pub fn obj_faces(&self) -> (text: String)
        ensures
            text@ == bare_face_lines(self.spec_indices(), self.spec_indices().len() / 3),
    {
        let indices = self.get_indices();
        let ghost n = self.spec_vertex_count();
        let mut text = String::new();
        let mut t: usize = 0;
        assert(text@ =~= bare_face_lines(indices@, 0));
        while t < indices.len() / 3
            invariant
                t <= indices@.len() / 3,
                is_triangle_list(indices@, n as int),
                text@ == bare_face_lines(indices@, t as nat),
            decreases indices@.len() / 3 - t,
        {
            let ghost before = text@;
            text.append("f ");
            append_decimal(&mut text, indices[3 * t] + 1);
            text.append(" ");
            append_decimal(&mut text, indices[3 * t + 1] + 1);
            text.append(" ");
            append_decimal(&mut text, indices[3 * t + 2] + 1);
            text.append("\n");
            assert(text@ =~= before + bare_face_line(indices@, t as int));
            t += 1;
        }
        text
    }
}

} // verus!

use vstd::prelude::*;
use crate::bytes::{
    lemma_index_read_back, lemma_le_u64_read_back, le_bytes_u32, le_bytes_u64, push_le_i32,
    push_le_u64,
};
use crate::error::{IoErrorKind, PointCloudError};
use crate::io::MeshWriter;
use crate::types::Color;
use crate::ply::{ascii_bytes, flatten, lemma_flatten_concat, well_formed_line, well_formed_lines};
use crate::ply_mesh::{
    lemma_mesh_fold_concat, lemma_mesh_scan_lines, mesh_fold, mesh_scan_from, mesh_scan_line,
    face_view, faces_from, faces_view, i32_at, mesh_body_of, mesh_header_matches, mesh_header_ok,
    mesh_scan_start, ply_encoding_of, raw_vertex_at, third_number, vertex_record_len,
    vertices_from, MeshPlyHeader, MeshScan, PlyEncoding, RawMesh, RawVertex,
};
use crate::ply_write::{
    ascii_words, comment_line, end_header_line, face_count_line, face_list_line, format_line,
    lemma_differs_at, lemma_join1, lemma_join3, lemma_join4, lemma_join5,
    lemma_preamble_well_formed, lemma_property_lines_well_formed, lemma_property_words,
    lemma_text_line_well_formed, lemma_vertex_property_words, magic_line, mesh_header_lines,
    mesh_ply_header, point_cloud_header_lines, point_cloud_ply_header, preamble_lines, property_line,
    property_lines, vertex_count_line, vertex_properties,
};
use crate::text::{decimal, join_words, lemma_decimal, lemma_text_line, proper_words, text_line};

verus! {

// ---------------------------------------------------------------------------
// What the mesh header scan makes of each line the writer puts out
// ---------------------------------------------------------------------------

proof fn lemma_mesh_scan_magic(st: MeshScan)
    ensures
        mesh_scan_line(st, magic_line()) == (st, false),
{
    reveal_strlit("ply");
    let ws = seq!["ply"@];
    assert(proper_words(ws));
    lemma_text_line(ws);
}

proof fn lemma_mesh_scan_format(st: MeshScan)
    ensures
        mesh_scan_line(st, format_line()) == (
            MeshScan { format: "binary_little_endian"@, ..st },
            false,
        ),
{
    reveal_strlit("format");
    reveal_strlit("binary_little_endian");
    reveal_strlit("1.0");
    reveal_strlit("ply");
    let ws = seq!["format"@, "binary_little_endian"@, "1.0"@];
    assert(proper_words(ws));
    lemma_text_line(ws);
    lemma_join3("format"@, "binary_little_endian"@, "1.0"@);
    let t = join_words(ws);
    assert(t.take(6) =~= "format"@);
    assert(ws[1] == "binary_little_endian"@);
}

proof fn lemma_mesh_scan_comment(st: MeshScan)
    ensures
        mesh_scan_line(st, comment_line()) == (st, false),
{
    reveal_strlit("comment");
    reveal_strlit("Generated");
    reveal_strlit("by");
    reveal_strlit("pointcloud-cli");
    reveal_strlit("ply");
    reveal_strlit("format");
    reveal_strlit("element vertex");
    reveal_strlit("element face");
    reveal_strlit("element");
    reveal_strlit("property");
    reveal_strlit("end_header");
    let ws = seq!["comment"@, "Generated"@, "by"@, "pointcloud-cli"@];
    assert(proper_words(ws));
    lemma_text_line(ws);
    lemma_join4("comment"@, "Generated"@, "by"@, "pointcloud-cli"@);
    let t = join_words(ws);
    assert(t[0] == 'c');
    lemma_differs_at(t, "format"@, 0);
    lemma_differs_at(t, "element vertex"@, 0);
    lemma_differs_at(t, "element face"@, 0);
    lemma_differs_at(t, "element"@, 0);
    lemma_differs_at(t, "property"@, 0);
    lemma_differs_at(t, "end_header"@, 0);
    lemma_differs_at(t, "ply"@, 0);
}

proof fn lemma_mesh_scan_vertex_count(st: MeshScan, n: usize)
    ensures
        mesh_scan_line(st, vertex_count_line(n as nat)) == (
            MeshScan { in_vertex: true, vertex_count: n, ..st },
            false,
        ),
{
    reveal_strlit("element");
    reveal_strlit("vertex");
    reveal_strlit("ply");
    reveal_strlit("format");
    reveal_strlit("element vertex");
    lemma_decimal(n as nat);
    let ws = seq!["element"@, "vertex"@, decimal(n as nat)];
    assert(proper_words(ws));
    lemma_text_line(ws);
    lemma_join3("element"@, "vertex"@, decimal(n as nat));
    let t = join_words(ws);
    assert(t.take(14) =~= "element vertex"@);
    lemma_differs_at(t, "format"@, 0);
    lemma_differs_at(t, "ply"@, 0);
    assert(ws[2] == decimal(n as nat));
    assert(third_number(ws) == n);
}

proof fn lemma_mesh_scan_property(st: MeshScan, dtype: Seq<char>, name: Seq<char>)
    requires
        st.in_vertex,
        proper_words(seq![dtype, name]),
    ensures
        mesh_scan_line(st, property_line(dtype, name)) == (
            MeshScan { names: st.names.push(name), ..st },
            false,
        ),
{
    reveal_strlit("property");
    reveal_strlit("ply");
    reveal_strlit("format");
    reveal_strlit("element vertex");
    reveal_strlit("element face");
    reveal_strlit("element");
    let ws = seq!["property"@, dtype, name];
    assert(proper_words(ws)) by {
        assert(ws[1] == seq![dtype, name][0]);
        assert(ws[2] == seq![dtype, name][1]);
    }
    lemma_text_line(ws);
    let t = join_words(ws);
    assert(t[0] == 'p');
    assert(t.take(8) =~= "property"@);
}

proof fn lemma_mesh_scan_face_count(st: MeshScan, f: usize)
    ensures
        mesh_scan_line(st, face_count_line(f as nat)) == (
            MeshScan { in_vertex: false, face_count: f, ..st },
            false,
        ),
{
    reveal_strlit("element");
    reveal_strlit("face");
    reveal_strlit("ply");
    reveal_strlit("format");
    reveal_strlit("element vertex");
    reveal_strlit("element face");
    lemma_decimal(f as nat);
    let ws = seq!["element"@, "face"@, decimal(f as nat)];
    assert(proper_words(ws));
    lemma_text_line(ws);
    lemma_join3("element"@, "face"@, decimal(f as nat));
    let t = join_words(ws);
    assert(t.take(12) =~= "element face"@);
    lemma_differs_at(t, "format"@, 0);
    lemma_differs_at(t, "ply"@, 0);
    lemma_differs_at(t, "element vertex"@, 8);
    assert(ws[2] == decimal(f as nat));
    assert(third_number(ws) == f);
}

proof fn lemma_mesh_scan_face_list(st: MeshScan)
    requires
        !st.in_vertex,
    ensures
        mesh_scan_line(st, face_list_line()) == (st, false),
{
    reveal_strlit("property");
    reveal_strlit("list");
    reveal_strlit("uchar");
    reveal_strlit("int");
    reveal_strlit("vertex_indices");
    reveal_strlit("ply");
    reveal_strlit("format");
    reveal_strlit("element vertex");
    reveal_strlit("element face");
    reveal_strlit("element");
    reveal_strlit("end_header");
    let ws = seq!["property"@, "list"@, "uchar"@, "int"@, "vertex_indices"@];
    assert(proper_words(ws));
    lemma_text_line(ws);
    lemma_join5("property"@, "list"@, "uchar"@, "int"@, "vertex_indices"@);
    let t = join_words(ws);
    assert(t[0] == 'p');
    lemma_differs_at(t, "format"@, 0);
    lemma_differs_at(t, "element vertex"@, 0);
    lemma_differs_at(t, "element face"@, 0);
    lemma_differs_at(t, "element"@, 0);
    lemma_differs_at(t, "end_header"@, 0);
    assert(t[1] == 'r');
    lemma_differs_at(t, "ply"@, 1);
}

proof fn lemma_mesh_scan_end_header(st: MeshScan)
    ensures
        mesh_scan_line(st, end_header_line()) == (st, true),
{
    reveal_strlit("end_header");
    reveal_strlit("ply");
    reveal_strlit("format");
    reveal_strlit("element vertex");
    reveal_strlit("element face");
    reveal_strlit("element");
    reveal_strlit("property");
    let ws = seq!["end_header"@];
    assert(proper_words(ws));
    lemma_text_line(ws);
    lemma_join1("end_header"@);
    let t = join_words(ws);
    lemma_differs_at(t, "ply"@, 0);
    lemma_differs_at(t, "format"@, 0);
    lemma_differs_at(t, "element"@, 1);
    lemma_differs_at(t, "element vertex"@, 1);
    lemma_differs_at(t, "element face"@, 1);
    lemma_differs_at(t, "property"@, 0);
}

// ---------------------------------------------------------------------------
// Reading back the mesh header the writer puts out
// ---------------------------------------------------------------------------

/// The names of the properties `props`.
pub open spec fn property_names(props: Seq<(Seq<char>, Seq<char>)>) -> Seq<Seq<char>> {
    props.map_values(|p: (Seq<char>, Seq<char>)| p.0)
}

proof fn lemma_mesh_fold_preamble(st: MeshScan, pos: int, n: usize)
    requires
        0 <= pos,
    ensures
        mesh_fold(st, pos, preamble_lines(n as nat)) == (
            MeshScan {
                format: "binary_little_endian"@,
                in_vertex: true,
                vertex_count: n,
                data_offset: (pos + flatten(preamble_lines(n as nat)).len()) as nat,
                ..st
            },
            false,
        ),
{
    let ls = preamble_lines(n as nat);
    let m = magic_line();
    let f = format_line();
    let c = comment_line();
    let v = vertex_count_line(n as nat);
    assert(ls.drop_first() =~= seq![f, c, v]);
    assert(seq![f, c, v].drop_first() =~= seq![c, v]);
    assert(seq![c, v].drop_first() =~= seq![v]);
    assert(seq![v].drop_first() =~= Seq::<Seq<char>>::empty());
    let p1 = pos + m.len();
    let p2 = p1 + f.len();
    let p3 = p2 + c.len();
    let p4 = p3 + v.len();
    let s1 = MeshScan { data_offset: p1 as nat, ..st };
    lemma_mesh_scan_magic(s1);
    let s2 = MeshScan { data_offset: p2 as nat, ..s1 };
    lemma_mesh_scan_format(s2);
    let s2b = MeshScan { format: "binary_little_endian"@, ..s2 };
    let s3 = MeshScan { data_offset: p3 as nat, ..s2b };
    lemma_mesh_scan_comment(s3);
    let s4 = MeshScan { data_offset: p4 as nat, ..s3 };
    lemma_mesh_scan_vertex_count(s4, n);
    let s4b = MeshScan { in_vertex: true, vertex_count: n, ..s4 };
    assert(mesh_fold(s4b, p4, Seq::<Seq<char>>::empty()) == (s4b, false));
    assert(mesh_fold(s3, p3, seq![v]) == (s4b, false));
    assert(mesh_fold(s2b, p2, seq![c, v]) == mesh_fold(s3, p3, seq![v]));
    assert(mesh_fold(s1, p1, seq![f, c, v]) == mesh_fold(s2b, p2, seq![c, v]));
    assert(mesh_fold(st, pos, ls) == mesh_fold(s1, p1, seq![f, c, v]));
    assert(flatten(seq![v]) == v + flatten(Seq::<Seq<char>>::empty()));
    assert(flatten(seq![c, v]) == c + flatten(seq![v]));
    assert(flatten(seq![f, c, v]) == f + flatten(seq![c, v]));
    assert(flatten(ls) == m + flatten(seq![f, c, v]));
}

proof fn lemma_mesh_fold_properties(st: MeshScan, pos: int, props: Seq<(Seq<char>, Seq<char>)>)
    requires
        st.in_vertex,
        0 <= pos,
        st.data_offset == pos,
        forall|i: int|
            0 <= i < props.len() ==> ascii_words(seq![#[trigger] props[i].1, props[i].0]),
    ensures
        mesh_fold(st, pos, property_lines(props)) == (
            MeshScan {
                names: st.names + property_names(props),
                data_offset: (pos + flatten(property_lines(props)).len()) as nat,
                ..st
            },
            false,
        ),
    decreases props.len(),
{
    let pl = property_lines(props);
    if props.len() == 0 {
        assert(st.names + property_names(props) =~= st.names);
        assert(pl =~= seq![]);
    } else {
        let p = props[0];
        let rest = props.drop_first();
        assert(ascii_words(seq![props[0].1, props[0].0]));
        assert(proper_words(seq![p.1, p.0]));
        let e = pos + pl[0].len();
        let st1 = MeshScan { data_offset: e as nat, ..st };
        lemma_mesh_scan_property(st1, p.1, p.0);
        assert(pl[0] == property_line(p.1, p.0));
        let st2 = MeshScan { names: st.names.push(p.0), ..st1 };
        assert(pl.drop_first() =~= property_lines(rest));
        assert forall|i: int| 0 <= i < rest.len() implies ascii_words(
            seq![#[trigger] rest[i].1, rest[i].0],
        ) by {
            assert(rest[i] == props[i + 1]);
            assert(ascii_words(seq![props[i + 1].1, props[i + 1].0]));
        }
        lemma_mesh_fold_properties(st2, e, rest);
        assert(st.names.push(p.0) + property_names(rest) =~= st.names + property_names(props));
        assert(flatten(pl) == pl[0] + flatten(pl.drop_first()));
    }
}

/// The lines after the vertex properties of a mesh header.
pub open spec fn mesh_tail_lines(faces: nat) -> Seq<Seq<char>> {
    seq![face_count_line(faces), face_list_line(), end_header_line()]
}

proof fn lemma_mesh_fold_tail(st: MeshScan, pos: int, f: usize)
    requires
        0 <= pos,
    ensures
        mesh_fold(st, pos, mesh_tail_lines(f as nat)) == (
            MeshScan {
                in_vertex: false,
                face_count: f,
                data_offset: (pos + flatten(mesh_tail_lines(f as nat)).len()) as nat,
                ..st
            },
            true,
        ),
{
    let ls = mesh_tail_lines(f as nat);
    let a = face_count_line(f as nat);
    let b = face_list_line();
    let c = end_header_line();
    assert(ls.drop_first() =~= seq![b, c]);
    assert(seq![b, c].drop_first() =~= seq![c]);
    assert(seq![c].drop_first() =~= Seq::<Seq<char>>::empty());
    let p1 = pos + a.len();
    let p2 = p1 + b.len();
    let p3 = p2 + c.len();
    let s1 = MeshScan { data_offset: p1 as nat, ..st };
    lemma_mesh_scan_face_count(s1, f);
    let s1b = MeshScan { in_vertex: false, face_count: f, ..s1 };
    let s2 = MeshScan { data_offset: p2 as nat, ..s1b };
    lemma_mesh_scan_face_list(s2);
    let s3 = MeshScan { data_offset: p3 as nat, ..s2 };
    lemma_mesh_scan_end_header(s3);
    assert(mesh_fold(s2, p2, seq![c]) == (s3, true));
    assert(mesh_fold(s1b, p1, seq![b, c]) == mesh_fold(s2, p2, seq![c]));
    assert(mesh_fold(st, pos, ls) == mesh_fold(s1b, p1, seq![b, c]));
    assert(flatten(seq![c]) == c + flatten(Seq::<Seq<char>>::empty()));
    assert(flatten(seq![b, c]) == b + flatten(seq![c]));
    assert(flatten(ls) == a + flatten(seq![b, c]));
}

/// The mesh header lines are well formed ASCII lines.
proof fn lemma_mesh_header_well_formed(n: nat, f: nat, has_normals: bool, has_colors: bool)
    ensures
        well_formed_lines(mesh_header_lines(n, f, has_normals, has_colors)),
{
    lemma_preamble_well_formed(n);
    lemma_vertex_property_words(has_normals, has_colors);
    lemma_property_lines_well_formed(vertex_properties(has_normals, has_colors));
    reveal_strlit("element");
    reveal_strlit("face");
    reveal_strlit("property");
    reveal_strlit("list");
    reveal_strlit("uchar");
    reveal_strlit("int");
    reveal_strlit("vertex_indices");
    reveal_strlit("end_header");
    lemma_decimal(f);
    let w1 = seq!["element"@, "face"@, decimal(f)];
    let w2 = seq!["property"@, "list"@, "uchar"@, "int"@, "vertex_indices"@];
    let w3 = seq!["end_header"@];
    assert(w1[2] == decimal(f));
    assert(ascii_words(w1));
    assert(ascii_words(w2));
    assert(ascii_words(w3));
    lemma_text_line_well_formed(w1);
    lemma_text_line_well_formed(w2);
    lemma_text_line_well_formed(w3);
    let a = preamble_lines(n);
    let b = property_lines(vertex_properties(has_normals, has_colors));
    let c = mesh_tail_lines(f);
    let ls = mesh_header_lines(n, f, has_normals, has_colors);
    assert(ls =~= a + b + c);
    assert forall|i: int| 0 <= i < ls.len() implies well_formed_line(#[trigger] ls[i]) by {
        if i < a.len() {
            assert(ls[i] == a[i]);
        } else if i < a.len() + b.len() {
            assert(ls[i] == b[i - a.len()]);
        } else {
            assert(ls[i] == c[i - a.len() - b.len()]);
        }
    }
}

/// The scan state after the mesh header the writer puts out.
pub open spec fn written_mesh_scan(
    vertices: usize,
    faces: usize,
    has_normals: bool,
    has_colors: bool,
) -> MeshScan {
    MeshScan {
        format: "binary_little_endian"@,
        vertex_count: vertices,
        face_count: faces,
        names: property_names(vertex_properties(has_normals, has_colors)),
        in_vertex: false,
        data_offset: flatten(
            mesh_header_lines(vertices as nat, faces as nat, has_normals, has_colors),
        ).len(),
    }
}

/// Whatever follows it, the header the mesh writer puts out reads back as a
/// binary little-endian header with the vertex and face counts and the
/// vertex properties it declared, and the body starts right after it.
pub proof fn law_mesh_header_read_back(
    vertices: usize,
    faces: usize,
    has_normals: bool,
    has_colors: bool,
    rest: Seq<u8>,
)
    ensures
        mesh_scan_from(
            ascii_bytes(
                flatten(mesh_header_lines(vertices as nat, faces as nat, has_normals, has_colors)),
            ) + rest,
            0,
            mesh_scan_start(),
        ) == Ok::<MeshScan, IoErrorKind>(
            written_mesh_scan(vertices, faces, has_normals, has_colors),
        ),
{
    let ls = mesh_header_lines(vertices as nat, faces as nat, has_normals, has_colors);
    let data = ascii_bytes(flatten(ls)) + rest;
    let a = preamble_lines(vertices as nat);
    let b = property_lines(vertex_properties(has_normals, has_colors));
    let c = mesh_tail_lines(faces as nat);
    assert(ls =~= a + b + c);
    lemma_mesh_header_well_formed(vertices as nat, faces as nat, has_normals, has_colors);
    assert(data.skip(0) =~= data);
    let st = mesh_scan_start();
    lemma_mesh_scan_lines(data, 0, st, ls, rest);
    lemma_mesh_fold_preamble(st, 0, vertices);
    let s1 = mesh_fold(st, 0, a).0;
    let p1 = flatten(a).len() as int;
    lemma_vertex_property_words(has_normals, has_colors);
    lemma_mesh_fold_properties(s1, p1, vertex_properties(has_normals, has_colors));
    let s2 = mesh_fold(s1, p1, b).0;
    let p2 = p1 + flatten(b).len();
    lemma_mesh_fold_tail(s2, p2, faces);
    lemma_mesh_fold_concat(st, 0, a, b);
    lemma_flatten_concat(a, b);
    lemma_mesh_fold_concat(st, 0, a + b, c);
    lemma_flatten_concat(a + b, c);
    assert(seq![] + property_names(vertex_properties(has_normals, has_colors)) =~= property_names(
        vertex_properties(has_normals, has_colors),
    ));
}

// ---------------------------------------------------------------------------
// The binary body the writers put out
// ---------------------------------------------------------------------------

/// The bit pattern of the double 1.0.
pub open spec fn one_bits() -> u64 {
    0x3FF0_0000_0000_0000
}

/// What the writers put out for a vertex: its position; its normal, or
/// (0, 0, 1), when the file has normals; its color, or white, when the file
/// has colors.
pub open spec fn written_vertex(v: RawVertex, has_normals: bool, has_colors: bool) -> RawVertex {
    RawVertex {
        position: v.position,
        normal: if has_normals {
            Some(
                match v.normal {
                    Some(n) => n,
                    None => (0u64, 0u64, one_bits()),
                },
            )
        } else {
            None
        },
        color: if has_colors {
            Some(
                match v.color {
                    Some(c) => c,
                    None => Color { r: 255, g: 255, b: 255 },
                },
            )
        } else {
            None
        },
    }
}

/// The vertices as the writers put them out.
pub open spec fn written_vertices(vs: Seq<RawVertex>, has_normals: bool, has_colors: bool) -> Seq<
    RawVertex,
> {
    vs.map_values(|v: RawVertex| written_vertex(v, has_normals, has_colors))
}

/// The bytes of one vertex record: the position as little-endian doubles,
/// then the normal and the color bytes when the vertex has them.
pub open spec fn vertex_record(v: RawVertex) -> Seq<u8> {
    le_bytes_u64(v.position.0) + le_bytes_u64(v.position.1) + le_bytes_u64(v.position.2) + (
    match v.normal {
        Some(n) => le_bytes_u64(n.0) + le_bytes_u64(n.1) + le_bytes_u64(n.2),
        None => Seq::<u8>::empty(),
    }) + (match v.color {
        Some(c) => seq![c.r, c.g, c.b],
        None => Seq::<u8>::empty(),
    })
}

/// The records of `vs`, one after the other.
pub open spec fn vertices_bytes(vs: Seq<RawVertex>) -> Seq<u8>
    decreases vs.len(),
{
    if vs.len() == 0 {
        Seq::<u8>::empty()
    } else {
        vertex_record(vs[0]) + vertices_bytes(vs.drop_first())
    }
}

/// The bytes of one triangle: the count 3, then the three indices as
/// little-endian 32-bit integers.
pub open spec fn face_record(f: (usize, usize, usize)) -> Seq<u8> {
    seq![3u8] + le_bytes_u32((f.0 as i32) as u32) + le_bytes_u32((f.1 as i32) as u32)
        + le_bytes_u32((f.2 as i32) as u32)
}

/// The records of `fs`, one after the other.
pub open spec fn faces_bytes(fs: Seq<(usize, usize, usize)>) -> Seq<u8>
    decreases fs.len(),
{
    if fs.len() == 0 {
        Seq::<u8>::empty()
    } else {
        face_record(fs[0]) + faces_bytes(fs.drop_first())
    }
}

/// Some vertex has a normal.
pub open spec fn any_normal(vs: Seq<RawVertex>) -> bool {
    exists|i: int| 0 <= i < vs.len() && (#[trigger] vs[i]).normal is Some
}

/// Some vertex has a color.
pub open spec fn any_color(vs: Seq<RawVertex>) -> bool {
    exists|i: int| 0 <= i < vs.len() && (#[trigger] vs[i]).color is Some
}

/// Every vertex has a normal.
pub open spec fn all_normals(vs: Seq<RawVertex>) -> bool {
    forall|i: int| 0 <= i < vs.len() ==> (#[trigger] vs[i]).normal is Some
}

/// Every vertex has a color.
pub open spec fn all_colors(vs: Seq<RawVertex>) -> bool {
    forall|i: int| 0 <= i < vs.len() ==> (#[trigger] vs[i]).color is Some
}

/// The bytes of the binary mesh PLY file the mesh writer puts out.
pub open spec fn encoded_mesh(vs: Seq<RawVertex>, fs: Seq<(usize, usize, usize)>) -> Seq<u8> {
    ascii_bytes(
        flatten(mesh_header_lines(vs.len(), fs.len(), any_normal(vs), any_color(vs))),
    ) + vertices_bytes(written_vertices(vs, any_normal(vs), any_color(vs))) + faces_bytes(fs)
}

/// The bytes of the binary point cloud PLY file the point cloud writer puts
/// out.
pub open spec fn encoded_point_cloud(vs: Seq<RawVertex>) -> Seq<u8> {
    ascii_bytes(flatten(point_cloud_header_lines(vs.len(), all_normals(vs), all_colors(vs))))
        + vertices_bytes(written_vertices(vs, all_normals(vs), all_colors(vs)))
}

/// Adding one more record adds its bytes at the end.
pub proof fn lemma_vertices_bytes_push(vs: Seq<RawVertex>, v: RawVertex)
    ensures
        vertices_bytes(vs.push(v)) == vertices_bytes(vs) + vertex_record(v),
    decreases vs.len(),
{
    if vs.len() == 0 {
        assert(vs.push(v).drop_first() =~= Seq::<RawVertex>::empty());
        assert(vs.push(v)[0] == v);
        assert(vertices_bytes(Seq::<RawVertex>::empty()) == Seq::<u8>::empty());
        assert(vertices_bytes(vs.push(v)) == vertex_record(v) + vertices_bytes(
            Seq::<RawVertex>::empty(),
        ));
        assert(vertex_record(v) + Seq::<u8>::empty() =~= Seq::<u8>::empty() + vertex_record(v));
    } else {
        assert(vs.push(v)[0] == vs[0]);
        assert(vs.push(v).drop_first() =~= vs.drop_first().push(v));
        lemma_vertices_bytes_push(vs.drop_first(), v);
        assert(vertex_record(vs[0]) + (vertices_bytes(vs.drop_first()) + vertex_record(v))
            =~= vertex_record(vs[0]) + vertices_bytes(vs.drop_first()) + vertex_record(v));
    }
}

/// Adding one more record adds its bytes at the end.
pub proof fn lemma_faces_bytes_push(fs: Seq<(usize, usize, usize)>, f: (usize, usize, usize))
    ensures
        faces_bytes(fs.push(f)) == faces_bytes(fs) + face_record(f),
    decreases fs.len(),
{
    if fs.len() == 0 {
        assert(fs.push(f).drop_first() =~= Seq::<(usize, usize, usize)>::empty());
        assert(fs.push(f)[0] == f);
        assert(faces_bytes(Seq::<(usize, usize, usize)>::empty()) == Seq::<u8>::empty());
        assert(faces_bytes(fs.push(f)) == face_record(f) + faces_bytes(
            Seq::<(usize, usize, usize)>::empty(),
        ));
        assert(face_record(f) + Seq::<u8>::empty() =~= Seq::<u8>::empty() + face_record(f));
    } else {
        assert(fs.push(f)[0] == fs[0]);
        assert(fs.push(f).drop_first() =~= fs.drop_first().push(f));
        lemma_faces_bytes_push(fs.drop_first(), f);
        assert(face_record(fs[0]) + (faces_bytes(fs.drop_first()) + face_record(f))
            =~= face_record(fs[0]) + faces_bytes(fs.drop_first()) + face_record(f));
    }
}

/// Appends the record of `v` as the writers put it out.
fn push_vertex_record(out: &mut Vec<u8>, v: &RawVertex, has_normals: bool, has_colors: bool)
    ensures
        final(out)@ == old(out)@ + vertex_record(written_vertex(*v, has_normals, has_colors)),
{
    let ghost start = out@;
    push_le_u64(out, v.position.0);
    push_le_u64(out, v.position.1);
    push_le_u64(out, v.position.2);
    let ghost after_pos = out@;
    if has_normals {
        let n = match v.normal {
            Some(n) => n,
            None => (0u64, 0u64, 0x3FF0_0000_0000_0000u64),
        };
        push_le_u64(out, n.0);
        push_le_u64(out, n.1);
        push_le_u64(out, n.2);
    }
    let ghost after_normal = out@;
    if has_colors {
        let c = match v.color {
            Some(c) => c,
            None => Color::white(),
        };
        out.push(c.r);
        out.push(c.g);
        out.push(c.b);
        assert(out@ =~= after_normal + seq![c.r, c.g, c.b]);
    }
    let ghost w = written_vertex(*v, has_normals, has_colors);
    assert(out@ =~= start + vertex_record(w));
}

/// Some vertex has a normal.
fn has_any_normal(vs: &[RawVertex]) -> (r: bool)
    ensures
        r == any_normal(vs@),
{
    let mut i: usize = 0;
    while i < vs.len()
        invariant
            i <= vs.len(),
            forall|k: int| 0 <= k < i ==> (#[trigger] vs@[k]).normal is None,
        decreases vs.len() - i,
    {
        if vs[i].normal.is_some() {
            return true;
        }
        i = i + 1;
    }
    false
}

/// Some vertex has a color.
fn has_any_color(vs: &[RawVertex]) -> (r: bool)
    ensures
        r == any_color(vs@),
{
    let mut i: usize = 0;
    while i < vs.len()
        invariant
            i <= vs.len(),
            forall|k: int| 0 <= k < i ==> (#[trigger] vs@[k]).color is None,
        decreases vs.len() - i,
    {
        if vs[i].color.is_some() {
            return true;
        }
        i = i + 1;
    }
    false
}

/// Every vertex has a normal.
fn has_all_normals(vs: &[RawVertex]) -> (r: bool)
    ensures
        r == all_normals(vs@),
{
    let mut i: usize = 0;
    while i < vs.len()
        invariant
            i <= vs.len(),
            forall|k: int| 0 <= k < i ==> (#[trigger] vs@[k]).normal is Some,
        decreases vs.len() - i,
    {
        if vs[i].normal.is_none() {
            return false;
        }
        i = i + 1;
    }
    true
}

/// Every vertex has a color.
fn has_all_colors(vs: &[RawVertex]) -> (r: bool)
    ensures
        r == all_colors(vs@),
{
    let mut i: usize = 0;
    while i < vs.len()
        invariant
            i <= vs.len(),
            forall|k: int| 0 <= k < i ==> (#[trigger] vs@[k]).color is Some,
        decreases vs.len() - i,
    {
        if vs[i].color.is_none() {
            return false;
        }
        i = i + 1;
    }
    true
}

/// Appends the records of `vs` as the writers put them out.
fn push_vertex_records(out: &mut Vec<u8>, vs: &[RawVertex], has_normals: bool, has_colors: bool)
    ensures
        final(out)@ == old(out)@ + vertices_bytes(written_vertices(vs@, has_normals, has_colors)),
{
    let ghost start = out@;
    let mut i: usize = 0;
    assert(written_vertices(vs@, has_normals, has_colors).take(0) =~= Seq::<RawVertex>::empty());
    assert(start + Seq::<u8>::empty() =~= start);
    while i < vs.len()
        invariant
            i <= vs.len(),
            out@ == start + vertices_bytes(written_vertices(vs@, has_normals, has_colors).take(i as int)),
        decreases vs.len() - i,
    {
        let ghost ws = written_vertices(vs@, has_normals, has_colors);
        push_vertex_record(out, &vs[i], has_normals, has_colors);
        proof {
            assert(ws.take(i + 1) =~= ws.take(i as int).push(ws[i as int]));
            lemma_vertices_bytes_push(ws.take(i as int), ws[i as int]);
            assert(start + vertices_bytes(ws.take(i as int)) + vertex_record(ws[i as int]) =~= start
                + (vertices_bytes(ws.take(i as int)) + vertex_record(ws[i as int])));
        }
        i = i + 1;
    }
    assert(written_vertices(vs@, has_normals, has_colors).take(vs.len() as int) =~= written_vertices(
        vs@,
        has_normals,
        has_colors,
    ));
}

impl MeshWriter {
    /// The bytes of the binary little-endian PLY file for a mesh: the header,
    /// one record per vertex (normals and colors when any vertex has them,
    /// filled in with (0, 0, 1) and white), then one index list per face.
    pub fn encode_ply(&self, mesh: &RawMesh) -> (r: Vec<u8>)
        ensures
            r@ == encoded_mesh(mesh.vertices@, faces_view(mesh.faces@)),
    {
        let vs = mesh.vertices.as_slice();
        let has_normals = has_any_normal(vs);
        let has_colors = has_any_color(vs);
        let mut out = mesh_ply_header(mesh.vertices.len(), mesh.faces.len(), has_normals, has_colors);
        push_vertex_records(&mut out, vs, has_normals, has_colors);
        let ghost after_vertices = out@;
        let ghost fv = faces_view(mesh.faces@);
        let mut j: usize = 0;
        assert(fv.take(0) =~= Seq::<(usize, usize, usize)>::empty());
        assert(after_vertices + Seq::<u8>::empty() =~= after_vertices);
        while j < mesh.faces.len()
            invariant
                j <= mesh.faces.len(),
                fv == faces_view(mesh.faces@),
                out@ == after_vertices + faces_bytes(fv.take(j as int)),
            decreases mesh.faces.len() - j,
        {
            let f = mesh.faces[j];
            let ghost before = out@;
            out.push(3u8);
            push_le_i32(&mut out, f.indices[0] as i32);
            push_le_i32(&mut out, f.indices[1] as i32);
            push_le_i32(&mut out, f.indices[2] as i32);
            proof {
                assert(fv[j as int] == face_view(f));
                assert(out@ =~= before + face_record(fv[j as int]));
                assert(fv.take(j + 1) =~= fv.take(j as int).push(fv[j as int]));
                lemma_faces_bytes_push(fv.take(j as int), fv[j as int]);
                assert(after_vertices + faces_bytes(fv.take(j as int)) + face_record(fv[j as int])
                    =~= after_vertices + (faces_bytes(fv.take(j as int)) + face_record(
                    fv[j as int],
                )));
            }
            j = j + 1;
        }
        assert(fv.take(mesh.faces.len() as int) =~= fv);
        out
    }
}

/// The bytes of the binary little-endian PLY file for a point cloud: the
/// header, then one record per point (normals when every point has one,
/// colors when every point has one).
pub fn encode_point_cloud_ply(points: &[RawVertex]) -> (r: Vec<u8>)
    ensures
        r@ == encoded_point_cloud(points@),
{
    let has_normals = has_all_normals(points);
    let has_colors = has_all_colors(points);
    let mut out = point_cloud_ply_header(points.len(), has_normals, has_colors);
    push_vertex_records(&mut out, points, has_normals, has_colors);
    out
}

// ---------------------------------------------------------------------------
// Reading back the body the writers put out
// ---------------------------------------------------------------------------

/// Data holding `a` then `b` from `pos` on holds `a` at `pos` and `b` after it.
proof fn lemma_split_at(data: Seq<u8>, pos: int, a: Seq<u8>, b: Seq<u8>)
    requires
        0 <= pos <= data.len(),
        data.skip(pos) == a + b,
    ensures
        pos + a.len() <= data.len(),
        data.subrange(pos, pos + a.len()) == a,
        data.skip(pos + a.len()) == b,
{
    assert(data.skip(pos).len() == data.len() - pos);
    assert(data.subrange(pos, pos + a.len()) =~= a) by {
        assert forall|i: int| 0 <= i < a.len() implies data.subrange(pos, pos + a.len())[i] == a[i] by {
            assert(data.skip(pos)[i] == data[pos + i]);
            assert((a + b)[i] == a[i]);
        }
    }
    assert(data.skip(pos + a.len()) =~= b) by {
        assert forall|i: int| 0 <= i < b.len() implies data.skip(pos + a.len())[i] == b[i] by {
            assert(data.skip(pos)[a.len() + i] == data[pos + a.len() + i]);
            assert((a + b)[a.len() + i] == b[i]);
        }
    }
}

/// A part of a record held at `pos` is held at its offset from `pos`.
proof fn lemma_part_at(data: Seq<u8>, pos: int, whole: Seq<u8>, off: int, part: Seq<u8>)
    requires
        0 <= pos,
        0 <= off,
        off + part.len() <= whole.len(),
        pos + whole.len() <= data.len(),
        data.subrange(pos, pos + whole.len()) == whole,
        whole.subrange(off, off + part.len()) == part,
    ensures
        data.subrange(pos + off, pos + off + part.len()) == part,
{
    assert forall|i: int| 0 <= i < part.len() implies data.subrange(
        pos + off,
        pos + off + part.len(),
    )[i] == part[i] by {
        assert(data.subrange(pos, pos + whole.len())[off + i] == data[pos + off + i]);
        assert(whole.subrange(off, off + part.len())[i] == whole[off + i]);
    }
    assert(data.subrange(pos + off, pos + off + part.len()) =~= part);
}

/// A vertex record of the right shape reads back as the vertex.
proof fn lemma_vertex_record_read_back(
    data: Seq<u8>,
    pos: int,
    w: RawVertex,
    has_normals: bool,
    has_colors: bool,
    tail: Seq<u8>,
)
    requires
        (w.normal is Some) == has_normals,
        (w.color is Some) == has_colors,
        0 <= pos <= data.len(),
        data.skip(pos) == vertex_record(w) + tail,
    ensures
        vertex_record(w).len() == vertex_record_len(has_normals, has_colors),
        pos + vertex_record_len(has_normals, has_colors) <= data.len(),
        raw_vertex_at(data, pos, has_normals, has_colors, true) == w,
        data.skip(pos + vertex_record_len(has_normals, has_colors)) == tail,
{
    let rec = vertex_record(w);
    lemma_split_at(data, pos, rec, tail);
    let p = w.position;
    assert(rec.subrange(0, 8) =~= le_bytes_u64(p.0));
    assert(rec.subrange(8, 16) =~= le_bytes_u64(p.1));
    assert(rec.subrange(16, 24) =~= le_bytes_u64(p.2));
    lemma_part_at(data, pos, rec, 0, le_bytes_u64(p.0));
    lemma_part_at(data, pos, rec, 8, le_bytes_u64(p.1));
    lemma_part_at(data, pos, rec, 16, le_bytes_u64(p.2));
    lemma_le_u64_read_back(data, pos, p.0);
    lemma_le_u64_read_back(data, pos + 8, p.1);
    lemma_le_u64_read_back(data, pos + 16, p.2);
    let c0: int = if has_normals {
        48
    } else {
        24
    };
    match w.normal {
        Some(n) => {
            assert(rec.subrange(24, 32) =~= le_bytes_u64(n.0));
            assert(rec.subrange(32, 40) =~= le_bytes_u64(n.1));
            assert(rec.subrange(40, 48) =~= le_bytes_u64(n.2));
            lemma_part_at(data, pos, rec, 24, le_bytes_u64(n.0));
            lemma_part_at(data, pos, rec, 32, le_bytes_u64(n.1));
            lemma_part_at(data, pos, rec, 40, le_bytes_u64(n.2));
            lemma_le_u64_read_back(data, pos + 24, n.0);
            lemma_le_u64_read_back(data, pos + 32, n.1);
            lemma_le_u64_read_back(data, pos + 40, n.2);
        },
        None => {},
    }
    match w.color {
        Some(c) => {
            assert(rec[c0] == c.r);
            assert(rec[c0 + 1] == c.g);
            assert(rec[c0 + 2] == c.b);
            assert(data.subrange(pos, pos + rec.len())[c0] == data[pos + c0]);
            assert(data.subrange(pos, pos + rec.len())[c0 + 1] == data[pos + c0 + 1]);
            assert(data.subrange(pos, pos + rec.len())[c0 + 2] == data[pos + c0 + 2]);
        },
        None => {},
    }
}

/// Records of vertices of the right shape read back as the vertices.
#[verifier::spinoff_prover]
#[verifier::rlimit(40)]
proof fn lemma_vertices_read_back(
    data: Seq<u8>,
    pos: int,
    ws: Seq<RawVertex>,
    has_normals: bool,
    has_colors: bool,
    tail: Seq<u8>,
)
    requires
        forall|i: int|
            0 <= i < ws.len() ==> ((#[trigger] ws[i]).normal is Some) == has_normals && (
            ws[i].color is Some) == has_colors,
        0 <= pos <= data.len(),
        data.skip(pos) == vertices_bytes(ws) + tail,
    ensures
        vertices_from(data, pos, ws.len(), has_normals, has_colors, true) == Some(
            (ws, pos + vertices_bytes(ws).len()),
        ),
    decreases ws.len(),
{
    if ws.len() > 0 {
        let w = ws[0];
        let rest = ws.drop_first();
        let rb = vertices_bytes(rest);
        assert(vertices_bytes(ws) == vertex_record(w) + rb);
        assert(vertex_record(w) + rb + tail =~= vertex_record(w) + (rb + tail));
        lemma_vertex_record_read_back(data, pos, w, has_normals, has_colors, rb + tail);
        let e = pos + vertex_record_len(has_normals, has_colors);
        assert forall|i: int| 0 <= i < rest.len() implies ((#[trigger] rest[i]).normal is Some)
            == has_normals && (rest[i].color is Some) == has_colors by {
            assert(rest[i] == ws[i + 1]);
        }
        lemma_vertices_read_back(data, e, rest, has_normals, has_colors, tail);
        assert(seq![w] + rest =~= ws);
    } else {
        assert(ws =~= Seq::<RawVertex>::empty());
    }
}

/// A triangle record with indices below 2^31 reads back as the triangle.
proof fn lemma_face_record_read_back(data: Seq<u8>, pos: int, f: (usize, usize, usize), tail: Seq<
    u8,
>)
    requires
        f.0 < 0x8000_0000 && f.1 < 0x8000_0000 && f.2 < 0x8000_0000,
        0 <= pos <= data.len(),
        data.skip(pos) == face_record(f) + tail,
    ensures
        pos + 13 <= data.len(),
        data[pos] == 3,
        (i32_at(data, pos + 1, true) as usize, i32_at(data, pos + 5, true) as usize, i32_at(
            data,
            pos + 9,
            true,
        ) as usize) == f,
        data.skip(pos + 13) == tail,
{
    let rec = face_record(f);
    lemma_split_at(data, pos, rec, tail);
    assert(data.subrange(pos, pos + 13)[0] == data[pos]);
    let b0 = le_bytes_u32((f.0 as i32) as u32);
    let b1 = le_bytes_u32((f.1 as i32) as u32);
    let b2 = le_bytes_u32((f.2 as i32) as u32);
    assert(rec.subrange(1, 5) =~= b0);
    assert(rec.subrange(5, 9) =~= b1);
    assert(rec.subrange(9, 13) =~= b2);
    lemma_part_at(data, pos, rec, 1, b0);
    lemma_part_at(data, pos, rec, 5, b1);
    lemma_part_at(data, pos, rec, 9, b2);
    lemma_index_read_back(data, pos + 1, f.0);
    lemma_index_read_back(data, pos + 5, f.1);
    lemma_index_read_back(data, pos + 9, f.2);
}

/// Triangle records with indices below 2^31 read back as the triangles.
proof fn lemma_faces_read_back(
    data: Seq<u8>,
    pos: int,
    fs: Seq<(usize, usize, usize)>,
    tail: Seq<u8>,
)
    requires
        forall|i: int|
            0 <= i < fs.len() ==> (#[trigger] fs[i]).0 < 0x8000_0000 && fs[i].1 < 0x8000_0000
                && fs[i].2 < 0x8000_0000,
        0 <= pos <= data.len(),
        data.skip(pos) == faces_bytes(fs) + tail,
    ensures
        faces_from(data, pos, fs.len(), true) == Some(fs),
    decreases fs.len(),
{
    if fs.len() > 0 {
        let f = fs[0];
        let rest = fs.drop_first();
        let rb = faces_bytes(rest);
        assert(faces_bytes(fs) == face_record(f) + rb);
        assert(face_record(f) + rb + tail =~= face_record(f) + (rb + tail));
        lemma_face_record_read_back(data, pos, f, rb + tail);
        assert forall|i: int| 0 <= i < rest.len() implies (#[trigger] rest[i]).0 < 0x8000_0000
            && rest[i].1 < 0x8000_0000 && rest[i].2 < 0x8000_0000 by {
            assert(rest[i] == fs[i + 1]);
        }
        lemma_faces_read_back(data, pos + 13, rest, tail);
        assert(seq![f] + rest =~= fs);
    } else {
        assert(fs =~= Seq::<(usize, usize, usize)>::empty());
    }
}

/// The vertex property names the writers declare include x, y and z, and
/// nx, ny, nz (or red, green, blue) exactly when normals (or colors) are
/// written.
proof fn lemma_written_names(has_normals: bool, has_colors: bool)
    ensures
        property_names(vertex_properties(has_normals, has_colors)).contains("x"@),
        property_names(vertex_properties(has_normals, has_colors)).contains("y"@),
        property_names(vertex_properties(has_normals, has_colors)).contains("z"@),
        (property_names(vertex_properties(has_normals, has_colors)).contains("nx"@)
            && property_names(vertex_properties(has_normals, has_colors)).contains("ny"@)
            && property_names(vertex_properties(has_normals, has_colors)).contains("nz"@))
            == has_normals,
        (property_names(vertex_properties(has_normals, has_colors)).contains("red"@)
            && property_names(vertex_properties(has_normals, has_colors)).contains("green"@)
            && property_names(vertex_properties(has_normals, has_colors)).contains("blue"@))
            == has_colors,
{
    reveal_strlit("float64");
    reveal_strlit("uchar");
    reveal_strlit("x");
    reveal_strlit("y");
    reveal_strlit("z");
    reveal_strlit("nx");
    reveal_strlit("ny");
    reveal_strlit("nz");
    reveal_strlit("red");
    reveal_strlit("green");
    reveal_strlit("blue");
    let names = property_names(vertex_properties(has_normals, has_colors));
    let k: int = if has_normals {
        6
    } else {
        3
    };
    assert(names[0] == "x"@);
    assert(names[1] == "y"@);
    assert(names[2] == "z"@);
    if has_normals {
        assert(names[3] == "nx"@);
        assert(names[4] == "ny"@);
        assert(names[5] == "nz"@);
    } else {
        assert forall|i: int| 0 <= i < names.len() implies #[trigger] names[i] != "nx"@ by {
            assert(names[i].len() != 2);
        }
    }
    if has_colors {
        assert(names[k] == "red"@);
        assert(names[k + 1] == "green"@);
        assert(names[k + 2] == "blue"@);
    } else {
        assert forall|i: int| 0 <= i < names.len() implies #[trigger] names[i] != "red"@ by {
            assert(names[i].len() != 3);
        }
    }
}

/// The vertices the mesh writer puts out all have a normal when any vertex
/// has one, and a color when any vertex has one.
proof fn lemma_written_shape(vs: Seq<RawVertex>, has_normals: bool, has_colors: bool)
    ensures
        forall|i: int|
            0 <= i < vs.len() ==> ((#[trigger] written_vertices(
                vs,
                has_normals,
                has_colors,
            )[i]).normal is Some) == has_normals && (written_vertices(
                vs,
                has_normals,
                has_colors,
            )[i].color is Some) == has_colors,
{
}

proof fn lemma_little_endian_encoding()
    ensures
        ply_encoding_of("binary_little_endian"@) == Some(PlyEncoding::BinaryLittleEndian),
{
    reveal_strlit("binary_little_endian");
    reveal_strlit("ascii");
    assert("binary_little_endian"@.len() != "ascii"@.len());
}

/// What follows a prefix is what was appended to it.
proof fn lemma_skip_prefix(a: Seq<u8>, b: Seq<u8>)
    ensures
        (a + b).skip(a.len() as int) == b,
{
    assert((a + b).skip(a.len() as int) =~= b);
}

/// Vertex records followed by triangle records read back as the vertices
/// and the triangles.
proof fn lemma_records_read_back(
    data: Seq<u8>,
    pos: int,
    ws: Seq<RawVertex>,
    has_normals: bool,
    has_colors: bool,
    fs: Seq<(usize, usize, usize)>,
)
    requires
        forall|i: int|
            0 <= i < ws.len() ==> ((#[trigger] ws[i]).normal is Some) == has_normals && (
            ws[i].color is Some) == has_colors,
        forall|i: int|
            0 <= i < fs.len() ==> (#[trigger] fs[i]).0 < 0x8000_0000 && fs[i].1 < 0x8000_0000
                && fs[i].2 < 0x8000_0000,
        0 <= pos <= data.len(),
        data.skip(pos) == vertices_bytes(ws) + faces_bytes(fs),
    ensures
        vertices_from(data, pos, ws.len(), has_normals, has_colors, true) == Some(
            (ws, pos + vertices_bytes(ws).len()),
        ),
        faces_from(data, pos + vertices_bytes(ws).len(), fs.len(), true) == Some(fs),
{
    let vb = vertices_bytes(ws);
    let fb = faces_bytes(fs);
    lemma_vertices_read_back(data, pos, ws, has_normals, has_colors, fb);
    lemma_split_at(data, pos, vb, fb);
    assert(fb + Seq::<u8>::empty() =~= fb);
    lemma_faces_read_back(data, pos + vb.len(), fs, Seq::<u8>::empty());
}

/// The body of a file the mesh writer put out, read with the header it
/// declared, gives the vertices as written and the triangles.
proof fn lemma_mesh_body_read_back(
    vs: Seq<RawVertex>,
    fs: Seq<(usize, usize, usize)>,
    h: MeshPlyHeader,
)
    requires
        forall|i: int|
            0 <= i < fs.len() ==> (#[trigger] fs[i]).0 < 0x8000_0000 && fs[i].1 < 0x8000_0000
                && fs[i].2 < 0x8000_0000,
        h.encoding == PlyEncoding::BinaryLittleEndian,
        h.vertex_count == vs.len(),
        h.face_count == fs.len(),
        h.has_normals == any_normal(vs),
        h.has_colors == any_color(vs),
        h.data_offset == flatten(
            mesh_header_lines(vs.len(), fs.len(), any_normal(vs), any_color(vs)),
        ).len(),
    ensures
        mesh_body_of(encoded_mesh(vs, fs), h) == Some(
            (written_vertices(vs, any_normal(vs), any_color(vs)), fs),
        ),
{
    let hn = any_normal(vs);
    let hc = any_color(vs);
    let header = ascii_bytes(flatten(mesh_header_lines(vs.len(), fs.len(), hn, hc)));
    let ws = written_vertices(vs, hn, hc);
    let vb = vertices_bytes(ws);
    let fb = faces_bytes(fs);
    let data = encoded_mesh(vs, fs);
    assert(data == header + vb + fb);
    assert(header + vb + fb == header + (vb + fb)) by {
        assert(header + vb + fb =~= header + (vb + fb));
    }
    lemma_skip_prefix(header, vb + fb);
    lemma_written_shape(vs, hn, hc);
    assert(header.len() == h.data_offset);
    lemma_records_read_back(data, h.data_offset as int, ws, hn, hc, fs);
}

/// Whatever the mesh reader makes of the header of a file the mesh writer
/// put out, it reads the header back as binary little-endian and the body
/// as the vertices as written (normals and colors filled in when any vertex
/// has them) and the triangles, as long as every index is below 2^31.
pub proof fn law_mesh_ply_read_back(
    vs: Seq<RawVertex>,
    fs: Seq<(usize, usize, usize)>,
    r: Result<MeshPlyHeader, PointCloudError>,
)
    requires
        vs.len() <= usize::MAX,
        fs.len() <= usize::MAX,
        forall|i: int|
            0 <= i < fs.len() ==> (#[trigger] fs[i]).0 < 0x8000_0000 && fs[i].1 < 0x8000_0000
                && fs[i].2 < 0x8000_0000,
    ensures
        mesh_header_ok(encoded_mesh(vs, fs), r) ==> (r matches Ok(h) && h.encoding
            == PlyEncoding::BinaryLittleEndian && mesh_body_of(encoded_mesh(vs, fs), h) == Some(
            (written_vertices(vs, any_normal(vs), any_color(vs)), fs),
        )),
{
    let hn = any_normal(vs);
    let hc = any_color(vs);
    let n = vs.len() as usize;
    let f = fs.len() as usize;
    let header = ascii_bytes(flatten(mesh_header_lines(n as nat, f as nat, hn, hc)));
    let vb = vertices_bytes(written_vertices(vs, hn, hc));
    let fb = faces_bytes(fs);
    let data = encoded_mesh(vs, fs);
    assert(data =~= header + (vb + fb));
    law_mesh_header_read_back(n, f, hn, hc, vb + fb);
    let s = written_mesh_scan(n, f, hn, hc);
    lemma_written_names(hn, hc);
    lemma_little_endian_encoding();
    if mesh_header_ok(data, r) {
        assert(mesh_scan_from(data, 0, mesh_scan_start()) == Ok::<MeshScan, IoErrorKind>(s));
        let h = r->Ok_0;
        assert(mesh_header_matches(h, s));
        lemma_mesh_body_read_back(vs, fs, h);
    }
}

} // verus!

use vstd::prelude::*;
use vstd::slice::slice_subrange;
use vstd::utf8::{decode_utf8, valid_utf8};
use crate::error::{IoErrorKind, PointCloudError};
use crate::io::MeshReader;
use crate::types::{Color, TriangleFace};
use crate::bytes::{be_u32, be_u64, le_u32, le_u64, read_be_i32, read_be_u64, read_le_i32, read_le_u64};
use crate::ply::{
    ascii_bytes, find_line_end, flatten, lemma_ascii_bytes_concat, lemma_line_bytes,
    lemma_line_end_bounds, line_end, well_formed_line, well_formed_lines,
};
use crate::text::{
    chars_eq_str, chars_starts_with_str, chars_to_string, concat_chars, parse_usize,
    parse_usize_chars, split_ws, starts_with, str_chars, trim, trim_chars, utf8_decode, words,
    words_view,
};

verus! {

/// How the body of a mesh PLY file is encoded.
#[derive(Debug, Clone, Copy, PartialEq, Eq)]
pub enum PlyEncoding {
    Ascii,
    BinaryLittleEndian,
    BinaryBigEndian,
}

/// What the header of a mesh PLY file says.
#[derive(Debug, Clone, Copy, PartialEq, Eq)]
pub struct MeshPlyHeader {
    pub encoding: PlyEncoding,
    pub vertex_count: usize,
    pub face_count: usize,
    /// The vertices have `nx`, `ny` and `nz`.
    pub has_normals: bool,
    /// The vertices have `red`, `green` and `blue`.
    pub has_colors: bool,
    /// Where the body starts: just past the line that ended the header.
    pub data_offset: usize,
}

/// The state of the mesh PLY header scan.
pub struct MeshScan {
    pub format: Seq<char>,
    pub vertex_count: usize,
    pub face_count: usize,
    pub names: Seq<Seq<char>>,
    pub in_vertex: bool,
    pub data_offset: nat,
}

/// The scan state before the first line.
pub open spec fn mesh_scan_start() -> MeshScan {
    MeshScan {
        format: "ascii"@,
        vertex_count: 0,
        face_count: 0,
        names: seq![],
        in_vertex: false,
        data_offset: 0,
    }
}

/// The number in the third word, or 0.
pub open spec fn third_number(ws: Seq<Seq<char>>) -> usize {
    match parse_usize(ws[2]) {
        Some(n) => n,
        None => 0,
    }
}

/// The effect of one header line, and whether the header ends with it.
pub open spec fn mesh_scan_line(st: MeshScan, line: Seq<char>) -> (MeshScan, bool) {
    let t = trim(line);
    let ws = words(t);
    if t == "ply"@ {
        (st, false)
    } else if starts_with(t, "format"@) {
        if ws.len() >= 2 {
            (MeshScan { format: ws[1], ..st }, false)
        } else {
            (st, false)
        }
    } else if starts_with(t, "element vertex"@) {
        if ws.len() >= 3 {
            (MeshScan { in_vertex: true, vertex_count: third_number(ws), ..st }, false)
        } else {
            (MeshScan { in_vertex: true, ..st }, false)
        }
    } else if starts_with(t, "element face"@) {
        if ws.len() >= 3 {
            (MeshScan { in_vertex: false, face_count: third_number(ws), ..st }, false)
        } else {
            (MeshScan { in_vertex: false, ..st }, false)
        }
    } else if starts_with(t, "element"@) {
        (MeshScan { in_vertex: false, ..st }, false)
    } else if starts_with(t, "property"@) && st.in_vertex {
        if ws.len() >= 3 {
            (MeshScan { names: st.names.push(ws[2]), ..st }, false)
        } else {
            (st, false)
        }
    } else if t == "end_header"@ {
        (st, true)
    } else {
        (st, false)
    }
}

/// The mesh PLY header scan from byte `pos` on.
pub open spec fn mesh_scan_from(data: Seq<u8>, pos: int, st: MeshScan) -> Result<MeshScan, IoErrorKind>
    decreases data.len() - pos,
{
    if pos < 0 || pos >= data.len() {
        Ok(st)
    } else {
        let e = line_end(data, pos);
        proof {
            lemma_line_end_bounds(data, pos);
        }
        let bytes = data.subrange(pos, e);
        if !valid_utf8(bytes) {
            Err(IoErrorKind::InvalidData)
        } else {
            let (st2, stop) = mesh_scan_line(
                MeshScan { data_offset: e as nat, ..st },
                decode_utf8(bytes),
            );
            if stop {
                Ok(st2)
            } else {
                mesh_scan_from(data, e, st2)
            }
        }
    }
}

/// The mesh header scan over well-formed lines starting at byte `pos`, and
/// whether it stopped.
pub open spec fn mesh_fold(st: MeshScan, pos: int, ls: Seq<Seq<char>>) -> (MeshScan, bool)
    decreases ls.len(),
{
    if ls.len() == 0 {
        (st, false)
    } else {
        let e = pos + ls[0].len();
        let (st2, stop) = mesh_scan_line(MeshScan { data_offset: e as nat, ..st }, ls[0]);
        if stop {
            (st2, true)
        } else {
            mesh_fold(st2, e, ls.drop_first())
        }
    }
}

/// Scanning data that holds the lines `ls` at `pos` folds the lines.
pub proof fn lemma_mesh_scan_lines(
    data: Seq<u8>,
    pos: int,
    st: MeshScan,
    ls: Seq<Seq<char>>,
    rest: Seq<u8>,
)
    requires
        well_formed_lines(ls),
        0 <= pos <= data.len(),
        data.skip(pos) == ascii_bytes(flatten(ls)) + rest,
    ensures
        mesh_fold(st, pos, ls).1 ==> mesh_scan_from(data, pos, st) == Ok::<MeshScan, IoErrorKind>(
            mesh_fold(st, pos, ls).0,
        ),
        !mesh_fold(st, pos, ls).1 ==> mesh_scan_from(data, pos, st) == mesh_scan_from(
            data,
            pos + flatten(ls).len(),
            mesh_fold(st, pos, ls).0,
        ),
    decreases ls.len(),
{
    if ls.len() > 0 {
        let l = ls[0];
        assert(well_formed_line(l));
        let more = ls.drop_first();
        assert(well_formed_lines(more)) by {
            assert forall|i: int| 0 <= i < more.len() implies well_formed_line(#[trigger] more[i]) by {
                assert(more[i] == ls[i + 1]);
            }
        }
        lemma_ascii_bytes_concat(l, flatten(more));
        assert(ascii_bytes(flatten(ls)) + rest =~= ascii_bytes(l) + (ascii_bytes(flatten(more))
            + rest));
        lemma_line_bytes(data, pos, l, ascii_bytes(flatten(more)) + rest);
        let e = pos + l.len();
        let (st2, stop) = mesh_scan_line(MeshScan { data_offset: e as nat, ..st }, l);
        if !stop {
            lemma_mesh_scan_lines(data, e, st2, more, rest);
        }
    }
}

pub proof fn lemma_mesh_fold_concat(st: MeshScan, pos: int, a: Seq<Seq<char>>, b: Seq<Seq<char>>)
    ensures
        mesh_fold(st, pos, a + b) == (if mesh_fold(st, pos, a).1 {
            mesh_fold(st, pos, a)
        } else {
            mesh_fold(mesh_fold(st, pos, a).0, pos + flatten(a).len(), b)
        }),
    decreases a.len(),
{
    if a.len() == 0 {
        assert(a + b =~= b);
    } else {
        assert((a + b)[0] == a[0]);
        assert((a + b).drop_first() =~= a.drop_first() + b);
        let e = pos + a[0].len();
        let (st2, stop) = mesh_scan_line(MeshScan { data_offset: e as nat, ..st }, a[0]);
        if !stop {
            lemma_mesh_fold_concat(st2, e, a.drop_first(), b);
        }
    }
}

/// The vertex properties named in a mesh header scan include `n`.
pub open spec fn has_name(s: MeshScan, n: Seq<char>) -> bool {
    s.names.contains(n)
}

/// The message of the error for a header without positions.
pub open spec fn missing_xyz_message() -> Seq<char> {
    "PLY文件缺少x/y/z字段"@
}

/// The message of the error for an unknown encoding.
pub open spec fn unsupported_ply_format_message(format: Seq<char>) -> Seq<char> {
    "不支持的PLY格式: "@ + format
}

/// The encoding a format word names.
pub open spec fn ply_encoding_of(format: Seq<char>) -> Option<PlyEncoding> {
    if format == "ascii"@ {
        Some(PlyEncoding::Ascii)
    } else if format == "binary_little_endian"@ {
        Some(PlyEncoding::BinaryLittleEndian)
    } else if format == "binary_big_endian"@ {
        Some(PlyEncoding::BinaryBigEndian)
    } else {
        None
    }
}

/// `h` is the header the scan `s` describes.
pub open spec fn mesh_header_matches(h: MeshPlyHeader, s: MeshScan) -> bool {
    &&& ply_encoding_of(s.format) == Some(h.encoding)
    &&& h.vertex_count == s.vertex_count
    &&& h.face_count == s.face_count
    &&& h.has_normals == (has_name(s, "nx"@) && has_name(s, "ny"@) && has_name(s, "nz"@))
    &&& h.has_colors == (has_name(s, "red"@) && has_name(s, "green"@) && has_name(s, "blue"@))
    &&& h.data_offset == s.data_offset
}

/// The outcome of reading a mesh PLY header from `data`: an input error, a
/// header without x, y and z, an unknown encoding, or the header.
pub open spec fn mesh_header_ok(data: Seq<u8>, r: Result<MeshPlyHeader, PointCloudError>) -> bool {
    match mesh_scan_from(data, 0, mesh_scan_start()) {
        Err(k) => r == Err::<MeshPlyHeader, PointCloudError>(PointCloudError::IoError(k)),
        Ok(s) => if !(has_name(s, "x"@) && has_name(s, "y"@) && has_name(s, "z"@)) {
            r matches Err(PointCloudError::ParseError(m)) && m@ == missing_xyz_message()
        } else if ply_encoding_of(s.format) is None {
            r matches Err(PointCloudError::ParseError(m)) && m@ == unsupported_ply_format_message(
                s.format,
            )
        } else {
            r matches Ok(h) && mesh_header_matches(h, s)
        },
    }
}

/// `names` includes the literal `lit`.
fn names_contain(names: &Vec<Vec<char>>, lit: &str) -> (r: bool)
    ensures
        r == names@.map_values(|n: Vec<char>| n@).contains(lit@),
{
    let mut i: usize = 0;
    while i < names.len()
        invariant
            i <= names.len(),
            forall|j: int| 0 <= j < i ==> names@[j]@ != lit@,
        decreases names.len() - i,
    {
        if chars_eq_str(names[i].as_slice(), lit) {
            assert(names@.map_values(|n: Vec<char>| n@)[i as int] == lit@);
            return true;
        }
        i = i + 1;
    }
    let ghost nv = names@.map_values(|n: Vec<char>| n@);
    assert forall|j: int| 0 <= j < nv.len() implies #[trigger] nv[j] != lit@ by {
        assert(nv[j] == names@[j]@);
    }
    false
}

impl MeshReader {
    /// Reads the header of a mesh PLY file from the start of `data`.
    pub fn parse_ply_header(&self, data: &[u8]) -> (r: Result<MeshPlyHeader, PointCloudError>)
        ensures
            mesh_header_ok(data@, r),
    {
        let mut format = str_chars("ascii");
        let mut vertex_count: usize = 0;
        let mut face_count: usize = 0;
        let mut names: Vec<Vec<char>> = Vec::new();
        let mut in_vertex = false;
        let mut pos: usize = 0;
        let ghost scan = mesh_scan_from(data@, 0, mesh_scan_start());
        assert(names@.map_values(|n: Vec<char>| n@) =~= seq![]);
        let mut stopped = false;
        while pos < data.len() && !stopped
            invariant
                pos <= data.len(),
                scan == mesh_scan_from(data@, 0, mesh_scan_start()),
                !stopped ==> scan == mesh_scan_from(
                    data@,
                    pos as int,
                    MeshScan {
                        format: format@,
                        vertex_count,
                        face_count,
                        names: names@.map_values(|n: Vec<char>| n@),
                        in_vertex,
                        data_offset: pos as nat,
                    },
                ),
                stopped ==> scan == Ok::<MeshScan, IoErrorKind>(
                    MeshScan {
                        format: format@,
                        vertex_count,
                        face_count,
                        names: names@.map_values(|n: Vec<char>| n@),
                        in_vertex,
                        data_offset: pos as nat,
                    },
                ),
            decreases data.len() - pos,
        {
            let e = find_line_end(data, pos);
            let bytes = slice_subrange(data, pos, e);
            let s = match utf8_decode(bytes) {
                None => {
                    return Err(PointCloudError::IoError(IoErrorKind::InvalidData));
                },
                Some(s) => s,
            };
            let line = str_chars(s);
            let t = trim_chars(line.as_slice());
            let t = t.as_slice();
            let ws = split_ws(t);
            assert(ws@.len() == words(t@).len());
            if chars_eq_str(t, "ply") {
            } else if chars_starts_with_str(t, "format") {
                if ws.len() >= 2 {
                    assert(ws@[1]@ == words(t@)[1]);
                    format = ws[1].clone();
                    assert(format@ == ws@[1]@);
                }
            } else if chars_starts_with_str(t, "element vertex") {
                in_vertex = true;
                if ws.len() >= 3 {
                    assert(ws@[2]@ == words(t@)[2]);
                    vertex_count = match parse_usize_chars(ws[2].as_slice()) {
                        Some(n) => n,
                        None => 0,
                    };
                }
            } else if chars_starts_with_str(t, "element face") {
                in_vertex = false;
                if ws.len() >= 3 {
                    assert(ws@[2]@ == words(t@)[2]);
                    face_count = match parse_usize_chars(ws[2].as_slice()) {
                        Some(n) => n,
                        None => 0,
                    };
                }
            } else if chars_starts_with_str(t, "element") {
                in_vertex = false;
            } else if chars_starts_with_str(t, "property") && in_vertex {
                if ws.len() >= 3 {
                    assert(ws@[2]@ == words(t@)[2]);
                    let ghost before = names@.map_values(|n: Vec<char>| n@);
                    let w = ws[2].clone();
                    assert(w@ == ws@[2]@);
                    names.push(w);
                    assert(names@.map_values(|n: Vec<char>| n@) =~= before.push(words(t@)[2]));
                }
            } else if chars_eq_str(t, "end_header") {
                stopped = true;
            }
            pos = e;
        }
        let ghost names_view = names@.map_values(|n: Vec<char>| n@);
        let has_x = names_contain(&names, "x");
        let has_y = names_contain(&names, "y");
        let has_z = names_contain(&names, "z");
        if !has_x || !has_y || !has_z {
            return Err(PointCloudError::ParseError(chars_to_string(str_chars("PLY文件缺少x/y/z字段").as_slice())));
        }
        let has_normals = names_contain(&names, "nx") && names_contain(&names, "ny")
            && names_contain(&names, "nz");
        let has_colors = names_contain(&names, "red") && names_contain(&names, "green")
            && names_contain(&names, "blue");
        let f = format.as_slice();
        let encoding = if chars_eq_str(f, "ascii") {
            PlyEncoding::Ascii
        } else if chars_eq_str(f, "binary_little_endian") {
            PlyEncoding::BinaryLittleEndian
        } else if chars_eq_str(f, "binary_big_endian") {
            PlyEncoding::BinaryBigEndian
        } else {
            let msg = concat_chars(str_chars("不支持的PLY格式: ").as_slice(), f);
            return Err(PointCloudError::ParseError(chars_to_string(msg.as_slice())));
        };
        Ok(
            MeshPlyHeader {
                encoding,
                vertex_count,
                face_count,
                has_normals,
                has_colors,
                data_offset: pos,
            },
        )
    }
}

} // verus!

verus! {

/// A mesh vertex as a binary PLY body holds it: the coordinates and the
/// normal are the bit patterns of IEEE-754 doubles.
#[derive(Debug, Clone, Copy, PartialEq, Eq)]
pub struct RawVertex {
    pub position: (u64, u64, u64),
    pub normal: Option<(u64, u64, u64)>,
    pub color: Option<Color>,
}

/// A mesh whose coordinates are kept as bit patterns.
#[derive(Debug, Clone, PartialEq, Eq)]
pub struct RawMesh {
    pub vertices: Vec<RawVertex>,
    pub faces: Vec<TriangleFace>,
}

/// The three corners of a face.
pub open spec fn face_view(f: TriangleFace) -> (usize, usize, usize) {
    (f.indices[0], f.indices[1], f.indices[2])
}

/// The corners of each face.
pub open spec fn faces_view(fs: Seq<TriangleFace>) -> Seq<(usize, usize, usize)> {
    fs.map_values(|f: TriangleFace| face_view(f))
}

/// The size of one vertex record in a binary body.
pub open spec fn vertex_record_len(has_normals: bool, has_colors: bool) -> int {
    24 + (if has_normals {
        24int
    } else {
        0int
    }) + (if has_colors {
        3int
    } else {
        0int
    })
}

/// The bit pattern of the double at `pos`.
pub open spec fn f64_bits_at(data: Seq<u8>, pos: int, le: bool) -> u64 {
    if le {
        le_u64(data, pos) as u64
    } else {
        be_u64(data, pos) as u64
    }
}

/// The 32-bit signed integer at `pos`.
pub open spec fn i32_at(data: Seq<u8>, pos: int, le: bool) -> i32 {
    if le {
        le_u32(data, pos) as i32
    } else {
        be_u32(data, pos) as i32
    }
}

/// The vertex record at `pos`: x, y, z, then the normal and the color when
/// the header has them.
pub open spec fn raw_vertex_at(
    data: Seq<u8>,
    pos: int,
    has_normals: bool,
    has_colors: bool,
    le: bool,
) -> RawVertex {
    let c = pos + 24 + (if has_normals {
        24int
    } else {
        0int
    });
    RawVertex {
        position: (
            f64_bits_at(data, pos, le),
            f64_bits_at(data, pos + 8, le),
            f64_bits_at(data, pos + 16, le),
        ),
        normal: if has_normals {
            Some(
                (
                    f64_bits_at(data, pos + 24, le),
                    f64_bits_at(data, pos + 32, le),
                    f64_bits_at(data, pos + 40, le),
                ),
            )
        } else {
            None
        },
        color: if has_colors {
            Some(Color { r: data[c], g: data[c + 1], b: data[c + 2] })
        } else {
            None
        },
    }
}

/// `n` vertex records from `pos` on and the position after them, or `None`
/// when the data ends first.
pub open spec fn vertices_from(
    data: Seq<u8>,
    pos: int,
    n: nat,
    has_normals: bool,
    has_colors: bool,
    le: bool,
) -> Option<(Seq<RawVertex>, int)>
    decreases n,
{
    if n == 0 {
        Some((seq![], pos))
    } else if pos < 0 || pos + vertex_record_len(has_normals, has_colors) > data.len() {
        None
    } else {
        match vertices_from(
            data,
            pos + vertex_record_len(has_normals, has_colors),
            (n - 1) as nat,
            has_normals,
            has_colors,
            le,
        ) {
            None => None,
            Some((vs, e)) => Some(
                (seq![raw_vertex_at(data, pos, has_normals, has_colors, le)] + vs, e),
            ),
        }
    }
}

/// `n` face records from `pos` on, or `None` when the data ends first. A
/// record is a count byte and that many 32-bit indices; only triangles are
/// kept, their indices converted to `usize`.
pub open spec fn faces_from(data: Seq<u8>, pos: int, n: nat, le: bool) -> Option<
    Seq<(usize, usize, usize)>,
>
    decreases n,
{
    if n == 0 {
        Some(seq![])
    } else if pos < 0 || pos + 1 > data.len() {
        None
    } else if data[pos] == 3 {
        if pos + 13 > data.len() {
            None
        } else {
            match faces_from(data, pos + 13, (n - 1) as nat, le) {
                None => None,
                Some(fs) => Some(
                    seq![
                        (
                            i32_at(data, pos + 1, le) as usize,
                            i32_at(data, pos + 5, le) as usize,
                            i32_at(data, pos + 9, le) as usize,
                        ),
                    ] + fs,
                ),
            }
        }
    } else if pos + 1 + 4 * data[pos] > data.len() {
        None
    } else {
        faces_from(data, pos + 1 + 4 * data[pos], (n - 1) as nat, le)
    }
}

/// The vertices and faces of a binary mesh body, or `None` when the data
/// ends first.
pub open spec fn mesh_body_of(data: Seq<u8>, h: MeshPlyHeader) -> Option<
    (Seq<RawVertex>, Seq<(usize, usize, usize)>),
> {
    let le = h.encoding == PlyEncoding::BinaryLittleEndian;
    match vertices_from(
        data,
        h.data_offset as int,
        h.vertex_count as nat,
        h.has_normals,
        h.has_colors,
        le,
    ) {
        None => None,
        Some((vs, e)) => match faces_from(data, e, h.face_count as nat, le) {
            None => None,
            Some(fs) => Some((vs, fs)),
        },
    }
}

/// Some prefix `acc` in front of an optional result.
pub open spec fn prepend_vertices(acc: Seq<RawVertex>, o: Option<(Seq<RawVertex>, int)>) -> Option<
    (Seq<RawVertex>, int),
> {
    match o {
        None => None,
        Some((vs, e)) => Some((acc + vs, e)),
    }
}

/// Some prefix `acc` in front of an optional result.
pub open spec fn prepend_faces(
    acc: Seq<(usize, usize, usize)>,
    o: Option<Seq<(usize, usize, usize)>>,
) -> Option<Seq<(usize, usize, usize)>> {
    match o {
        None => None,
        Some(fs) => Some(acc + fs),
    }
}

/// The double at `pos` as bits.
fn read_f64_bits(data: &[u8], pos: usize, le: bool) -> (r: u64)
    requires
        pos + 8 <= data.len(),
    ensures
        r == f64_bits_at(data@, pos as int, le),
{
    if le {
        read_le_u64(data, pos)
    } else {
        read_be_u64(data, pos)
    }
}

/// The vertex record at `pos`.
fn read_raw_vertex(data: &[u8], pos: usize, has_normals: bool, has_colors: bool, le: bool) -> (r:
    RawVertex)
    requires
        pos + vertex_record_len(has_normals, has_colors) <= data.len(),
    ensures
        r == raw_vertex_at(data@, pos as int, has_normals, has_colors, le),
{
    let position = (
        read_f64_bits(data, pos, le),
        read_f64_bits(data, pos + 8, le),
        read_f64_bits(data, pos + 16, le),
    );
    let normal = if has_normals {
        Some(
            (
                read_f64_bits(data, pos + 24, le),
                read_f64_bits(data, pos + 32, le),
                read_f64_bits(data, pos + 40, le),
            ),
        )
    } else {
        None
    };
    let c = pos + 24 + if has_normals {
        24
    } else {
        0
    };
    let color = if has_colors {
        Some(Color { r: data[c], g: data[c + 1], b: data[c + 2] })
    } else {
        None
    };
    RawVertex { position, normal, color }
}

/// One vertex record read: it moves from the rest to the prefix.
proof fn lemma_vertices_step(
    data: Seq<u8>,
    pos: int,
    m: nat,
    hn: bool,
    hc: bool,
    le: bool,
    acc: Seq<RawVertex>,
)
    requires
        m > 0,
    ensures
        0 <= pos && pos + vertex_record_len(hn, hc) <= data.len() ==> prepend_vertices(
            acc,
            vertices_from(data, pos, m, hn, hc, le),
        ) == prepend_vertices(
            acc.push(raw_vertex_at(data, pos, hn, hc, le)),
            vertices_from(data, pos + vertex_record_len(hn, hc), (m - 1) as nat, hn, hc, le),
        ),
        !(0 <= pos && pos + vertex_record_len(hn, hc) <= data.len()) ==> vertices_from(
            data,
            pos,
            m,
            hn,
            hc,
            le,
        ) is None,
{
    let v = raw_vertex_at(data, pos, hn, hc, le);
    match vertices_from(data, pos + vertex_record_len(hn, hc), (m - 1) as nat, hn, hc, le) {
        None => {},
        Some((vs, e)) => {
            assert(acc + (seq![v] + vs) =~= acc.push(v) + vs);
        },
    }
}

/// One face record read: a triangle moves from the rest to the prefix,
/// another record is skipped.
proof fn lemma_faces_step(
    data: Seq<u8>,
    pos: int,
    m: nat,
    le: bool,
    acc: Seq<(usize, usize, usize)>,
)
    requires
        m > 0,
        0 <= pos < data.len(),
    ensures
        data[pos] == 3 && pos + 13 <= data.len() ==> prepend_faces(
            acc,
            faces_from(data, pos, m, le),
        ) == prepend_faces(
            acc.push(
                (
                    i32_at(data, pos + 1, le) as usize,
                    i32_at(data, pos + 5, le) as usize,
                    i32_at(data, pos + 9, le) as usize,
                ),
            ),
            faces_from(data, pos + 13, (m - 1) as nat, le),
        ),
        data[pos] == 3 && pos + 13 > data.len() ==> faces_from(data, pos, m, le) is None,
        data[pos] != 3 && pos + 1 + 4 * data[pos] <= data.len() ==> faces_from(data, pos, m, le)
            == faces_from(data, pos + 1 + 4 * data[pos], (m - 1) as nat, le),
        data[pos] != 3 && pos + 1 + 4 * data[pos] > data.len() ==> faces_from(data, pos, m, le) is None,
{
    let f = (
        i32_at(data, pos + 1, le) as usize,
        i32_at(data, pos + 5, le) as usize,
        i32_at(data, pos + 9, le) as usize,
    );
    if data[pos] == 3 && pos + 13 <= data.len() {
        match faces_from(data, pos + 13, (m - 1) as nat, le) {
            None => {},
            Some(fs) => {
                assert(acc + (seq![f] + fs) =~= acc.push(f) + fs);
            },
        }
    }
}

impl MeshReader {
    /// Decodes the body of a binary mesh PLY file: `vertex_count` records of
    /// doubles x, y, z (then nx, ny, nz and the bytes red, green, blue when
    /// present), then `face_count` index lists; running out of data fails.
    pub fn decode_ply_binary(&self, data: &[u8], header: &MeshPlyHeader) -> (r: Result<
        RawMesh,
        PointCloudError,
    >)
        requires
            header.encoding != PlyEncoding::Ascii,
        ensures
            match mesh_body_of(data@, *header) {
                None => r == Err::<RawMesh, PointCloudError>(
                    PointCloudError::IoError(IoErrorKind::UnexpectedEof),
                ),
                Some((vs, fs)) => r matches Ok(m) && m.vertices@ == vs && faces_view(m.faces@)
                    == fs,
            },
    {
        let le = match header.encoding {
            PlyEncoding::BinaryLittleEndian => true,
            _ => false,
        };
        let hn = header.has_normals;
        let hc = header.has_colors;
        let vlen: usize = 24 + (if hn {
            24
        } else {
            0
        }) + (if hc {
            3
        } else {
            0
        });
        let n = header.vertex_count;
        let ghost all_v = vertices_from(data@, header.data_offset as int, n as nat, hn, hc, le);
        let mut pos = header.data_offset;
        let mut vertices: Vec<RawVertex> = Vec::new();
        let mut k: usize = 0;
        assert(prepend_vertices(seq![], all_v) == all_v) by {
            match all_v {
                None => {},
                Some((vs, e)) => {
                    assert(seq![] + vs =~= vs);
                },
            }
        }
        while k < n
            invariant
                k <= n,
                vlen == vertex_record_len(hn, hc),
                le == (header.encoding == PlyEncoding::BinaryLittleEndian),
                hn == header.has_normals,
                hc == header.has_colors,
                n == header.vertex_count,
                all_v == vertices_from(data@, header.data_offset as int, n as nat, hn, hc, le),
                all_v == prepend_vertices(
                    vertices@,
                    vertices_from(data@, pos as int, (n - k) as nat, hn, hc, le),
                ),
            decreases n - k,
        {
            if !(pos <= data.len() && data.len() - pos >= vlen) {
                proof {
                    lemma_vertices_step(data@, pos as int, (n - k) as nat, hn, hc, le, vertices@);
                }
                return Err(PointCloudError::IoError(IoErrorKind::UnexpectedEof));
            }
            let v = read_raw_vertex(data, pos, hn, hc, le);
            proof {
                lemma_vertices_step(data@, pos as int, (n - k) as nat, hn, hc, le, vertices@);
            }
            vertices.push(v);
            pos = pos + vlen;
            k = k + 1;
        }
        let ghost all_f = faces_from(data@, pos as int, header.face_count as nat, le);
        assert(all_v == Some((vertices@, pos as int)));
        let ghost body = mesh_body_of(data@, *header);
        assert(body == match all_f {
            None => None,
            Some(fs) => Some((vertices@, fs)),
        });
        let m = header.face_count;
        let mut faces: Vec<TriangleFace> = Vec::new();
        let mut j: usize = 0;
        assert(prepend_faces(seq![], all_f) == all_f) by {
            match all_f {
                None => {},
                Some(fs) => {
                    assert(seq![] + fs =~= fs);
                },
            }
        }
        assert(faces_view(faces@) =~= seq![]);
        while j < m
            invariant
                j <= m,
                body == mesh_body_of(data@, *header),
                body == match all_f {
                    None => None,
                    Some(fs) => Some((vertices@, fs)),
                },
                all_f == prepend_faces(
                    faces_view(faces@),
                    faces_from(data@, pos as int, (m - j) as nat, le),
                ),
            decreases m - j,
        {
            if pos >= data.len() {
                assert(faces_from(data@, pos as int, (m - j) as nat, le) is None);
                return Err(PointCloudError::IoError(IoErrorKind::UnexpectedEof));
            }
            let count = data[pos];
            proof {
                lemma_faces_step(data@, pos as int, (m - j) as nat, le, faces_view(faces@));
            }
            if count == 3 {
                if data.len() - pos < 13 {
                    return Err(PointCloudError::IoError(IoErrorKind::UnexpectedEof));
                }
                let (i0, i1, i2) = if le {
                    (read_le_i32(data, pos + 1), read_le_i32(data, pos + 5), read_le_i32(data, pos + 9))
                } else {
                    (read_be_i32(data, pos + 1), read_be_i32(data, pos + 5), read_be_i32(data, pos + 9))
                };
                let f = TriangleFace { indices: [i0 as usize, i1 as usize, i2 as usize] };
                proof {
                    lemma_faces_step(data@, pos as int, (m - j) as nat, le, faces_view(faces@));
                }
                let ghost before = faces_view(faces@);
                faces.push(f);
                assert(faces_view(faces@) =~= before.push(face_view(f)));
                pos = pos + 13;
            } else {
                let skip: usize = 1 + 4 * (count as usize);
                if data.len() - pos < skip {
                    return Err(PointCloudError::IoError(IoErrorKind::UnexpectedEof));
                }
                pos = pos + skip;
            }
            j = j + 1;
        }
        assert(faces_view(faces@) + seq![] =~= faces_view(faces@));
        Ok(RawMesh { vertices, faces })
    }
}

/// The triangle an ASCII face line with the words `ws` gives: a line of at
/// least four words whose count is 3; an index that is not a number reads
/// as 0.
pub open spec fn ascii_face_of(ws: Seq<Seq<char>>) -> Option<(usize, usize, usize)> {
    let num = |w: Seq<char>|
        match parse_usize(w) {
            Some(n) => n,
            None => 0usize,
        };
    if ws.len() >= 4 && num(ws[0]) == 3 {
        Some((num(ws[1]), num(ws[2]), num(ws[3])))
    } else {
        None
    }
}

/// The number in `w`, or 0.
fn number_or_zero(w: &[char]) -> (r: usize)
    ensures
        r == match parse_usize(w@) {
            Some(n) => n,
            None => 0usize,
        },
{
    match parse_usize_chars(w) {
        Some(n) => n,
        None => 0,
    }
}

impl MeshReader {
    /// The triangle of a face line of an ASCII mesh PLY body, given its
    /// words.
    pub fn parse_ascii_face(&self, ws: &[Vec<char>]) -> (r: Option<TriangleFace>)
        ensures
            match ascii_face_of(words_view(ws@)) {
                None => r is None,
                Some(f) => r matches Some(t) && face_view(t) == f,
            },
    {
        if ws.len() < 4 {
            return None;
        }
        assert(ws@[0]@ == words_view(ws@)[0]);
        assert(ws@[1]@ == words_view(ws@)[1]);
        assert(ws@[2]@ == words_view(ws@)[2]);
        assert(ws@[3]@ == words_view(ws@)[3]);
        if number_or_zero(ws[0].as_slice()) != 3 {
            return None;
        }
        Some(
            TriangleFace {
                indices: [
                    number_or_zero(ws[1].as_slice()),
                    number_or_zero(ws[2].as_slice()),
                    number_or_zero(ws[3].as_slice()),
                ],
            },
        )
    }
}

} // verus!

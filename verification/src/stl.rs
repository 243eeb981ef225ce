use vstd::prelude::*;
use crate::bytes::{le_u32, read_le_u32};
use crate::error::{IoErrorKind, PointCloudError};
use crate::io::MeshReader;
use crate::ply_mesh::{face_view, faces_view};
use crate::text::{
    chars_eq_str, chars_to_string, lower, split_ws, str_chars, lower_str, trim, trim_chars,
    words, words_view,
};
use crate::types::TriangleFace;

verus! {

/// The message of the error for a file shorter than an STL header.
pub open spec fn stl_too_short_message() -> Seq<char> {
    "STL文件太短"@
}

/// The STL header of `data` marks an ASCII file: it starts with `solid`.
pub open spec fn stl_header_is_ascii(data: Seq<u8>) -> bool {
    data.len() >= 5 && data.take(5) == seq![115u8, 111u8, 108u8, 105u8, 100u8]
}

/// A triangle of a binary STL file: its normal and its three corners, each
/// coordinate the bit pattern of an IEEE-754 single.
#[derive(Debug, Clone, Copy, PartialEq, Eq)]
pub struct StlTriangle {
    pub normal: (u32, u32, u32),
    pub corners: [(u32, u32, u32); 3],
}

/// The body of a binary STL file: its triangles, and for the `k`-th one the
/// face over vertices `3k`, `3k + 1` and `3k + 2`.
#[derive(Debug, Clone, PartialEq, Eq)]
pub struct StlMesh {
    pub triangles: Vec<StlTriangle>,
    pub faces: Vec<TriangleFace>,
}

/// The three singles at `pos`.
pub open spec fn le_u32_triple(data: Seq<u8>, pos: int) -> (u32, u32, u32) {
    (le_u32(data, pos) as u32, le_u32(data, pos + 4) as u32, le_u32(data, pos + 8) as u32)
}

/// The triangle record at `pos`.
pub open spec fn stl_triangle_at(data: Seq<u8>, pos: int) -> StlTriangle {
    StlTriangle {
        normal: le_u32_triple(data, pos),
        corners: [
            le_u32_triple(data, pos + 12),
            le_u32_triple(data, pos + 24),
            le_u32_triple(data, pos + 36),
        ],
    }
}

/// The triangle count a binary STL file declares, after its 80-byte header.
pub open spec fn stl_count(data: Seq<u8>) -> int {
    le_u32(data, 80)
}

/// The triangles of a binary STL file: the count after the 80-byte header,
/// then that many 50-byte records (normal, three corners, two attribute
/// bytes); `None` when the data ends first.
pub open spec fn stl_body_of(data: Seq<u8>) -> Option<Seq<StlTriangle>> {
    if data.len() < 84 || 84 + 50 * stl_count(data) > data.len() {
        None
    } else {
        Some(Seq::new(stl_count(data) as nat, |k: int| stl_triangle_at(data, 84 + 50 * k)))
    }
}

/// The faces of `n` triangles whose corners are stored one after the other.
pub open spec fn stl_faces(n: nat) -> Seq<(usize, usize, usize)> {
    Seq::new(n, |k: int| ((3 * k) as usize, (3 * k + 1) as usize, (3 * k + 2) as usize))
}

/// The three singles at `pos`.
fn read_triple(data: &[u8], pos: usize) -> (r: (u32, u32, u32))
    requires
        pos + 12 <= data.len(),
    ensures
        r == le_u32_triple(data@, pos as int),
{
    (read_le_u32(data, pos), read_le_u32(data, pos + 4), read_le_u32(data, pos + 8))
}

impl MeshReader {
    /// Whether an STL file is ASCII (its header starts with `solid`) or
    /// binary; a file shorter than the 80-byte header fails.
    pub fn stl_is_ascii(&self, data: &[u8]) -> (r: Result<bool, PointCloudError>)
        ensures
            data.len() < 80 ==> (r matches Err(PointCloudError::ParseError(m)) && m@
                == stl_too_short_message()),
            data.len() >= 80 ==> r == Ok::<bool, PointCloudError>(stl_header_is_ascii(data@)),
    {
        if data.len() < 80 {
            return Err(PointCloudError::ParseError(chars_to_string(str_chars("STL文件太短").as_slice())));
        }
        let solid = data[0] == 115 && data[1] == 111 && data[2] == 108 && data[3] == 105 && data[4]
            == 100;
        assert(solid == (data@.take(5) =~= seq![115u8, 111u8, 108u8, 105u8, 100u8]));
        Ok(solid)
    }

    /// Decodes the body of a binary STL file (the whole file, header
    /// included): the triangle count, then that many records; running out
    /// of data fails.
    pub fn decode_stl_binary(&self, data: &[u8]) -> (r: Result<StlMesh, PointCloudError>)
        ensures
            match stl_body_of(data@) {
                None => r == Err::<StlMesh, PointCloudError>(
                    PointCloudError::IoError(IoErrorKind::UnexpectedEof),
                ),
                Some(ts) => r matches Ok(m) && m.triangles@ == ts && faces_view(m.faces@)
                    == stl_faces(ts.len()),
            },
    {
        if data.len() < 84 {
            return Err(PointCloudError::IoError(IoErrorKind::UnexpectedEof));
        }
        let n = read_le_u32(data, 80) as usize;
        let ghost body = stl_body_of(data@);
        if (data.len() - 84) / 50 < n {
            assert(84 + 50 * stl_count(data@) > data.len()) by (nonlinear_arith)
                requires
                    (data.len() - 84) / 50 < n,
                    n == stl_count(data@),
                    data.len() >= 84,
            ;
            return Err(PointCloudError::IoError(IoErrorKind::UnexpectedEof));
        }
        assert(84 + 50 * n <= data.len()) by (nonlinear_arith)
            requires
                (data.len() - 84) / 50 >= n,
                data.len() >= 84,
        ;
        let mut triangles: Vec<StlTriangle> = Vec::new();
        let mut faces: Vec<TriangleFace> = Vec::new();
        let mut k: usize = 0;
        while k < n
            invariant
                k <= n,
                n == stl_count(data@),
                84 + 50 * n <= data.len(),
                triangles@.len() == k,
                forall|i: int|
                    0 <= i < k ==> #[trigger] triangles@[i] == stl_triangle_at(data@, 84 + 50 * i),
                faces_view(faces@) == stl_faces(k as nat),
            decreases n - k,
        {
            let pos = 84 + 50 * k;
            let t = StlTriangle {
                normal: read_triple(data, pos),
                corners: [
                    read_triple(data, pos + 12),
                    read_triple(data, pos + 24),
                    read_triple(data, pos + 36),
                ],
            };
            triangles.push(t);
            let f = TriangleFace { indices: [3 * k, 3 * k + 1, 3 * k + 2] };
            let ghost before = faces_view(faces@);
            faces.push(f);
            assert(faces_view(faces@) =~= stl_faces((k + 1) as nat)) by {
                assert(faces_view(faces@) =~= before.push(face_view(f)));
            }
            k = k + 1;
        }
        assert(triangles@ =~= Seq::new(n as nat, |i: int| stl_triangle_at(data@, 84 + 50 * i)));
        Ok(StlMesh { triangles, faces })
    }
}

/// What a line of an ASCII STL file is, once lower-cased.
#[derive(Debug, Clone, Copy, PartialEq, Eq)]
pub enum StlLineKind {
    /// `facet`, with a normal when the line is `facet normal nx ny nz`.
    Facet { with_normal: bool },
    /// `vertex x y z`.
    Vertex,
    /// `endfacet`.
    EndFacet,
    /// Anything else.
    Other,
}

/// The kind of an ASCII STL line with the (lower-cased) words `ws`.
pub open spec fn stl_line_kind_of(ws: Seq<Seq<char>>) -> StlLineKind {
    if ws.len() == 0 {
        StlLineKind::Other
    } else if ws[0] == "facet"@ {
        StlLineKind::Facet { with_normal: ws.len() >= 5 && ws[1] == "normal"@ }
    } else if ws[0] == "vertex"@ {
        if ws.len() >= 4 {
            StlLineKind::Vertex
        } else {
            StlLineKind::Other
        }
    } else if ws[0] == "endfacet"@ {
        StlLineKind::EndFacet
    } else {
        StlLineKind::Other
    }
}

/// The kind of a line of an ASCII STL file and its words, after trimming
/// and lower-casing the line.
pub fn stl_line_kind(line: &str) -> (r: (StlLineKind, Vec<Vec<char>>))
    ensures
        words_view(r.1@) == words(lower(trim(line@))),
        r.0 == stl_line_kind_of(words(lower(trim(line@)))),
{
    let t = trim_chars(str_chars(line).as_slice());
    let lowered = lower_str(chars_to_string(t.as_slice()).as_str());
    let ws = split_ws(str_chars(lowered.as_str()).as_slice());
    assert(ws@.len() == words(lower(trim(line@))).len());
    if ws.len() == 0 {
        return (StlLineKind::Other, ws);
    }
    assert(ws@[0]@ == words_view(ws@)[0]);
    let kind = if chars_eq_str(ws[0].as_slice(), "facet") {
        let with_normal = if ws.len() >= 5 {
            assert(ws@[1]@ == words_view(ws@)[1]);
            chars_eq_str(ws[1].as_slice(), "normal")
        } else {
            false
        };
        StlLineKind::Facet { with_normal }
    } else if chars_eq_str(ws[0].as_slice(), "vertex") {
        if ws.len() >= 4 {
            StlLineKind::Vertex
        } else {
            StlLineKind::Other
        }
    } else if chars_eq_str(ws[0].as_slice(), "endfacet") {
        StlLineKind::EndFacet
    } else {
        StlLineKind::Other
    };
    (kind, ws)
}

/// The face a facet of an ASCII STL file gives: its first three corners,
/// when it has at least three.
pub fn stl_facet_face(corners: &[usize]) -> (r: Option<TriangleFace>)
    ensures
        corners.len() >= 3 ==> (r matches Some(f) && face_view(f) == (corners[0], corners[1], corners[2])),
        corners.len() < 3 ==> r is None,
{
    if corners.len() >= 3 {
        Some(TriangleFace { indices: [corners[0], corners[1], corners[2]] })
    } else {
        None
    }
}

/// Where and how each triangle of a binary STL file is read: the count is
/// the little-endian 32-bit value after the 80-byte header, triangle `k` is
/// the 50-byte record at `84 + 50k`, its normal the three little-endian
/// singles at its start and its corner `j` the three singles at `12 + 12j`
/// in the record, in file order: x, then y, then z.
pub proof fn law_stl_record_layout(data: Seq<u8>, k: int, j: int)
    ensures
        stl_body_of(data) matches Some(ts) ==> {
            let pos = 84 + 50 * k;
            &&& ts.len() == le_u32(data, 80)
            &&& 0 <= k < ts.len() ==> ts[k].normal == (
                le_u32(data, pos) as u32,
                le_u32(data, pos + 4) as u32,
                le_u32(data, pos + 8) as u32,
            )
            &&& 0 <= k < ts.len() && 0 <= j < 3 ==> ts[k].corners@[j] == (
                le_u32(data, pos + 12 + 12 * j) as u32,
                le_u32(data, pos + 16 + 12 * j) as u32,
                le_u32(data, pos + 20 + 12 * j) as u32,
            )
        },
{
}

} // verus!

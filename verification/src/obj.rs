use vstd::prelude::*;
use crate::io::MeshReader;
use crate::ply_mesh::face_view;
use crate::text::{
    chars_eq_str, lemma_split_char_len, parse_i32, parse_i32_chars, split_char, split_on_char,
    split_ws, trim, trim_chars, words, words_view,
};
use crate::types::TriangleFace;

verus! {

/// What a line of an OBJ file declares.
#[derive(Debug, Clone, Copy, PartialEq, Eq)]
pub enum ObjLineKind {
    /// A vertex position `v x y z`, with a color when the line has at least
    /// seven words.
    Vertex { colored: bool },
    /// A vertex normal `vn x y z`.
    Normal,
    /// A face `f ...`.
    Face,
    /// Anything else: blank lines, comments, other keywords, short lines.
    Other,
}

/// The kind of the trimmed OBJ line `t`.
pub open spec fn obj_line_kind_of(t: Seq<char>) -> ObjLineKind {
    let ws = words(t);
    if t.len() == 0 || t[0] == '#' || ws.len() == 0 {
        ObjLineKind::Other
    } else if ws[0] == "v"@ {
        if ws.len() >= 4 {
            ObjLineKind::Vertex { colored: ws.len() >= 7 }
        } else {
            ObjLineKind::Other
        }
    } else if ws[0] == "vn"@ {
        if ws.len() >= 4 {
            ObjLineKind::Normal
        } else {
            ObjLineKind::Other
        }
    } else if ws[0] == "f"@ {
        ObjLineKind::Face
    } else {
        ObjLineKind::Other
    }
}

/// The kind of an OBJ line and the words of the trimmed line.
pub fn obj_line_kind(line: &[char]) -> (r: (ObjLineKind, Vec<Vec<char>>))
    ensures
        r.0 == obj_line_kind_of(trim(line@)),
        words_view(r.1@) == words(trim(line@)),
{
    let t = trim_chars(line);
    let t = t.as_slice();
    let ws = split_ws(t);
    assert(ws@.len() == words(t@).len());
    if t.len() == 0 || t[0] == '#' || ws.len() == 0 {
        return (ObjLineKind::Other, ws);
    }
    assert(ws@[0]@ == words(t@)[0]);
    let kind = if chars_eq_str(ws[0].as_slice(), "v") {
        if ws.len() >= 4 {
            ObjLineKind::Vertex { colored: ws.len() >= 7 }
        } else {
            ObjLineKind::Other
        }
    } else if chars_eq_str(ws[0].as_slice(), "vn") {
        if ws.len() >= 4 {
            ObjLineKind::Normal
        } else {
            ObjLineKind::Other
        }
    } else if chars_eq_str(ws[0].as_slice(), "f") {
        ObjLineKind::Face
    } else {
        ObjLineKind::Other
    };
    (kind, ws)
}

/// An OBJ index as the reader resolves it: a positive index counts from 1,
/// any other from the end of the `count` items read so far; the result is
/// converted to `usize` as `as` converts an `i32`.
pub open spec fn resolve_obj_index(idx: i32, count: usize) -> usize {
    if idx > 0 {
        (idx - 1) as usize
    } else {
        (count + idx) as usize
    }
}

/// The index `idx` resolved against `count` items.
fn resolve_index(idx: i32, count: usize) -> (r: usize)
    requires
        count < 0x8000_0000,
    ensures
        r == resolve_obj_index(idx, count),
{
    if idx > 0 {
        (idx - 1) as usize
    } else {
        let c = count as i32;
        (c + idx) as usize
    }
}

/// The vertex a face corner names: its first '/'-separated piece, when that
/// is a number.
pub open spec fn corner_vertex(corner: Seq<char>, vertex_count: usize) -> Option<usize> {
    match parse_i32(split_char(corner, '/')[0]) {
        Some(i) => Some(resolve_obj_index(i, vertex_count)),
        None => None,
    }
}

/// The normal a face corner names: its third '/'-separated piece, when
/// there is one and it is a number.
pub open spec fn corner_normal(corner: Seq<char>, normal_count: usize) -> Option<usize> {
    let pieces = split_char(corner, '/');
    if pieces.len() >= 3 {
        match parse_i32(pieces[2]) {
            Some(i) => Some(resolve_obj_index(i, normal_count)),
            None => None,
        }
    } else {
        None
    }
}

/// `s` with the value of `o` added when there is one.
pub open spec fn push_some(s: Seq<usize>, o: Option<usize>) -> Seq<usize> {
    match o {
        Some(x) => s.push(x),
        None => s,
    }
}

/// The vertex indices the corners name, in order.
pub open spec fn face_vertex_indices(corners: Seq<Seq<char>>, vertex_count: usize) -> Seq<usize>
    decreases corners.len(),
{
    if corners.len() == 0 {
        Seq::<usize>::empty()
    } else {
        push_some(
            face_vertex_indices(corners.drop_last(), vertex_count),
            corner_vertex(corners.last(), vertex_count),
        )
    }
}

/// The normal indices the corners name, in order.
pub open spec fn face_normal_indices(corners: Seq<Seq<char>>, normal_count: usize) -> Seq<usize>
    decreases corners.len(),
{
    if corners.len() == 0 {
        Seq::<usize>::empty()
    } else {
        push_some(
            face_normal_indices(corners.drop_last(), normal_count),
            corner_normal(corners.last(), normal_count),
        )
    }
}

/// The triangle a face line with the corners `corners` gives, with its
/// normal indices when three of them are named: `None` when fewer than
/// three vertices are named.
pub open spec fn obj_face_of(corners: Seq<Seq<char>>, vertex_count: usize, normal_count: usize) -> Option<
    ((usize, usize, usize), Option<(usize, usize, usize)>),
> {
    let vi = face_vertex_indices(corners, vertex_count);
    let ni = face_normal_indices(corners, normal_count);
    if vi.len() >= 3 {
        Some(
            (
                (vi[0], vi[1], vi[2]),
                if ni.len() >= 3 {
                    Some((ni[0], ni[1], ni[2]))
                } else {
                    None
                },
            ),
        )
    } else {
        None
    }
}

impl MeshReader {
    /// The triangle an OBJ face line (its words, `f` first) gives, when it
    /// names at least three vertices, with its normal indices when it names
    /// at least three normals; `vertex_count` and `normal_count` are the
    /// vertices and normals read so far.
    pub fn parse_obj_face(
        &self,
        words: &[Vec<char>],
        vertex_count: usize,
        normal_count: usize,
    ) -> (r: Option<(TriangleFace, Option<[usize; 3]>)>)
        requires
            words.len() >= 1,
            vertex_count < 0x8000_0000,
            normal_count < 0x8000_0000,
        ensures
            match obj_face_of(words_view(words@).drop_first(), vertex_count, normal_count) {
                None => r is None,
                Some((f, n)) => r matches Some((tf, tn)) && face_view(tf) == f && match n {
                    None => tn is None,
                    Some(n) => tn matches Some(a) && (a[0], a[1], a[2]) == n,
                },
            },
    {
        let ghost corners = words_view(words@).drop_first();
        let mut vi: Vec<usize> = Vec::new();
        let mut ni: Vec<usize> = Vec::new();
        let mut k: usize = 1;
        assert(corners.take(0) =~= Seq::<Seq<char>>::empty());
        while k < words.len()
            invariant
                1 <= k <= words.len(),
                corners == words_view(words@).drop_first(),
                vertex_count < 0x8000_0000,
                normal_count < 0x8000_0000,
                vi@ == face_vertex_indices(corners.take(k - 1), vertex_count),
                ni@ == face_normal_indices(corners.take(k - 1), normal_count),
            decreases words.len() - k,
        {
            let pieces = split_on_char(words[k].as_slice(), '/');
            let ghost c = corners[k - 1];
            assert(c == words@[k as int]@);
            proof {
                lemma_split_char_len(c, '/');
                assert(corners.take(k as int).drop_last() =~= corners.take(k - 1));
                assert(corners.take(k as int).last() == c);
            }
            assert(pieces@[0]@ == split_char(c, '/')[0]);
            match parse_i32_chars(pieces[0].as_slice()) {
                Some(idx) => {
                    vi.push(resolve_index(idx, vertex_count));
                },
                None => {},
            }
            if pieces.len() >= 3 {
                assert(pieces@[2]@ == split_char(c, '/')[2]);
                match parse_i32_chars(pieces[2].as_slice()) {
                    Some(idx) => {
                        ni.push(resolve_index(idx, normal_count));
                    },
                    None => {},
                }
            }
            k = k + 1;
        }
        assert(corners.take(words.len() - 1) =~= corners);
        if vi.len() >= 3 {
            let face = TriangleFace { indices: [vi[0], vi[1], vi[2]] };
            let normals = if ni.len() >= 3 {
                Some([ni[0], ni[1], ni[2]])
            } else {
                None
            };
            Some((face, normals))
        } else {
            None
        }
    }
}

// ---------------------------------------------------------------------------
// Normals of OBJ vertices
// ---------------------------------------------------------------------------

/// The (vertex, normal) index pairs of the corners of the faces that come
/// with normal indices, face by face; the `k`-th normal triple goes with
/// the `k`-th face.
pub open spec fn corner_pairs(faces: Seq<TriangleFace>, face_normals: Seq<[usize; 3]>) -> Seq<
    (usize, usize),
> {
    let m = if faces.len() < face_normals.len() {
        faces.len()
    } else {
        face_normals.len()
    };
    Seq::new(3 * m, |k: int| (faces[k / 3].indices[k % 3], face_normals[k / 3][k % 3]))
}

/// The normal index first paired with vertex `v`.
pub open spec fn first_normal(pairs: Seq<(usize, usize)>, v: usize) -> Option<usize>
    decreases pairs.len(),
{
    if pairs.len() == 0 {
        None
    } else {
        match first_normal(pairs.drop_last(), v) {
            Some(n) => Some(n),
            None => if pairs.last().0 == v {
                Some(pairs.last().1)
            } else {
                None
            },
        }
    }
}

/// The normal vertex `v` gets: the one first paired with it, when that
/// index is below `normal_count`.
pub open spec fn vertex_normal_index(
    faces: Seq<TriangleFace>,
    face_normals: Seq<[usize; 3]>,
    normal_count: usize,
    v: usize,
) -> Option<usize> {
    match first_normal(corner_pairs(faces, face_normals), v) {
        Some(n) => if n < normal_count {
            Some(n)
        } else {
            None
        },
        None => None,
    }
}

impl MeshReader {
    /// For each of `vertex_count` vertices, the normal it gets from the
    /// faces: the normal index first paired with it, when that index is
    /// below `normal_count`.
    pub fn obj_vertex_normals(
        &self,
        faces: &[TriangleFace],
        face_normals: &[[usize; 3]],
        vertex_count: usize,
        normal_count: usize,
    ) -> (r: Vec<Option<usize>>)
        requires
            normal_count > 0 ==> forall|k: int|
                0 <= k < corner_pairs(faces@, face_normals@).len() ==> (#[trigger] corner_pairs(
                    faces@,
                    face_normals@,
                )[k]).0 < vertex_count,
        ensures
            r@.len() == vertex_count,
            forall|v: int|
                0 <= v < vertex_count ==> #[trigger] r@[v] == vertex_normal_index(
                    faces@,
                    face_normals@,
                    normal_count,
                    v as usize,
                ),
    {
        let ghost pairs = corner_pairs(faces@, face_normals@);
        let mut table: Vec<Option<usize>> = Vec::new();
        let mut v: usize = 0;
        while v < vertex_count
            invariant
                v <= vertex_count,
                table@.len() == v,
                forall|u: int| 0 <= u < v ==> table@[u] is None,
            decreases vertex_count - v,
        {
            table.push(None);
            v = v + 1;
        }
        if normal_count == 0 || face_normals.len() == 0 {
            assert forall|u: int| 0 <= u < vertex_count implies #[trigger] table@[u]
                == vertex_normal_index(faces@, face_normals@, normal_count, u as usize) by {
                if face_normals.len() == 0 {
                    assert(pairs.len() == 0);
                } else {
                    match first_normal(pairs, u as usize) {
                        Some(n) => {},
                        None => {},
                    }
                }
            }
            return table;
        }
        let m = if faces.len() < face_normals.len() {
            faces.len()
        } else {
            face_normals.len()
        };
        let mut i: usize = 0;
        assert(pairs.take(0) =~= Seq::<(usize, usize)>::empty());
        while i < m
            invariant
                i <= m,
                normal_count > 0,
                pairs == corner_pairs(faces@, face_normals@),
                m == (if faces.len() < face_normals.len() {
                    faces.len()
                } else {
                    face_normals.len()
                }),
                pairs.len() == 3 * m,
                forall|k: int| 0 <= k < pairs.len() ==> (#[trigger] pairs[k]).0 < vertex_count,
                table@.len() == vertex_count,
                forall|u: int|
                    0 <= u < vertex_count ==> #[trigger] table@[u] == first_normal(
                        pairs.take(3 * i),
                        u as usize,
                    ),
            decreases m - i,
        {
            let mut j: usize = 0;
            while j < 3
                invariant
                    i < m,
                    j <= 3,
                    pairs == corner_pairs(faces@, face_normals@),
                    m == (if faces.len() < face_normals.len() {
                        faces.len()
                    } else {
                        face_normals.len()
                    }),
                    pairs.len() == 3 * m,
                    forall|k: int| 0 <= k < pairs.len() ==> (#[trigger] pairs[k]).0 < vertex_count,
                    table@.len() == vertex_count,
                    forall|u: int|
                        0 <= u < vertex_count ==> #[trigger] table@[u] == first_normal(
                            pairs.take(3 * i + j),
                            u as usize,
                        ),
                decreases 3 - j,
            {
                let vi = faces[i].indices[j];
                let ni = face_normals[i][j];
                let ghost k = 3 * i + j;
                assert(k / 3 == i as int && k % 3 == j as int);
                assert(pairs[k] == (vi, ni));
                assert(pairs.take(k + 1).drop_last() =~= pairs.take(k));
                assert(pairs.take(k + 1).last() == (vi, ni));
                assert(vi < vertex_count);
                if table[vi].is_none() {
                    table.set(vi, Some(ni));
                }
                assert forall|u: int| 0 <= u < vertex_count implies #[trigger] table@[u]
                    == first_normal(pairs.take(k + 1), u as usize) by {
                    assert(first_normal(pairs.take(k + 1), u as usize) == match first_normal(
                        pairs.take(k),
                        u as usize,
                    ) {
                        Some(n) => Some(n),
                        None => if vi == u as usize {
                            Some(ni)
                        } else {
                            None
                        },
                    });
                }
                j = j + 1;
            }
            i = i + 1;
        }
        assert(pairs.take(3 * m) =~= pairs);
        let mut out: Vec<Option<usize>> = Vec::new();
        let mut u: usize = 0;
        while u < vertex_count
            invariant
                u <= vertex_count,
                table@.len() == vertex_count,
                forall|w: int|
                    0 <= w < vertex_count ==> #[trigger] table@[w] == first_normal(pairs, w as usize),
                pairs == corner_pairs(faces@, face_normals@),
                out@.len() == u,
                forall|w: int|
                    0 <= w < u ==> #[trigger] out@[w] == vertex_normal_index(
                        faces@,
                        face_normals@,
                        normal_count,
                        w as usize,
                    ),
            decreases vertex_count - u,
        {
            let e = match table[u] {
                Some(n) => if n < normal_count {
                    Some(n)
                } else {
                    None
                },
                None => None,
            };
            out.push(e);
            u = u + 1;
        }
        out
    }
}

/// The words of an XYZ text line that can hold a point: a trimmed line
/// that is not blank, not a `#` comment, and has at least three words.
pub open spec fn xyz_words_of(t: Seq<char>) -> Option<Seq<Seq<char>>> {
    if t.len() == 0 || t[0] == '#' || words(t).len() < 3 {
        None
    } else {
        Some(words(t))
    }
}

/// The words of an XYZ line, when it can hold a point.
pub fn xyz_line_words(line: &[char]) -> (r: Option<Vec<Vec<char>>>)
    ensures
        match xyz_words_of(trim(line@)) {
            None => r is None,
            Some(ws) => r matches Some(v) && words_view(v@) == ws,
        },
{
    let t = trim_chars(line);
    let t = t.as_slice();
    if t.len() == 0 || t[0] == '#' {
        return None;
    }
    let ws = split_ws(t);
    assert(ws@.len() == words(t@).len());
    if ws.len() < 3 {
        None
    } else {
        Some(ws)
    }
}

} // verus!

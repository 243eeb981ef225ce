use vstd::prelude::*;
use vstd::slice::slice_subrange;
use vstd::utf8::{decode_utf8, valid_utf8};
use crate::error::{IoErrorKind, PointCloudError};
use crate::io::PointCloudReader;
use crate::text::{
    chars_eq_str, chars_starts_with_str, chars_to_string, parse_usize, parse_usize_chars,
    split_ws, starts_with, str_chars, trim, trim_chars, utf8_decode, words, words_view,
};

verus! {

// ---------------------------------------------------------------------------
// Lines of a byte buffer, as `BufRead::read_line` reads them
// ---------------------------------------------------------------------------

/// The end of the line that starts at `pos`: just past the next '\n', or the
/// end of the data.
pub open spec fn line_end(data: Seq<u8>, pos: int) -> int
    decreases data.len() - pos,
{
    if pos < 0 || pos >= data.len() {
        data.len() as int
    } else if data[pos] == 10 {
        pos + 1
    } else {
        line_end(data, pos + 1)
    }
}

pub proof fn lemma_line_end_bounds(data: Seq<u8>, pos: int)
    requires
        0 <= pos < data.len(),
    ensures
        pos < line_end(data, pos) <= data.len(),
    decreases data.len() - pos,
{
    if data[pos] != 10 {
        if pos + 1 < data.len() {
            lemma_line_end_bounds(data, pos + 1);
        } else {
            assert(line_end(data, pos + 1) == data.len());
        }
    }
}

/// The end of the line that starts at `pos`.
pub fn find_line_end(data: &[u8], pos: usize) -> (e: usize)
    requires
        pos < data.len(),
    ensures
        e == line_end(data@, pos as int),
        pos < e <= data.len(),
{
    let mut i = pos;
    proof {
        lemma_line_end_bounds(data@, pos as int);
    }
    while i < data.len() && data[i] != 10
        invariant
            pos <= i <= data.len(),
            line_end(data@, pos as int) == line_end(data@, i as int),
        decreases data.len() - i,
    {
        i = i + 1;
    }
    if i < data.len() {
        i + 1
    } else {
        i
    }
}

// ---------------------------------------------------------------------------
// PLY header
// ---------------------------------------------------------------------------

/// A vertex property of a PLY file: its name and its data type.
#[derive(Debug, Clone, PartialEq, Eq)]
pub struct PlyProperty {
    pub name: String,
    pub dtype: String,
}

/// What the PLY header says about the vertices of a point cloud.
#[derive(Debug, Clone, PartialEq, Eq)]
pub struct PlyHeader {
    pub is_binary: bool,
    pub little_endian: bool,
    pub vertex_count: usize,
    pub properties: Vec<PlyProperty>,
    /// The number of bytes up to and including the line that ended the header.
    pub header_bytes: usize,
}

/// The state of the PLY header scan.
pub struct PlyScan {
    pub is_binary: bool,
    pub little_endian: bool,
    pub vertex_count: usize,
    pub in_vertex: bool,
    pub properties: Seq<(Seq<char>, Seq<char>)>,
    pub header_bytes: nat,
}

/// The (name, type) pairs of a list of properties.
pub open spec fn props_view(v: Seq<PlyProperty>) -> Seq<(Seq<char>, Seq<char>)> {
    v.map_values(|p: PlyProperty| (p.name@, p.dtype@))
}

/// The scan state before the first line.
pub open spec fn ply_scan_start() -> PlyScan {
    PlyScan {
        is_binary: false,
        little_endian: true,
        vertex_count: 0,
        in_vertex: false,
        properties: seq![],
        header_bytes: 0,
    }
}

/// The effect of one header line (with its line break), and whether the
/// header ends with it.
pub open spec fn ply_scan_line(st: PlyScan, line: Seq<char>) -> (PlyScan, bool) {
    let t = trim(line);
    let ws = words(t);
    if t == "ply"@ {
        (st, false)
    } else if starts_with(t, "format"@) {
        if ws.len() >= 2 && ws[1] == "ascii"@ {
            (PlyScan { is_binary: false, ..st }, false)
        } else if ws.len() >= 2 && ws[1] == "binary_little_endian"@ {
            (PlyScan { is_binary: true, little_endian: true, ..st }, false)
        } else if ws.len() >= 2 && ws[1] == "binary_big_endian"@ {
            (PlyScan { is_binary: true, little_endian: false, ..st }, false)
        } else {
            (st, false)
        }
    } else if starts_with(t, "element vertex"@) {
        if ws.len() >= 3 {
            (
                PlyScan {
                    in_vertex: true,
                    vertex_count: match parse_usize(ws[2]) {
                        Some(n) => n,
                        None => 0,
                    },
                    ..st
                },
                false,
            )
        } else {
            (PlyScan { in_vertex: true, ..st }, false)
        }
    } else if starts_with(t, "element"@) {
        (PlyScan { in_vertex: false, ..st }, false)
    } else if starts_with(t, "property"@) && st.in_vertex {
        if ws.len() >= 3 {
            (PlyScan { properties: st.properties.push((ws[2], ws[1])), ..st }, false)
        } else {
            (st, false)
        }
    } else if t == "end_header"@ {
        (st, true)
    } else {
        (st, false)
    }
}

/// The PLY header scan from byte `pos` on: line by line until a line
/// `end_header` or the end of the data; a line that is not UTF-8 fails.
pub open spec fn ply_scan_from(data: Seq<u8>, pos: int, st: PlyScan) -> Result<PlyScan, IoErrorKind>
    decreases data.len() - pos,
{
    if pos < 0 || pos >= data.len() {
        Ok(st)
    } else {
        let e = line_end(data, pos);
        proof {
            lemma_line_end_bounds(data, pos);
        }
        let bytes = data.subrange(pos, e);
        if !valid_utf8(bytes) {
            Err(IoErrorKind::InvalidData)
        } else {
            let st1 = PlyScan { header_bytes: st.header_bytes + (e - pos) as nat, ..st };
            let (st2, stop) = ply_scan_line(st1, decode_utf8(bytes));
            if stop {
                Ok(st2)
            } else {
                ply_scan_from(data, e, st2)
            }
        }
    }
}

/// The header a PLY file's bytes hold.
pub open spec fn ply_header_of(data: Seq<u8>) -> Result<PlyScan, IoErrorKind> {
    ply_scan_from(data, 0, ply_scan_start())
}

/// `h` holds what the scan `s` found.
pub open spec fn ply_header_matches(h: PlyHeader, s: PlyScan) -> bool {
    &&& h.is_binary == s.is_binary
    &&& h.little_endian == s.little_endian
    &&& h.vertex_count == s.vertex_count
    &&& props_view(h.properties@) == s.properties
    &&& h.header_bytes == s.header_bytes
}

/// The exec scan state viewed as a model.
pub open spec fn ply_state(
    is_binary: bool,
    little_endian: bool,
    vertex_count: usize,
    in_vertex: bool,
    properties: Seq<PlyProperty>,
    header_bytes: usize,
) -> PlyScan {
    PlyScan {
        is_binary,
        little_endian,
        vertex_count,
        in_vertex,
        properties: props_view(properties),
        header_bytes: header_bytes as nat,
    }
}

impl PointCloudReader {
    /// Reads the header of a PLY point cloud from the start of `data`.
    pub fn parse_ply_header(&self, data: &[u8]) -> (r: Result<PlyHeader, PointCloudError>)
        ensures
            match ply_header_of(data@) {
                Ok(s) => r matches Ok(h) && ply_header_matches(h, s),
                Err(k) => r == Err::<PlyHeader, PointCloudError>(PointCloudError::IoError(k)),
            },
    {
        let mut is_binary = false;
        let mut little_endian = true;
        let mut vertex_count: usize = 0;
        let mut in_vertex = false;
        let mut properties: Vec<PlyProperty> = Vec::new();
        let mut header_bytes: usize = 0;
        let mut pos: usize = 0;
        assert(props_view(properties@) =~= seq![]);
        while pos < data.len()
            invariant
                pos <= data.len(),
                header_bytes == pos,
                ply_header_of(data@) == ply_scan_from(
                    data@,
                    pos as int,
                    ply_state(
                        is_binary,
                        little_endian,
                        vertex_count,
                        in_vertex,
                        properties@,
                        header_bytes,
                    ),
                ),
            decreases data.len() - pos,
        {
            let e = find_line_end(data, pos);
            let bytes = slice_subrange(data, pos, e);
            let s = match utf8_decode(bytes) {
                None => {
                    return Err(PointCloudError::IoError(IoErrorKind::InvalidData));
                },
                Some(s) => s,
            };
            header_bytes = header_bytes + (e - pos);
            let line = str_chars(s);
            let t = trim_chars(line.as_slice());
            let t = t.as_slice();
            let ws = split_ws(t);
            let ghost st1 = ply_state(
                is_binary,
                little_endian,
                vertex_count,
                in_vertex,
                properties@,
                header_bytes,
            );
            let ghost res = ply_scan_line(st1, line@);
            assert(ws@.len() == words(t@).len());
            let mut stop = false;
            if chars_eq_str(t, "ply") {
            } else if chars_starts_with_str(t, "format") {
                if ws.len() >= 2 {
                    assert(ws@[1]@ == words(t@)[1]);
                    let w1 = ws[1].as_slice();
                    if chars_eq_str(w1, "ascii") {
                        is_binary = false;
                    } else if chars_eq_str(w1, "binary_little_endian") {
                        is_binary = true;
                        little_endian = true;
                    } else if chars_eq_str(w1, "binary_big_endian") {
                        is_binary = true;
                        little_endian = false;
                    }
                }
            } else if chars_starts_with_str(t, "element vertex") {
                in_vertex = true;
                if ws.len() >= 3 {
                    assert(ws@[2]@ == words(t@)[2]);
                    vertex_count = match parse_usize_chars(ws[2].as_slice()) {
                        Some(n) => n,
                        None => 0,
                    };
                }
            } else if chars_starts_with_str(t, "element") {
                in_vertex = false;
            } else if chars_starts_with_str(t, "property") && in_vertex {
                if ws.len() >= 3 {
                    assert(ws@[2]@ == words(t@)[2]);
                    assert(ws@[1]@ == words(t@)[1]);
                    let ghost before = properties@;
                    properties.push(
                        PlyProperty {
                            name: chars_to_string(ws[2].as_slice()),
                            dtype: chars_to_string(ws[1].as_slice()),
                        },
                    );
                    assert(props_view(properties@) =~= props_view(before).push(
                        (words(t@)[2], words(t@)[1]),
                    ));
                }
            } else if chars_eq_str(t, "end_header") {
                stop = true;
            }
            assert(res.0 == ply_state(
                is_binary,
                little_endian,
                vertex_count,
                in_vertex,
                properties@,
                header_bytes,
            ));
            assert(res.1 == stop);
            if stop {
                return Ok(
                    PlyHeader { is_binary, little_endian, vertex_count, properties, header_bytes },
                );
            }
            pos = e;
        }
        Ok(PlyHeader { is_binary, little_endian, vertex_count, properties, header_bytes })
    }
}

} // verus!

verus! {

/// The size in bytes of a PLY scalar type; unknown types count as one byte.
pub open spec fn ply_type_size(dtype: Seq<char>) -> nat {
    if dtype == "char"@ || dtype == "uchar"@ || dtype == "int8"@ || dtype == "uint8"@ {
        1
    } else if dtype == "short"@ || dtype == "ushort"@ || dtype == "int16"@ || dtype == "uint16"@ {
        2
    } else if dtype == "int"@ || dtype == "uint"@ || dtype == "int32"@ || dtype == "uint32"@
        || dtype == "float"@ || dtype == "float32"@ {
        4
    } else if dtype == "double"@ || dtype == "float64"@ || dtype == "int64"@ || dtype == "uint64"@ {
        8
    } else {
        1
    }
}

/// The size in bytes of the PLY scalar type `dtype`.
pub fn ply_type_size_of(dtype: &str) -> (n: usize)
    ensures
        n == ply_type_size(dtype@),
{
    let d = str_chars(dtype);
    let d = d.as_slice();
    if chars_eq_str(d, "char") || chars_eq_str(d, "uchar") || chars_eq_str(d, "int8")
        || chars_eq_str(d, "uint8") {
        1
    } else if chars_eq_str(d, "short") || chars_eq_str(d, "ushort") || chars_eq_str(d, "int16")
        || chars_eq_str(d, "uint16") {
        2
    } else if chars_eq_str(d, "int") || chars_eq_str(d, "uint") || chars_eq_str(d, "int32")
        || chars_eq_str(d, "uint32") || chars_eq_str(d, "float") || chars_eq_str(d, "float32") {
        4
    } else if chars_eq_str(d, "double") || chars_eq_str(d, "float64") || chars_eq_str(d, "int64")
        || chars_eq_str(d, "uint64") {
        8
    } else {
        1
    }
}

impl PointCloudReader {
    /// Skips one binary value of type `dtype` that starts at `pos`, giving
    /// the position after it; running out of data fails.
    pub fn skip_binary(&self, data: &[u8], pos: usize, dtype: &str, _le: bool) -> (r: Result<
        usize,
        PointCloudError,
    >)
        ensures
            pos + ply_type_size(dtype@) <= data.len() ==> r == Ok::<usize, PointCloudError>(
                (pos + ply_type_size(dtype@)) as usize,
            ),
            pos + ply_type_size(dtype@) > data.len() ==> r == Err::<usize, PointCloudError>(
                PointCloudError::IoError(IoErrorKind::UnexpectedEof),
            ),
    {
        let n = ply_type_size_of(dtype);
        if pos <= data.len() && data.len() - pos >= n {
            Ok(pos + n)
        } else {
            Err(PointCloudError::IoError(IoErrorKind::UnexpectedEof))
        }
    }
}

} // verus!

verus! {

// ---------------------------------------------------------------------------
// Text headers as lines of ASCII bytes
// ---------------------------------------------------------------------------

/// The ASCII bytes of `s`.
pub open spec fn ascii_bytes(s: Seq<char>) -> Seq<u8> {
    s.map_values(|c: char| c as u8)
}

/// `l` is one ASCII line: it ends with its only line break.
pub open spec fn well_formed_line(l: Seq<char>) -> bool {
    &&& l.len() > 0
    &&& l.last() == '\n'
    &&& vstd::utf8::is_ascii_chars(l)
    &&& forall|i: int| 0 <= i < l.len() - 1 ==> #[trigger] l[i] != '\n'
}

/// The lines `ls` one after the other.
pub open spec fn flatten(ls: Seq<Seq<char>>) -> Seq<char>
    decreases ls.len(),
{
    if ls.len() == 0 {
        seq![]
    } else {
        ls[0] + flatten(ls.drop_first())
    }
}

/// Every line of `ls` is well formed.
pub open spec fn well_formed_lines(ls: Seq<Seq<char>>) -> bool {
    forall|i: int| 0 <= i < ls.len() ==> well_formed_line(#[trigger] ls[i])
}

pub proof fn lemma_flatten_concat(a: Seq<Seq<char>>, b: Seq<Seq<char>>)
    ensures
        flatten(a + b) == flatten(a) + flatten(b),
    decreases a.len(),
{
    if a.len() == 0 {
        assert(a + b =~= b);
        assert(seq![] + flatten(b) =~= flatten(b));
    } else {
        assert((a + b).drop_first() =~= a.drop_first() + b);
        lemma_flatten_concat(a.drop_first(), b);
        assert(a[0] + (flatten(a.drop_first()) + flatten(b)) =~= (a[0] + flatten(a.drop_first()))
            + flatten(b));
    }
}

pub proof fn lemma_ascii_bytes_concat(a: Seq<char>, b: Seq<char>)
    ensures
        ascii_bytes(a + b) == ascii_bytes(a) + ascii_bytes(b),
{
    assert(ascii_bytes(a + b) =~= ascii_bytes(a) + ascii_bytes(b));
}

proof fn lemma_line_end_at(data: Seq<u8>, pos: int, l: Seq<char>, i: int)
    requires
        well_formed_line(l),
        0 <= pos,
        0 <= i < l.len(),
        pos + l.len() <= data.len(),
        data.subrange(pos, pos + l.len()) == ascii_bytes(l),
    ensures
        line_end(data, pos + i) == pos + l.len(),
    decreases l.len() - i,
{
    assert(data[pos + i] == data.subrange(pos, pos + l.len())[i]);
    let c = l[i];
    assert(('\0' <= c <= '\u{7f}'));
    if i == l.len() - 1 {
        assert(c == '\n');
        assert(data[pos + i] == 10);
    } else {
        assert(c != '\n');
        assert(c as u32 != 10);
        assert((c as u8) as u32 == c as u32);
        assert(data[pos + i] != 10);
        lemma_line_end_at(data, pos, l, i + 1);
    }
}

/// A well-formed line at `pos` is read whole as the next line, and decodes
/// to its characters.
pub proof fn lemma_line_bytes(data: Seq<u8>, pos: int, l: Seq<char>, rest: Seq<u8>)
    requires
        well_formed_line(l),
        0 <= pos <= data.len(),
        data.skip(pos) == ascii_bytes(l) + rest,
    ensures
        pos < data.len(),
        line_end(data, pos) == pos + l.len(),
        valid_utf8(data.subrange(pos, pos + l.len())),
        decode_utf8(data.subrange(pos, pos + l.len())) == l,
        data.skip(pos + l.len()) == rest,
{
    assert(ascii_bytes(l).len() == l.len());
    assert(data.skip(pos).len() == data.len() - pos);
    assert(data.len() - pos == l.len() + rest.len());
    assert(data.subrange(pos, pos + l.len()) =~= ascii_bytes(l)) by {
        assert forall|i: int| 0 <= i < l.len() implies data.subrange(pos, pos + l.len())[i]
            == ascii_bytes(l)[i] by {
            assert(data.skip(pos)[i] == data[pos + i]);
            assert((ascii_bytes(l) + rest)[i] == ascii_bytes(l)[i]);
        }
    }
    assert(data.skip(pos + l.len()) =~= rest) by {
        assert forall|i: int| 0 <= i < rest.len() implies data.skip(pos + l.len())[i] == rest[i] by {
            assert(data.skip(pos)[l.len() + i] == data[pos + l.len() + i]);
            assert((ascii_bytes(l) + rest)[l.len() + i] == rest[i]);
        }
    }
    lemma_line_end_at(data, pos, l, 0);
    vstd::utf8::is_ascii_chars_encode_utf8(l);
    assert(vstd::utf8::encode_utf8(l) =~= ascii_bytes(l));
    vstd::utf8::encode_utf8_valid_utf8(l);
    vstd::utf8::encode_utf8_decode_utf8(l);
}

/// The PLY header scan over well-formed lines, and whether it stopped.
pub open spec fn ply_fold(st: PlyScan, ls: Seq<Seq<char>>) -> (PlyScan, bool)
    decreases ls.len(),
{
    if ls.len() == 0 {
        (st, false)
    } else {
        let (st2, stop) = ply_scan_line(
            PlyScan { header_bytes: st.header_bytes + ls[0].len(), ..st },
            ls[0],
        );
        if stop {
            (st2, true)
        } else {
            ply_fold(st2, ls.drop_first())
        }
    }
}

/// Scanning data that holds the lines `ls` at `pos` folds the lines.
pub proof fn lemma_ply_scan_lines(
    data: Seq<u8>,
    pos: int,
    st: PlyScan,
    ls: Seq<Seq<char>>,
    rest: Seq<u8>,
)
    requires
        well_formed_lines(ls),
        0 <= pos <= data.len(),
        data.skip(pos) == ascii_bytes(flatten(ls)) + rest,
    ensures
        ply_fold(st, ls).1 ==> ply_scan_from(data, pos, st) == Ok::<PlyScan, IoErrorKind>(
            ply_fold(st, ls).0,
        ),
        !ply_fold(st, ls).1 ==> ply_scan_from(data, pos, st) == ply_scan_from(
            data,
            pos + flatten(ls).len(),
            ply_fold(st, ls).0,
        ),
    decreases ls.len(),
{
    if ls.len() > 0 {
        let l = ls[0];
        assert(well_formed_line(l));
        let more = ls.drop_first();
        assert(well_formed_lines(more)) by {
            assert forall|i: int| 0 <= i < more.len() implies well_formed_line(#[trigger] more[i]) by {
                assert(more[i] == ls[i + 1]);
            }
        }
        lemma_ascii_bytes_concat(l, flatten(more));
        assert(ascii_bytes(flatten(ls)) + rest =~= ascii_bytes(l) + (ascii_bytes(flatten(more))
            + rest));
        lemma_line_bytes(data, pos, l, ascii_bytes(flatten(more)) + rest);
        let (st2, stop) = ply_scan_line(
            PlyScan { header_bytes: st.header_bytes + l.len(), ..st },
            l,
        );
        if !stop {
            lemma_ply_scan_lines(data, pos + l.len(), st2, more, rest);
        }
    }
}

pub proof fn lemma_ply_fold_concat(st: PlyScan, a: Seq<Seq<char>>, b: Seq<Seq<char>>)
    ensures
        ply_fold(st, a + b) == (if ply_fold(st, a).1 {
            ply_fold(st, a)
        } else {
            ply_fold(ply_fold(st, a).0, b)
        }),
    decreases a.len(),
{
    if a.len() == 0 {
        assert(a + b =~= b);
    } else {
        assert((a + b)[0] == a[0]);
        assert((a + b).drop_first() =~= a.drop_first() + b);
        let (st2, stop) = ply_scan_line(
            PlyScan { header_bytes: st.header_bytes + a[0].len(), ..st },
            a[0],
        );
        if !stop {
            lemma_ply_fold_concat(st2, a.drop_first(), b);
        }
    }
}

} // verus!

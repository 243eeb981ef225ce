use vstd::prelude::*;
use crate::bytes::{be_u32, be_u64, le_u32, le_u64, read_be_u32, read_be_u64, read_le_u32, read_le_u64};
use crate::error::{IoErrorKind, PointCloudError};
use crate::io::PointCloudReader;
use crate::ply::{ply_type_size, ply_type_size_of, props_view, PlyHeader};
use crate::text::{chars_eq_str, str_chars};

verus! {

/// A coordinate of a binary PLY point as stored: a single or a double (as
/// bit patterns), or zero for a numeric type the reader does not read.
#[derive(Debug, Clone, Copy, PartialEq, Eq)]
pub enum PlyCoord {
    Zero,
    Single(u32),
    Double(u64),
}

/// A color channel of a binary PLY point as stored: a byte, or a
/// little-endian single in [0, 1] (as its bit pattern).
#[derive(Debug, Clone, Copy, PartialEq, Eq)]
pub enum PlyChannel {
    Byte(u8),
    Unit(u32),
}

/// A point of a binary PLY body as stored: its coordinates, its normal when
/// all of nx, ny and nz are declared, its color when red, green and blue
/// are.
#[derive(Debug, Clone, Copy, PartialEq, Eq)]
pub struct RawPlyPoint {
    pub x: PlyCoord,
    pub y: PlyCoord,
    pub z: PlyCoord,
    pub normal: Option<(PlyCoord, PlyCoord, PlyCoord)>,
    pub color: Option<(PlyChannel, PlyChannel, PlyChannel)>,
}

/// What has been read of a point so far.
pub struct PointAcc {
    pub x: PlyCoord,
    pub y: PlyCoord,
    pub z: PlyCoord,
    pub nx: Option<PlyCoord>,
    pub ny: Option<PlyCoord>,
    pub nz: Option<PlyCoord>,
    pub r: Option<PlyChannel>,
    pub g: Option<PlyChannel>,
    pub b: Option<PlyChannel>,
}

/// Nothing read yet.
pub open spec fn acc_start() -> PointAcc {
    PointAcc {
        x: PlyCoord::Zero,
        y: PlyCoord::Zero,
        z: PlyCoord::Zero,
        nx: None,
        ny: None,
        nz: None,
        r: None,
        g: None,
        b: None,
    }
}

/// The name is that of a coordinate or a normal component.
pub open spec fn is_coord_name(n: Seq<char>) -> bool {
    n == "x"@ || n == "y"@ || n == "z"@ || n == "nx"@ || n == "ny"@ || n == "nz"@
}

/// The name is that of a color channel.
pub open spec fn is_channel_name(n: Seq<char>) -> bool {
    n == "red"@ || n == "r"@ || n == "green"@ || n == "g"@ || n == "blue"@ || n == "b"@
}

/// The bytes a coordinate of type `dtype` takes: 4 for a single, 8 for a
/// double, none for any other type.
pub open spec fn coord_size(dtype: Seq<char>) -> nat {
    if dtype == "float"@ || dtype == "float32"@ {
        4
    } else if dtype == "double"@ || dtype == "float64"@ {
        8
    } else {
        0
    }
}

/// The bytes a color channel of type `dtype` takes: 4 for a float type, 1
/// otherwise.
pub open spec fn channel_size(dtype: Seq<char>) -> nat {
    if dtype == "float"@ || dtype == "float32"@ || dtype == "double"@ {
        4
    } else {
        1
    }
}

/// The bytes a property takes in a record.
pub open spec fn prop_size(p: (Seq<char>, Seq<char>)) -> nat {
    if is_coord_name(p.0) {
        coord_size(p.1)
    } else if is_channel_name(p.0) {
        channel_size(p.1)
    } else {
        ply_type_size(p.1)
    }
}

/// The coordinate of type `dtype` at `pos`.
pub open spec fn coord_at(data: Seq<u8>, pos: int, dtype: Seq<char>, le: bool) -> PlyCoord {
    if dtype == "float"@ || dtype == "float32"@ {
        PlyCoord::Single(
            (if le {
                le_u32(data, pos)
            } else {
                be_u32(data, pos)
            }) as u32,
        )
    } else if dtype == "double"@ || dtype == "float64"@ {
        PlyCoord::Double(
            (if le {
                le_u64(data, pos)
            } else {
                be_u64(data, pos)
            }) as u64,
        )
    } else {
        PlyCoord::Zero
    }
}

/// The color channel of type `dtype` at `pos`.
pub open spec fn channel_at(data: Seq<u8>, pos: int, dtype: Seq<char>) -> PlyChannel {
    if dtype == "float"@ || dtype == "float32"@ || dtype == "double"@ {
        PlyChannel::Unit(le_u32(data, pos) as u32)
    } else {
        PlyChannel::Byte(data[pos])
    }
}

/// `acc` after reading property `p` at `pos`.
pub open spec fn prop_step(acc: PointAcc, p: (Seq<char>, Seq<char>), data: Seq<u8>, pos: int, le: bool) -> PointAcc {
    let n = p.0;
    let c = coord_at(data, pos, p.1, le);
    let h = channel_at(data, pos, p.1);
    if n == "x"@ {
        PointAcc { x: c, ..acc }
    } else if n == "y"@ {
        PointAcc { y: c, ..acc }
    } else if n == "z"@ {
        PointAcc { z: c, ..acc }
    } else if n == "nx"@ {
        PointAcc { nx: Some(c), ..acc }
    } else if n == "ny"@ {
        PointAcc { ny: Some(c), ..acc }
    } else if n == "nz"@ {
        PointAcc { nz: Some(c), ..acc }
    } else if n == "red"@ || n == "r"@ {
        PointAcc { r: Some(h), ..acc }
    } else if n == "green"@ || n == "g"@ {
        PointAcc { g: Some(h), ..acc }
    } else if n == "blue"@ || n == "b"@ {
        PointAcc { b: Some(h), ..acc }
    } else {
        acc
    }
}

/// The bytes of the properties from index `i` on.
pub open spec fn record_len_from(props: Seq<(Seq<char>, Seq<char>)>, i: int) -> nat
    decreases props.len() - i,
{
    if i < 0 || i >= props.len() {
        0
    } else {
        prop_size(props[i]) + record_len_from(props, i + 1)
    }
}

/// Reading the properties from index `i` on, starting at `pos`.
pub open spec fn record_fold(
    data: Seq<u8>,
    pos: int,
    props: Seq<(Seq<char>, Seq<char>)>,
    i: int,
    le: bool,
    acc: PointAcc,
) -> PointAcc
    decreases props.len() - i,
{
    if i < 0 || i >= props.len() {
        acc
    } else {
        record_fold(data, pos + prop_size(props[i]), props, i + 1, le, prop_step(acc, props[i], data, pos, le))
    }
}

/// The point a finished record gives.
pub open spec fn point_of(acc: PointAcc) -> RawPlyPoint {
    RawPlyPoint {
        x: acc.x,
        y: acc.y,
        z: acc.z,
        normal: match (acc.nx, acc.ny, acc.nz) {
            (Some(a), Some(b), Some(c)) => Some((a, b, c)),
            _ => None,
        },
        color: match (acc.r, acc.g, acc.b) {
            (Some(a), Some(b), Some(c)) => Some((a, b, c)),
            _ => None,
        },
    }
}

/// The point record at `pos`.
pub open spec fn ply_point_at(data: Seq<u8>, pos: int, props: Seq<(Seq<char>, Seq<char>)>, le: bool) -> RawPlyPoint {
    point_of(record_fold(data, pos, props, 0, le, acc_start()))
}

/// The points of a binary PLY body: `vertex_count` records right after the
/// header, or `None` when the data ends first.
pub open spec fn ply_points_of(data: Seq<u8>, h: PlyHeader) -> Option<Seq<RawPlyPoint>> {
    let props = props_view(h.properties@);
    let len = record_len_from(props, 0);
    if h.vertex_count > 0 && len > 0 && h.header_bytes + h.vertex_count * len > data.len() {
        None
    } else {
        Some(
            Seq::new(
                h.vertex_count as nat,
                |k: int| ply_point_at(data, h.header_bytes + k * len, props, h.little_endian),
            ),
        )
    }
}

/// The property sizes from `i` on add up.
proof fn lemma_record_len_step(props: Seq<(Seq<char>, Seq<char>)>, i: int)
    requires
        0 <= i < props.len(),
    ensures
        record_len_from(props, i) == prop_size(props[i]) + record_len_from(props, i + 1),
{
}

/// The sizes of the properties from `i` on are at most all of them.
proof fn lemma_record_len_suffix(props: Seq<(Seq<char>, Seq<char>)>, i: int)
    requires
        0 <= i <= props.len(),
    ensures
        record_len_from(props, i) <= record_len_from(props, 0),
    decreases i,
{
    if i > 0 {
        lemma_record_len_suffix(props, i - 1);
    }
}

/// The size of a coordinate of type `dtype`.
fn coord_size_of(d: &[char]) -> (n: usize)
    ensures
        n == coord_size(d@),
{
    if chars_eq_str(d, "float") || chars_eq_str(d, "float32") {
        4
    } else if chars_eq_str(d, "double") || chars_eq_str(d, "float64") {
        8
    } else {
        0
    }
}

/// The size of a color channel of type `dtype`.
fn channel_size_of(d: &[char]) -> (n: usize)
    ensures
        n == channel_size(d@),
{
    if chars_eq_str(d, "float") || chars_eq_str(d, "float32") || chars_eq_str(d, "double") {
        4
    } else {
        1
    }
}

/// The coordinate of type `d` at `pos`.
fn read_coord(data: &[u8], pos: usize, d: &[char], le: bool) -> (c: PlyCoord)
    requires
        coord_size(d@) > 0 ==> pos + coord_size(d@) <= data.len(),
    ensures
        c == coord_at(data@, pos as int, d@, le),
{
    if chars_eq_str(d, "float") || chars_eq_str(d, "float32") {
        PlyCoord::Single(
            if le {
                read_le_u32(data, pos)
            } else {
                read_be_u32(data, pos)
            },
        )
    } else if chars_eq_str(d, "double") || chars_eq_str(d, "float64") {
        PlyCoord::Double(
            if le {
                read_le_u64(data, pos)
            } else {
                read_be_u64(data, pos)
            },
        )
    } else {
        PlyCoord::Zero
    }
}

/// The color channel of type `d` at `pos`.
fn read_channel(data: &[u8], pos: usize, d: &[char]) -> (c: PlyChannel)
    requires
        pos + channel_size(d@) <= data.len(),
    ensures
        c == channel_at(data@, pos as int, d@),
{
    if chars_eq_str(d, "float") || chars_eq_str(d, "float32") || chars_eq_str(d, "double") {
        PlyChannel::Unit(read_le_u32(data, pos))
    } else {
        PlyChannel::Byte(data[pos])
    }
}

/// `acc` after reading the property named `name` of type `d` at `pos`.
fn step_prop(acc: PointAcc, name: &[char], d: &[char], data: &[u8], pos: usize, le: bool) -> (r:
    PointAcc)
    requires
        prop_size((name@, d@)) > 0 ==> pos + prop_size((name@, d@)) <= data.len(),
    ensures
        r == prop_step(acc, (name@, d@), data@, pos as int, le),
{
    let ghost p = (name@, d@);
    if chars_eq_str(name, "x") {
        PointAcc { x: read_coord(data, pos, d, le), ..acc }
    } else if chars_eq_str(name, "y") {
        PointAcc { y: read_coord(data, pos, d, le), ..acc }
    } else if chars_eq_str(name, "z") {
        PointAcc { z: read_coord(data, pos, d, le), ..acc }
    } else if chars_eq_str(name, "nx") {
        PointAcc { nx: Some(read_coord(data, pos, d, le)), ..acc }
    } else if chars_eq_str(name, "ny") {
        PointAcc { ny: Some(read_coord(data, pos, d, le)), ..acc }
    } else if chars_eq_str(name, "nz") {
        PointAcc { nz: Some(read_coord(data, pos, d, le)), ..acc }
    } else if chars_eq_str(name, "red") || chars_eq_str(name, "r") {
        PointAcc { r: Some(read_channel(data, pos, d)), ..acc }
    } else if chars_eq_str(name, "green") || chars_eq_str(name, "g") {
        PointAcc { g: Some(read_channel(data, pos, d)), ..acc }
    } else if chars_eq_str(name, "blue") || chars_eq_str(name, "b") {
        PointAcc { b: Some(read_channel(data, pos, d)), ..acc }
    } else {
        acc
    }
}

/// The size of the property named `name` of type `d`.
fn prop_size_of(name: &[char], d: &[char], dtype: &str) -> (n: usize)
    requires
        d@ == dtype@,
    ensures
        n == prop_size((name@, d@)),
{
    if chars_eq_str(name, "x") || chars_eq_str(name, "y") || chars_eq_str(name, "z") || chars_eq_str(
        name,
        "nx",
    ) || chars_eq_str(name, "ny") || chars_eq_str(name, "nz") {
        coord_size_of(d)
    } else if chars_eq_str(name, "red") || chars_eq_str(name, "r") || chars_eq_str(name, "green")
        || chars_eq_str(name, "g") || chars_eq_str(name, "blue") || chars_eq_str(name, "b") {
        channel_size_of(d)
    } else {
        ply_type_size_of(dtype)
    }
}

/// The point a finished record gives.
fn finish_point(acc: &PointAcc) -> (r: RawPlyPoint)
    ensures
        r == point_of(*acc),
{
    let normal = match (acc.nx, acc.ny, acc.nz) {
        (Some(a), Some(b), Some(c)) => Some((a, b, c)),
        _ => None,
    };
    let color = match (acc.r, acc.g, acc.b) {
        (Some(a), Some(b), Some(c)) => Some((a, b, c)),
        _ => None,
    };
    RawPlyPoint { x: acc.x, y: acc.y, z: acc.z, normal, color }
}

impl PointCloudReader {
    /// Decodes the body of a binary PLY point cloud (the whole file, with
    /// the header read from it): one record per vertex, each property read
    /// by its name and type; running out of data fails.
    pub fn decode_ply_points(&self, data: &[u8], header: &PlyHeader) -> (r: Result<
        Vec<RawPlyPoint>,
        PointCloudError,
    >)
        ensures
            match ply_points_of(data@, *header) {
                None => r == Err::<Vec<RawPlyPoint>, PointCloudError>(
                    PointCloudError::IoError(IoErrorKind::UnexpectedEof),
                ),
                Some(ps) => r matches Ok(v) && v@ == ps,
            },
    {
        let props = &header.properties;
        let le = header.little_endian;
        let ghost pv = props_view(props@);
        let ghost len = record_len_from(pv, 0);
        let n = header.vertex_count;
        let start = header.header_bytes;
        let mut points: Vec<RawPlyPoint> = Vec::new();
        let mut pos: usize = start;
        let mut k: usize = 0;
        while k < n
            invariant
                k <= n,
                n == header.vertex_count,
                start == header.header_bytes,
                le == header.little_endian,
                props == &header.properties,
                pv == props_view(props@),
                len == record_len_from(pv, 0),
                pos == start + k * len,
                k > 0 && len > 0 ==> pos <= data.len(),
                points@.len() == k,
                forall|i: int|
                    0 <= i < k ==> #[trigger] points@[i] == ply_point_at(data@, start + i * len, pv, le),
            decreases n - k,
        {
            let rec_start = pos;
            let mut acc = PointAcc {
                x: PlyCoord::Zero,
                y: PlyCoord::Zero,
                z: PlyCoord::Zero,
                nx: None,
                ny: None,
                nz: None,
                r: None,
                g: None,
                b: None,
            };
            let mut p = pos;
            let mut i: usize = 0;
            while i < props.len()
                invariant
                    i <= props.len(),
                    props == &header.properties,
                    pv == props_view(props@),
                    len == record_len_from(pv, 0),
                    rec_start == start + k * len,
                    k < n,
                    n == header.vertex_count,
                    start == header.header_bytes,
                    p + record_len_from(pv, i as int) == rec_start + len,
                    p == rec_start || p <= data.len(),
                    record_fold(data@, rec_start as int, pv, 0, le, acc_start()) == record_fold(
                        data@,
                        p as int,
                        pv,
                        i as int,
                        le,
                        acc,
                    ),
                decreases props.len() - i,
            {
                let name = str_chars(props[i].name.as_str());
                let d = str_chars(props[i].dtype.as_str());
                assert(pv[i as int] == (name@, d@));
                proof {
                    lemma_record_len_step(pv, i as int);
                    lemma_record_len_suffix(pv, i as int);
                }
                let sz = prop_size_of(name.as_slice(), d.as_slice(), props[i].dtype.as_str());
                if sz > 0 && (p > data.len() || data.len() - p < sz) {
                    assert(header.header_bytes + header.vertex_count * len > data.len()) by (
                    nonlinear_arith)
                        requires
                            rec_start == start + k * len,
                            rec_start + len > data.len(),
                            k < n,
                            start == header.header_bytes,
                            n == header.vertex_count,
                    ;
                    return Err(PointCloudError::IoError(IoErrorKind::UnexpectedEof));
                }
                acc = step_prop(acc, name.as_slice(), d.as_slice(), data, p, le);
                p = p + sz;
                i = i + 1;
            }
            points.push(finish_point(&acc));
            assert((k + 1) * len == k * len + len) by (nonlinear_arith);
            pos = p;
            k = k + 1;
        }
        assert(points@ =~= Seq::new(
            n as nat,
            |i: int| ply_point_at(data@, start + i * len, pv, le),
        ));
        assert(n > 0 && len > 0 ==> start + n * len <= data.len());
        Ok(points)
    }
}

// ---------------------------------------------------------------------------
// Where each value of a point comes from
// ---------------------------------------------------------------------------

/// The byte offset of property `i` in a record: the sizes of the properties
/// before it, added up.
pub open spec fn ply_prop_offset(props: Seq<(Seq<char>, Seq<char>)>, i: int) -> int
    decreases i,
{
    if i <= 0 || props.len() == 0 {
        0
    } else if i > props.len() {
        ply_prop_offset(props, props.len() as int)
    } else {
        ply_prop_offset(props, i - 1) + prop_size(props[i - 1])
    }
}

/// The slot of a point that a coordinate or normal property fills: x, y,
/// z, nx, ny, nz as 0 to 5, -1 for other names.
spec fn coord_slot(n: Seq<char>) -> int {
    if n == "x"@ {
        0
    } else if n == "y"@ {
        1
    } else if n == "z"@ {
        2
    } else if n == "nx"@ {
        3
    } else if n == "ny"@ {
        4
    } else if n == "nz"@ {
        5
    } else {
        -1
    }
}

/// The slot of a point that a color property fills: red, green, blue (or
/// r, g, b) as 0 to 2, -1 for other names.
spec fn channel_slot(n: Seq<char>) -> int {
    if coord_slot(n) >= 0 {
        -1
    } else if n == "red"@ || n == "r"@ {
        0
    } else if n == "green"@ || n == "g"@ {
        1
    } else if n == "blue"@ || n == "b"@ {
        2
    } else {
        -1
    }
}

/// The slots of the names a point is read from.
proof fn lemma_slot_names()
    ensures
        coord_slot("x"@) == 0,
        coord_slot("y"@) == 1,
        coord_slot("z"@) == 2,
        coord_slot("nx"@) == 3,
        coord_slot("ny"@) == 4,
        coord_slot("nz"@) == 5,
        channel_slot("red"@) == 0,
        channel_slot("r"@) == 0,
        channel_slot("green"@) == 1,
        channel_slot("g"@) == 1,
        channel_slot("blue"@) == 2,
        channel_slot("b"@) == 2,
{
    reveal_strlit("x");
    reveal_strlit("y");
    reveal_strlit("z");
    reveal_strlit("nx");
    reveal_strlit("ny");
    reveal_strlit("nz");
    reveal_strlit("red");
    reveal_strlit("r");
    reveal_strlit("green");
    reveal_strlit("g");
    reveal_strlit("blue");
    reveal_strlit("b");
    assert("x"@[0] != "y"@[0]);
    assert("x"@[0] != "z"@[0]);
    assert("y"@[0] != "z"@[0]);
    assert("nx"@[1] != "ny"@[1]);
    assert("nx"@[1] != "nz"@[1]);
    assert("ny"@[1] != "nz"@[1]);
    assert("red"@[0] != "green"@[0]);
    assert("r"@[0] != "g"@[0]);
    assert("red"@[0] != "blue"@[0]);
    assert("r"@[0] != "b"@[0]);
    assert("green"@[0] != "blue"@[0]);
    assert("g"@[0] != "b"@[0]);
    assert("r"@[0] != "x"@[0]);
    assert("g"@[0] != "x"@[0]);
    assert("b"@[0] != "x"@[0]);
    assert("r"@[0] != "y"@[0]);
    assert("g"@[0] != "y"@[0]);
    assert("b"@[0] != "y"@[0]);
    assert("r"@[0] != "z"@[0]);
    assert("g"@[0] != "z"@[0]);
    assert("b"@[0] != "z"@[0]);
}

/// The coordinate slot `s` of `acc`.
spec fn coord_in(acc: PointAcc, s: int) -> Option<PlyCoord> {
    if s == 0 {
        Some(acc.x)
    } else if s == 1 {
        Some(acc.y)
    } else if s == 2 {
        Some(acc.z)
    } else if s == 3 {
        acc.nx
    } else if s == 4 {
        acc.ny
    } else {
        acc.nz
    }
}

/// The color slot `s` of `acc`.
spec fn channel_in(acc: PointAcc, s: int) -> Option<PlyChannel> {
    if s == 0 {
        acc.r
    } else if s == 1 {
        acc.g
    } else {
        acc.b
    }
}

/// The property offsets add the sizes up.
proof fn lemma_prop_offset_step(props: Seq<(Seq<char>, Seq<char>)>, i: int)
    requires
        0 <= i < props.len(),
    ensures
        ply_prop_offset(props, i + 1) == ply_prop_offset(props, i) + prop_size(props[i]),
{
}

/// The offset of a property and the sizes from it on make a record.
proof fn lemma_prop_offset_len(props: Seq<(Seq<char>, Seq<char>)>, i: int)
    requires
        0 <= i <= props.len(),
    ensures
        ply_prop_offset(props, i) + record_len_from(props, i) == record_len_from(props, 0),
    decreases i,
{
    if i > 0 {
        lemma_prop_offset_len(props, i - 1);
    }
}

/// Reading a property changes the coordinate slot it names, to its value,
/// and no other.
proof fn lemma_step_coord(acc: PointAcc, p: (Seq<char>, Seq<char>), data: Seq<u8>, pos: int, le: bool, s: int)
    requires
        0 <= s < 6,
    ensures
        coord_in(prop_step(acc, p, data, pos, le), s) == if coord_slot(p.0) == s {
            Some(coord_at(data, pos, p.1, le))
        } else {
            coord_in(acc, s)
        },
{
}

/// Reading a property changes the color slot it names, to its value, and
/// no other.
proof fn lemma_step_channel(acc: PointAcc, p: (Seq<char>, Seq<char>), data: Seq<u8>, pos: int, le: bool, s: int)
    requires
        0 <= s < 3,
    ensures
        channel_in(prop_step(acc, p, data, pos, le), s) == if channel_slot(p.0) == s {
            Some(channel_at(data, pos, p.1))
        } else {
            channel_in(acc, s)
        },
{
}

/// Reading the properties from `i` on leaves in coordinate slot `s` the
/// value of property `t`, the last that fills it, or what was there when no
/// property from `i` on fills it.
proof fn lemma_fold_coord(
    data: Seq<u8>,
    pos: int,
    props: Seq<(Seq<char>, Seq<char>)>,
    i: int,
    le: bool,
    acc: PointAcc,
    s: int,
    t: int,
)
    requires
        0 <= s < 6,
        0 <= i <= props.len(),
        -1 <= t < props.len(),
        t >= 0 ==> coord_slot(props[t].0) == s,
        forall|j: int| t < j < props.len() ==> coord_slot(#[trigger] props[j].0) != s,
    ensures
        coord_in(record_fold(data, pos, props, i, le, acc), s) == if t >= i {
            Some(
                coord_at(
                    data,
                    pos + ply_prop_offset(props, t) - ply_prop_offset(props, i),
                    props[t].1,
                    le,
                ),
            )
        } else {
            coord_in(acc, s)
        },
    decreases props.len() - i,
{
    if i < props.len() {
        let acc2 = prop_step(acc, props[i], data, pos, le);
        lemma_step_coord(acc, props[i], data, pos, le, s);
        lemma_prop_offset_step(props, i);
        lemma_fold_coord(data, pos + prop_size(props[i]), props, i + 1, le, acc2, s, t);
    }
}

/// Reading the properties from `i` on leaves in color slot `s` the value of
/// property `t`, the last that fills it, or what was there when no property
/// from `i` on fills it.
proof fn lemma_fold_channel(
    data: Seq<u8>,
    pos: int,
    props: Seq<(Seq<char>, Seq<char>)>,
    i: int,
    le: bool,
    acc: PointAcc,
    s: int,
    t: int,
)
    requires
        0 <= s < 3,
        0 <= i <= props.len(),
        -1 <= t < props.len(),
        t >= 0 ==> channel_slot(props[t].0) == s,
        forall|j: int| t < j < props.len() ==> channel_slot(#[trigger] props[j].0) != s,
    ensures
        channel_in(record_fold(data, pos, props, i, le, acc), s) == if t >= i {
            Some(
                channel_at(data, pos + ply_prop_offset(props, t) - ply_prop_offset(props, i), props[t].1),
            )
        } else {
            channel_in(acc, s)
        },
    decreases props.len() - i,
{
    if i < props.len() {
        let acc2 = prop_step(acc, props[i], data, pos, le);
        lemma_step_channel(acc, props[i], data, pos, le, s);
        lemma_prop_offset_step(props, i);
        lemma_fold_channel(data, pos + prop_size(props[i]), props, i + 1, le, acc2, s, t);
    }
}

/// The coordinate a property of type `dtype` holds at `pos`: a single for
/// float and float32, a double for double and float64, in the file's byte
/// order.
pub open spec fn ply_coord_value(data: Seq<u8>, pos: int, dtype: Seq<char>, le: bool) -> PlyCoord {
    if dtype == "float"@ || dtype == "float32"@ {
        PlyCoord::Single(
            (if le {
                data[pos] + data[pos + 1] * 0x100 + data[pos + 2] * 0x10000 + data[pos + 3]
                    * 0x100_0000
            } else {
                data[pos + 3] + data[pos + 2] * 0x100 + data[pos + 1] * 0x10000 + data[pos]
                    * 0x100_0000
            }) as u32,
        )
    } else if dtype == "double"@ || dtype == "float64"@ {
        PlyCoord::Double(
            (if le {
                le_u32(data, pos) + le_u32(data, pos + 4) * 0x1_0000_0000
            } else {
                be_u32(data, pos + 4) + be_u32(data, pos) * 0x1_0000_0000
            }) as u64,
        )
    } else {
        PlyCoord::Zero
    }
}

/// The color channel a property of type `dtype` holds at `pos`: a
/// little-endian single for float, float32 and double, a byte otherwise.
pub open spec fn ply_channel_value(data: Seq<u8>, pos: int, dtype: Seq<char>) -> PlyChannel {
    if dtype == "float"@ || dtype == "float32"@ || dtype == "double"@ {
        PlyChannel::Unit(
            (data[pos] + data[pos + 1] * 0x100 + data[pos + 2] * 0x10000 + data[pos + 3]
                * 0x100_0000) as u32,
        )
    } else {
        PlyChannel::Byte(data[pos])
    }
}

/// Where each value of a binary PLY point comes from: record `k` starts `k`
/// record sizes after the header, and when property `t` is the last one of
/// its name, the value it holds (at its offset in the record, the sizes of
/// the properties before it added up) is the point's x, y or z, or the
/// first, second or third component of its normal, for the names x, y, z,
/// nx, ny and nz.
pub proof fn law_ply_point_coordinates(data: Seq<u8>, h: PlyHeader, k: int, t: int)
    ensures
        ({
            let props = props_view(h.properties@);
            let rec = h.header_bytes + k * ply_prop_offset(props, props.len() as int);
            ply_points_of(data, h) matches Some(ps) ==> (0 <= k < ps.len() && 0 <= t < props.len()
                && (forall|j: int| t < j < props.len() ==> #[trigger] props[j].0 != props[t].0)
                ==> {
                let v = ply_coord_value(
                    data,
                    rec + ply_prop_offset(props, t),
                    props[t].1,
                    h.little_endian,
                );
                &&& props[t].0 == "x"@ ==> ps[k].x == v
                &&& props[t].0 == "y"@ ==> ps[k].y == v
                &&& props[t].0 == "z"@ ==> ps[k].z == v
                &&& props[t].0 == "nx"@ ==> (ps[k].normal matches Some(n) ==> n.0 == v)
                &&& props[t].0 == "ny"@ ==> (ps[k].normal matches Some(n) ==> n.1 == v)
                &&& props[t].0 == "nz"@ ==> (ps[k].normal matches Some(n) ==> n.2 == v)
            })
        }),
{
    reveal_strlit("x");
    reveal_strlit("y");
    reveal_strlit("z");
    reveal_strlit("nx");
    reveal_strlit("ny");
    reveal_strlit("nz");
    reveal_strlit("float");
    reveal_strlit("float32");
    reveal_strlit("double");
    reveal_strlit("float64");
    let props = props_view(h.properties@);
    let len = record_len_from(props, 0);
    lemma_prop_offset_len(props, props.len() as int);
    if ply_points_of(data, h) is Some && 0 <= k < h.vertex_count && 0 <= t < props.len() && (
    forall|j: int| t < j < props.len() ==> #[trigger] props[j].0 != props[t].0) {
        let pos = h.header_bytes + k * len;
        let s = coord_slot(props[t].0);
        lemma_slot_names();
        if s >= 0 {
            assert forall|j: int| t < j < props.len() implies coord_slot(#[trigger] props[j].0)
                != s by {
                reveal_strlit("x");
                reveal_strlit("y");
                reveal_strlit("z");
                reveal_strlit("nx");
                reveal_strlit("ny");
                reveal_strlit("nz");
                assert(props[j].0 != props[t].0);
            }
            lemma_fold_coord(data, pos, props, 0, h.little_endian, acc_start(), s, t);
            assert(ply_prop_offset(props, 0) == 0);
            let ps = ply_points_of(data, h)->Some_0;
            assert(ps[k] == ply_point_at(data, pos, props, h.little_endian));
            let acc = record_fold(data, pos, props, 0, h.little_endian, acc_start());
            assert(coord_in(acc, s) == Some(coord_at(data, pos + ply_prop_offset(props, t), props[t].1, h.little_endian)));
            assert(ply_coord_value(data, pos + ply_prop_offset(props, t), props[t].1, h.little_endian)
                == coord_at(data, pos + ply_prop_offset(props, t), props[t].1, h.little_endian));
            let v = ply_coord_value(data, pos + ply_prop_offset(props, t), props[t].1, h.little_endian);
            assert(ply_prop_offset(props, props.len() as int) == len);
            assert(h.header_bytes + k * ply_prop_offset(props, props.len() as int) == pos);
            if s == 0 {
                assert(ps[k].x == v);
            } else if s == 1 {
                assert(ps[k].y == v);
            } else if s == 2 {
                assert(ps[k].z == v);
            } else if s == 3 {
                assert(ps[k].normal matches Some(n) ==> n.0 == v);
            } else if s == 4 {
                assert(ps[k].normal matches Some(n) ==> n.1 == v);
            } else {
                assert(ps[k].normal matches Some(n) ==> n.2 == v);
            }
        }
        reveal_strlit("x");
        reveal_strlit("y");
        reveal_strlit("z");
        reveal_strlit("nx");
        reveal_strlit("ny");
        reveal_strlit("nz");
        reveal_strlit("float");
        reveal_strlit("float32");
        reveal_strlit("double");
        reveal_strlit("float64");
    }
}

/// Where each color channel of a binary PLY point comes from: when property
/// `t` is the last one named red (or r), green (or g), or blue (or b), the
/// value it holds at its offset in the record is the first, second or third
/// channel of the point's color.
pub proof fn law_ply_point_colors(data: Seq<u8>, h: PlyHeader, k: int, t: int)
    ensures
        ({
            let props = props_view(h.properties@);
            let rec = h.header_bytes + k * ply_prop_offset(props, props.len() as int);
            let red = |n: Seq<char>| n == "red"@ || n == "r"@;
            let green = |n: Seq<char>| n == "green"@ || n == "g"@;
            let blue = |n: Seq<char>| n == "blue"@ || n == "b"@;
            ply_points_of(data, h) matches Some(ps) ==> (0 <= k < ps.len() && 0 <= t < props.len()
                ==> {
                let v = ply_channel_value(data, rec + ply_prop_offset(props, t), props[t].1);
                &&& red(props[t].0) && (forall|j: int| t < j < props.len() ==> !red(#[trigger] props[j].0))
                    ==> (ps[k].color matches Some(c) ==> c.0 == v)
                &&& green(props[t].0) && (forall|j: int| t < j < props.len() ==> !green(#[trigger] props[j].0))
                    ==> (ps[k].color matches Some(c) ==> c.1 == v)
                &&& blue(props[t].0) && (forall|j: int| t < j < props.len() ==> !blue(#[trigger] props[j].0))
                    ==> (ps[k].color matches Some(c) ==> c.2 == v)
            })
        }),
{
    let props = props_view(h.properties@);
    let len = record_len_from(props, 0);
    lemma_prop_offset_len(props, props.len() as int);
    reveal_strlit("x");
    reveal_strlit("y");
    reveal_strlit("z");
    reveal_strlit("nx");
    reveal_strlit("ny");
    reveal_strlit("nz");
    reveal_strlit("red");
    reveal_strlit("r");
    reveal_strlit("green");
    reveal_strlit("g");
    reveal_strlit("blue");
    reveal_strlit("b");
    reveal_strlit("float");
    reveal_strlit("float32");
    reveal_strlit("double");
    if ply_points_of(data, h) is Some && 0 <= k < h.vertex_count && 0 <= t < props.len() {
        let pos = h.header_bytes + k * len;
        let s = channel_slot(props[t].0);
        lemma_slot_names();
        if s >= 0 && (forall|j: int| t < j < props.len() ==> channel_slot(#[trigger] props[j].0) != s) {
            lemma_fold_channel(data, pos, props, 0, h.little_endian, acc_start(), s, t);
            let ps = ply_points_of(data, h)->Some_0;
            assert(ps[k] == ply_point_at(data, pos, props, h.little_endian));
            assert(ply_prop_offset(props, 0) == 0);
            let v = ply_channel_value(data, pos + ply_prop_offset(props, t), props[t].1);
            assert(v == channel_at(data, pos + ply_prop_offset(props, t), props[t].1));
            assert(ply_prop_offset(props, props.len() as int) == len);
            assert(h.header_bytes + k * ply_prop_offset(props, props.len() as int) == pos);
            if s == 0 {
                assert(ps[k].color matches Some(c) ==> c.0 == v);
            } else if s == 1 {
                assert(ps[k].color matches Some(c) ==> c.1 == v);
            } else {
                assert(ps[k].color matches Some(c) ==> c.2 == v);
            }
        }
    }
}

/// The last property before `end` that fills coordinate slot `s`, or -1.
proof fn lemma_last_coord(props: Seq<(Seq<char>, Seq<char>)>, s: int, end: int) -> (t: int)
    requires
        0 <= end <= props.len(),
    ensures
        -1 <= t < end,
        t >= 0 ==> coord_slot(props[t].0) == s,
        forall|j: int| t < j < end ==> coord_slot(#[trigger] props[j].0) != s,
    decreases end,
{
    if end == 0 {
        -1
    } else if coord_slot(props[end - 1].0) == s {
        end - 1
    } else {
        lemma_last_coord(props, s, end - 1)
    }
}

/// The last property before `end` that fills color slot `s`, or -1.
proof fn lemma_last_channel(props: Seq<(Seq<char>, Seq<char>)>, s: int, end: int) -> (t: int)
    requires
        0 <= end <= props.len(),
    ensures
        -1 <= t < end,
        t >= 0 ==> channel_slot(props[t].0) == s,
        forall|j: int| t < j < end ==> channel_slot(#[trigger] props[j].0) != s,
    decreases end,
{
    if end == 0 {
        -1
    } else if channel_slot(props[end - 1].0) == s {
        end - 1
    } else {
        lemma_last_channel(props, s, end - 1)
    }
}

/// Some property of `props` is named `n`.
pub open spec fn ply_declares(props: Seq<(Seq<char>, Seq<char>)>, n: Seq<char>) -> bool {
    exists|j: int| 0 <= j < props.len() && #[trigger] props[j].0 == n
}

/// After a record is read, a normal slot is filled exactly when some
/// property fills it.
proof fn lemma_coord_present(data: Seq<u8>, pos: int, props: Seq<(Seq<char>, Seq<char>)>, le: bool, s: int)
    requires
        3 <= s < 6,
    ensures
        coord_in(record_fold(data, pos, props, 0, le, acc_start()), s) is Some <==> exists|j: int|
            0 <= j < props.len() && coord_slot(#[trigger] props[j].0) == s,
{
    let t = lemma_last_coord(props, s, props.len() as int);
    lemma_fold_coord(data, pos, props, 0, le, acc_start(), s, t);
    if t >= 0 {
        assert(coord_slot(props[t].0) == s);
    }
}

/// After a record is read, a color slot is filled exactly when some
/// property fills it.
proof fn lemma_channel_present(data: Seq<u8>, pos: int, props: Seq<(Seq<char>, Seq<char>)>, le: bool, s: int)
    requires
        0 <= s < 3,
    ensures
        channel_in(record_fold(data, pos, props, 0, le, acc_start()), s) is Some <==> exists|j: int|
            0 <= j < props.len() && channel_slot(#[trigger] props[j].0) == s,
{
    let t = lemma_last_channel(props, s, props.len() as int);
    lemma_fold_channel(data, pos, props, 0, le, acc_start(), s, t);
    if t >= 0 {
        assert(channel_slot(props[t].0) == s);
    }
}

/// Some property fills coordinate slot `s` exactly when one is named `n`.
proof fn lemma_coord_declared(props: Seq<(Seq<char>, Seq<char>)>, s: int, n: Seq<char>)
    requires
        coord_slot(n) == s,
        0 <= s,
    ensures
        (exists|j: int| 0 <= j < props.len() && coord_slot(#[trigger] props[j].0) == s)
            <==> ply_declares(props, n),
{
    if ply_declares(props, n) {
        let j = choose|j: int| 0 <= j < props.len() && #[trigger] props[j].0 == n;
        assert(coord_slot(props[j].0) == s);
    }
    if exists|j: int| 0 <= j < props.len() && coord_slot(#[trigger] props[j].0) == s {
        let j = choose|j: int| 0 <= j < props.len() && coord_slot(#[trigger] props[j].0) == s;
        lemma_slot_names();
        assert(props[j].0 == n);
    }
}

/// Some property fills color slot `s` exactly when one is named `a` or `b`.
proof fn lemma_channel_declared(props: Seq<(Seq<char>, Seq<char>)>, s: int, a: Seq<char>, b: Seq<char>)
    requires
        channel_slot(a) == s,
        channel_slot(b) == s,
        0 <= s,
        forall|n: Seq<char>| channel_slot(n) == s ==> n == a || n == b,
    ensures
        (exists|j: int| 0 <= j < props.len() && channel_slot(#[trigger] props[j].0) == s)
            <==> (ply_declares(props, a) || ply_declares(props, b)),
{
    if ply_declares(props, a) {
        let j = choose|j: int| 0 <= j < props.len() && #[trigger] props[j].0 == a;
        assert(channel_slot(props[j].0) == s);
    }
    if ply_declares(props, b) {
        let j = choose|j: int| 0 <= j < props.len() && #[trigger] props[j].0 == b;
        assert(channel_slot(props[j].0) == s);
    }
    if exists|j: int| 0 <= j < props.len() && channel_slot(#[trigger] props[j].0) == s {
        let j = choose|j: int| 0 <= j < props.len() && channel_slot(#[trigger] props[j].0) == s;
        assert(props[j].0 == a || props[j].0 == b);
    }
}

/// A binary PLY point has a normal exactly when properties named nx, ny and
/// nz are all declared, and a color exactly when a red (or r), a green (or
/// g) and a blue (or b) property are.
pub proof fn law_ply_point_parts(data: Seq<u8>, h: PlyHeader, k: int)
    ensures
        ({
            let props = props_view(h.properties@);
            ply_points_of(data, h) matches Some(ps) ==> (0 <= k < ps.len() ==> {
                &&& ps[k].normal is Some <==> ply_declares(props, "nx"@) && ply_declares(
                    props,
                    "ny"@,
                ) && ply_declares(props, "nz"@)
                &&& ps[k].color is Some <==> (ply_declares(props, "red"@) || ply_declares(
                    props,
                    "r"@,
                )) && (ply_declares(props, "green"@) || ply_declares(props, "g"@)) && (
                ply_declares(props, "blue"@) || ply_declares(props, "b"@))
            })
        }),
{
    let props = props_view(h.properties@);
    let len = record_len_from(props, 0);
    lemma_slot_names();
    if ply_points_of(data, h) is Some && 0 <= k < h.vertex_count {
        let pos = h.header_bytes + k * len;
        let le = h.little_endian;
        let acc = record_fold(data, pos, props, 0, le, acc_start());
        let ps = ply_points_of(data, h)->Some_0;
        assert(ps[k] == point_of(acc));
        lemma_coord_present(data, pos, props, le, 3);
        lemma_coord_present(data, pos, props, le, 4);
        lemma_coord_present(data, pos, props, le, 5);
        lemma_coord_declared(props, 3, "nx"@);
        lemma_coord_declared(props, 4, "ny"@);
        lemma_coord_declared(props, 5, "nz"@);
        lemma_channel_present(data, pos, props, le, 0);
        lemma_channel_present(data, pos, props, le, 1);
        lemma_channel_present(data, pos, props, le, 2);
        lemma_channel_declared(props, 0, "red"@, "r"@);
        lemma_channel_declared(props, 1, "green"@, "g"@);
        lemma_channel_declared(props, 2, "blue"@, "b"@);
    }
}

/// How far apart the properties of a binary PLY record are: x, y, z, nx,
/// ny and nz take 4 bytes as float or float32, 8 as double or float64 and
/// none as any other type; red, green and blue (or r, g, b) take 4 bytes as
/// float, float32 or double and 1 otherwise; any other property takes the
/// size of its type.
pub proof fn law_ply_prop_layout(props: Seq<(Seq<char>, Seq<char>)>, i: int)
    ensures
        0 <= i < props.len() ==> {
            let n = props[i].0;
            let d = props[i].1;
            ply_prop_offset(props, i + 1) == ply_prop_offset(props, i) + if n == "x"@ || n == "y"@
                || n == "z"@ || n == "nx"@ || n == "ny"@ || n == "nz"@ {
                if d == "float"@ || d == "float32"@ {
                    4int
                } else if d == "double"@ || d == "float64"@ {
                    8int
                } else {
                    0int
                }
            } else if n == "red"@ || n == "r"@ || n == "green"@ || n == "g"@ || n == "blue"@ || n
                == "b"@ {
                if d == "float"@ || d == "float32"@ || d == "double"@ {
                    4int
                } else {
                    1int
                }
            } else {
                ply_type_size(d) as int
            }
        },
        ply_prop_offset(props, 0) == 0,
{
}

} // verus!

use vstd::prelude::*;
use crate::bytes::{le_u32, read_le_u32};
use crate::error::{IoErrorKind, PointCloudError};
use crate::io::PointCloudReader;
use crate::pcd::PcdHeader;
use crate::text::{chars_eq_str, str_chars};
use crate::types::Color;

verus! {

/// A point of a binary PCD body as stored: its coordinates and normal as
/// single-precision bit patterns, its color from the `rgb` field.
#[derive(Debug, Clone, Copy, PartialEq, Eq)]
pub struct RawPcdPoint {
    pub x: u32,
    pub y: u32,
    pub z: u32,
    pub normal: Option<(u32, u32, u32)>,
    pub color: Option<Color>,
}

/// What has been read of a point so far.
pub struct PcdAcc {
    pub x: u32,
    pub y: u32,
    pub z: u32,
    pub nx: Option<u32>,
    pub ny: Option<u32>,
    pub nz: Option<u32>,
    pub rgb: Option<u32>,
}

/// Nothing read yet.
pub open spec fn pcd_acc_start() -> PcdAcc {
    PcdAcc { x: 0, y: 0, z: 0, nx: None, ny: None, nz: None, rgb: None }
}

/// The field is one the reader reads as a single.
pub open spec fn is_read_field(n: Seq<char>) -> bool {
    n == "x"@ || n == "y"@ || n == "z"@ || n == "normal_x"@ || n == "normal_y"@ || n
        == "normal_z"@ || n == "rgb"@ || n == "rgba"@
}

/// The values field `i` holds per point: its `COUNT`, or 1.
pub open spec fn field_count(counts: Seq<usize>, i: int) -> int {
    if 0 <= i < counts.len() {
        counts[i] as int
    } else {
        1
    }
}

/// The bytes one value of field `i` takes: 4 for a field the reader reads,
/// otherwise its `SIZE`, or 4.
pub open spec fn slot_size(fields: Seq<Seq<char>>, sizes: Seq<usize>, i: int) -> nat {
    if is_read_field(fields[i]) {
        4
    } else if 0 <= i < sizes.len() {
        sizes[i] as nat
    } else {
        4
    }
}

/// The bytes of the values from value `j` of field `i` on.
pub open spec fn pcd_len_from(fields: Seq<Seq<char>>, sizes: Seq<usize>, counts: Seq<usize>, i: int, j: int) -> nat
    decreases fields.len() - i, field_count(counts, i) - j,
{
    if i < 0 || i >= fields.len() {
        0
    } else if j < 0 || j >= field_count(counts, i) {
        pcd_len_from(fields, sizes, counts, i + 1, 0)
    } else {
        slot_size(fields, sizes, i) + pcd_len_from(fields, sizes, counts, i, j + 1)
    }
}

/// `acc` after reading one value of the field named `n` at `pos`.
pub open spec fn pcd_step(acc: PcdAcc, n: Seq<char>, data: Seq<u8>, pos: int) -> PcdAcc {
    let v = le_u32(data, pos) as u32;
    if n == "x"@ {
        PcdAcc { x: v, ..acc }
    } else if n == "y"@ {
        PcdAcc { y: v, ..acc }
    } else if n == "z"@ {
        PcdAcc { z: v, ..acc }
    } else if n == "normal_x"@ {
        PcdAcc { nx: Some(v), ..acc }
    } else if n == "normal_y"@ {
        PcdAcc { ny: Some(v), ..acc }
    } else if n == "normal_z"@ {
        PcdAcc { nz: Some(v), ..acc }
    } else if n == "rgb"@ || n == "rgba"@ {
        PcdAcc { rgb: Some(v), ..acc }
    } else {
        acc
    }
}

/// Reading the values from value `j` of field `i` on, starting at `pos`.
pub open spec fn pcd_fold(
    data: Seq<u8>,
    pos: int,
    fields: Seq<Seq<char>>,
    sizes: Seq<usize>,
    counts: Seq<usize>,
    i: int,
    j: int,
    acc: PcdAcc,
) -> PcdAcc
    decreases fields.len() - i, field_count(counts, i) - j,
{
    if i < 0 || i >= fields.len() {
        acc
    } else if j < 0 || j >= field_count(counts, i) {
        pcd_fold(data, pos, fields, sizes, counts, i + 1, 0, acc)
    } else {
        pcd_fold(
            data,
            pos + slot_size(fields, sizes, i),
            fields,
            sizes,
            counts,
            i,
            j + 1,
            pcd_step(acc, fields[i], data, pos),
        )
    }
}

/// The color packed in the low three bytes of `rgb`.
pub open spec fn unpack_rgb(rgb: u32) -> Color {
    Color { r: ((rgb >> 16) & 0xff) as u8, g: ((rgb >> 8) & 0xff) as u8, b: (rgb & 0xff) as u8 }
}

/// The point a finished record gives.
pub open spec fn pcd_point_of(acc: PcdAcc) -> RawPcdPoint {
    RawPcdPoint {
        x: acc.x,
        y: acc.y,
        z: acc.z,
        normal: match (acc.nx, acc.ny, acc.nz) {
            (Some(a), Some(b), Some(c)) => Some((a, b, c)),
            _ => None,
        },
        color: match acc.rgb {
            Some(v) => Some(unpack_rgb(v)),
            None => None,
        },
    }
}

/// The field names of a header.
pub open spec fn field_names(h: PcdHeader) -> Seq<Seq<char>> {
    h.fields@.map_values(|f: String| f@)
}

/// The points of a binary PCD body: `POINTS` records right after the
/// header, or `None` when the data ends first.
pub open spec fn pcd_points_of(data: Seq<u8>, h: PcdHeader) -> Option<Seq<RawPcdPoint>> {
    let f = field_names(h);
    let len = pcd_len_from(f, h.sizes@, h.counts@, 0, 0);
    if h.points > 0 && len > 0 && h.data_offset + h.points * len > data.len() {
        None
    } else {
        Some(
            Seq::new(
                h.points as nat,
                |k: int|
                    pcd_point_of(
                        pcd_fold(
                            data,
                            h.data_offset + k * len,
                            f,
                            h.sizes@,
                            h.counts@,
                            0,
                            0,
                            pcd_acc_start(),
                        ),
                    ),
            ),
        )
    }
}

/// The field named `n` is one the reader reads.
fn is_read_field_name(n: &[char]) -> (r: bool)
    ensures
        r == is_read_field(n@),
{
    chars_eq_str(n, "x") || chars_eq_str(n, "y") || chars_eq_str(n, "z") || chars_eq_str(
        n,
        "normal_x",
    ) || chars_eq_str(n, "normal_y") || chars_eq_str(n, "normal_z") || chars_eq_str(n, "rgb")
        || chars_eq_str(n, "rgba")
}

/// `acc` after reading one value of the field named `n` at `pos`.
fn step_field(acc: PcdAcc, n: &[char], data: &[u8], pos: usize) -> (r: PcdAcc)
    requires
        is_read_field(n@) ==> pos + 4 <= data.len(),
    ensures
        r == pcd_step(acc, n@, data@, pos as int),
{
    if !is_read_field_name(n) {
        return acc;
    }
    let v = read_le_u32(data, pos);
    if chars_eq_str(n, "x") {
        PcdAcc { x: v, ..acc }
    } else if chars_eq_str(n, "y") {
        PcdAcc { y: v, ..acc }
    } else if chars_eq_str(n, "z") {
        PcdAcc { z: v, ..acc }
    } else if chars_eq_str(n, "normal_x") {
        PcdAcc { nx: Some(v), ..acc }
    } else if chars_eq_str(n, "normal_y") {
        PcdAcc { ny: Some(v), ..acc }
    } else if chars_eq_str(n, "normal_z") {
        PcdAcc { nz: Some(v), ..acc }
    } else {
        PcdAcc { rgb: Some(v), ..acc }
    }
}

/// The color packed in `rgb`.
fn unpack(rgb: u32) -> (c: Color)
    ensures
        c == unpack_rgb(rgb),
{
    Color { r: ((rgb >> 16) & 0xff) as u8, g: ((rgb >> 8) & 0xff) as u8, b: (rgb & 0xff) as u8 }
}

/// The point a finished record gives.
fn finish_pcd_point(acc: &PcdAcc) -> (r: RawPcdPoint)
    ensures
        r == pcd_point_of(*acc),
{
    let normal = match (acc.nx, acc.ny, acc.nz) {
        (Some(a), Some(b), Some(c)) => Some((a, b, c)),
        _ => None,
    };
    let color = match acc.rgb {
        Some(v) => Some(unpack(v)),
        None => None,
    };
    RawPcdPoint { x: acc.x, y: acc.y, z: acc.z, normal, color }
}

impl PointCloudReader {
    /// Decodes the body of a binary PCD file (the whole file, with the
    /// header read from it): per point, each field's values in turn, the
    /// known fields as little-endian singles, the others skipped by their
    /// size; running out of data fails.
    pub fn decode_pcd_points(&self, data: &[u8], header: &PcdHeader) -> (r: Result<
        Vec<RawPcdPoint>,
        PointCloudError,
    >)
        ensures
            match pcd_points_of(data@, *header) {
                None => r == Err::<Vec<RawPcdPoint>, PointCloudError>(
                    PointCloudError::IoError(IoErrorKind::UnexpectedEof),
                ),
                Some(ps) => r matches Ok(v) && v@ == ps,
            },
    {
        let ghost f = field_names(*header);
        let ghost sz = header.sizes@;
        let ghost ct = header.counts@;
        let ghost len = pcd_len_from(f, sz, ct, 0, 0);
        let n = header.points;
        let start = header.data_offset;
        let mut points: Vec<RawPcdPoint> = Vec::new();
        let mut pos: usize = start;
        let mut k: usize = 0;
        while k < n
            invariant
                k <= n,
                n == header.points,
                start == header.data_offset,
                f == field_names(*header),
                sz == header.sizes@,
                ct == header.counts@,
                len == pcd_len_from(f, sz, ct, 0, 0),
                pos == start + k * len,
                k > 0 && len > 0 ==> pos <= data.len(),
                points@.len() == k,
                forall|i: int|
                    0 <= i < k ==> #[trigger] points@[i] == pcd_point_of(
                        pcd_fold(data@, start + i * len, f, sz, ct, 0, 0, pcd_acc_start()),
                    ),
            decreases n - k,
        {
            let rec_start = pos;
            let mut acc = PcdAcc { x: 0, y: 0, z: 0, nx: None, ny: None, nz: None, rgb: None };
            let mut p = pos;
            let mut i: usize = 0;
            while i < header.fields.len()
                invariant
                    i <= header.fields.len(),
                    f == field_names(*header),
                    sz == header.sizes@,
                    ct == header.counts@,
                    len == pcd_len_from(f, sz, ct, 0, 0),
                    rec_start == start + k * len,
                    k < n,
                    n == header.points,
                    start == header.data_offset,
                    rec_start <= p,
                    p + pcd_len_from(f, sz, ct, i as int, 0) == rec_start + len,
                    p == rec_start || p <= data.len(),
                    pcd_fold(data@, rec_start as int, f, sz, ct, 0, 0, pcd_acc_start()) == pcd_fold(
                        data@,
                        p as int,
                        f,
                        sz,
                        ct,
                        i as int,
                        0,
                        acc,
                    ),
                decreases header.fields.len() - i,
            {
                let name = str_chars(header.fields[i].as_str());
                assert(f[i as int] == name@);
                let count: usize = if i < header.counts.len() {
                    header.counts[i]
                } else {
                    1
                };
                let size: usize = if is_read_field_name(name.as_slice()) {
                    4
                } else if i < header.sizes.len() {
                    header.sizes[i]
                } else {
                    4
                };
                assert(size == slot_size(f, sz, i as int));
                assert(count == field_count(ct, i as int));
                let mut j: usize = 0;
                while j < count
                    invariant
                        j <= count,
                        i < header.fields.len(),
                        f == field_names(*header),
                        sz == header.sizes@,
                        ct == header.counts@,
                        f[i as int] == name@,
                        size == slot_size(f, sz, i as int),
                        count == field_count(ct, i as int),
                        len == pcd_len_from(f, sz, ct, 0, 0),
                        rec_start == start + k * len,
                        k < n,
                        n == header.points,
                        start == header.data_offset,
                        rec_start <= p,
                        p + pcd_len_from(f, sz, ct, i as int, j as int) == rec_start + len,
                        p == rec_start || p <= data.len(),
                        pcd_fold(data@, rec_start as int, f, sz, ct, 0, 0, pcd_acc_start())
                            == pcd_fold(data@, p as int, f, sz, ct, i as int, j as int, acc),
                    decreases count - j,
                {
                    assert(pcd_len_from(f, sz, ct, i as int, j as int) == size + pcd_len_from(
                        f,
                        sz,
                        ct,
                        i as int,
                        j + 1,
                    ));
                    if size > 0 && (p > data.len() || data.len() - p < size) {
                        assert(header.data_offset + header.points * len > data.len()) by (
                        nonlinear_arith)
                            requires
                                rec_start == start + k * len,
                                rec_start + len > data.len(),
                                k < n,
                                start == header.data_offset,
                                n == header.points,
                        ;
                        return Err(PointCloudError::IoError(IoErrorKind::UnexpectedEof));
                    }
                    acc = step_field(acc, name.as_slice(), data, p);
                    p = p + size;
                    j = j + 1;
                }
                assert(pcd_len_from(f, sz, ct, i as int, j as int) == pcd_len_from(
                    f,
                    sz,
                    ct,
                    i + 1,
                    0,
                ));
                i = i + 1;
            }
            points.push(finish_pcd_point(&acc));
            assert((k + 1) * len == k * len + len) by (nonlinear_arith);
            pos = p;
            k = k + 1;
        }
        assert(points@ =~= Seq::new(
            n as nat,
            |i: int|
                pcd_point_of(pcd_fold(data@, start + i * len, f, sz, ct, 0, 0, pcd_acc_start())),
        ));
        assert(n > 0 && len > 0 ==> start + n * len <= data.len());
        Ok(points)
    }
}

// ---------------------------------------------------------------------------
// Where each value of a point comes from
// ---------------------------------------------------------------------------

/// The byte offset of field `i` in a record: the bytes of the fields before
/// it (each value's size times the field's count), added up.
pub open spec fn pcd_field_offset(fields: Seq<Seq<char>>, sizes: Seq<usize>, counts: Seq<usize>, i: int) -> int
    decreases i,
{
    if i <= 0 || fields.len() == 0 {
        0
    } else if i > fields.len() {
        pcd_field_offset(fields, sizes, counts, fields.len() as int)
    } else {
        pcd_field_offset(fields, sizes, counts, i - 1) + slot_size(fields, sizes, i - 1) * field_count(
            counts,
            i - 1,
        )
    }
}

/// The slot of a point a field fills: x, y, z, normal_x, normal_y,
/// normal_z as 0 to 5, rgb and rgba as 6, -1 for other names.
spec fn pcd_slot(n: Seq<char>) -> int {
    if n == "x"@ {
        0
    } else if n == "y"@ {
        1
    } else if n == "z"@ {
        2
    } else if n == "normal_x"@ {
        3
    } else if n == "normal_y"@ {
        4
    } else if n == "normal_z"@ {
        5
    } else if n == "rgb"@ || n == "rgba"@ {
        6
    } else {
        -1
    }
}

/// Slot `s` of `acc`.
spec fn pcd_in(acc: PcdAcc, s: int) -> Option<u32> {
    if s == 0 {
        Some(acc.x)
    } else if s == 1 {
        Some(acc.y)
    } else if s == 2 {
        Some(acc.z)
    } else if s == 3 {
        acc.nx
    } else if s == 4 {
        acc.ny
    } else if s == 5 {
        acc.nz
    } else {
        acc.rgb
    }
}

/// The slots of the field names a point is read from.
proof fn lemma_pcd_slot_names()
    ensures
        pcd_slot("x"@) == 0,
        pcd_slot("y"@) == 1,
        pcd_slot("z"@) == 2,
        pcd_slot("normal_x"@) == 3,
        pcd_slot("normal_y"@) == 4,
        pcd_slot("normal_z"@) == 5,
        pcd_slot("rgb"@) == 6,
        pcd_slot("rgba"@) == 6,
{
    reveal_strlit("x");
    reveal_strlit("y");
    reveal_strlit("z");
    reveal_strlit("normal_x");
    reveal_strlit("normal_y");
    reveal_strlit("normal_z");
    reveal_strlit("rgb");
    reveal_strlit("rgba");
    assert("x"@[0] != "y"@[0]);
    assert("x"@[0] != "z"@[0]);
    assert("y"@[0] != "z"@[0]);
    assert("normal_x"@[7] != "normal_y"@[7]);
    assert("normal_x"@[7] != "normal_z"@[7]);
    assert("normal_y"@[7] != "normal_z"@[7]);
    assert("rgb"@[0] != "x"@[0]);
    assert("rgb"@[0] != "y"@[0]);
    assert("rgb"@[0] != "z"@[0]);
    assert("rgb"@[0] != "normal_x"@[0]);
    assert("rgb"@[0] != "normal_y"@[0]);
    assert("rgb"@[0] != "normal_z"@[0]);
}

/// Reading one value changes the slot its field names, to the value read,
/// and no other.
proof fn lemma_pcd_step(acc: PcdAcc, n: Seq<char>, data: Seq<u8>, pos: int, s: int)
    requires
        0 <= s < 7,
    ensures
        pcd_in(pcd_step(acc, n, data, pos), s) == if pcd_slot(n) == s {
            Some(le_u32(data, pos) as u32)
        } else {
            pcd_in(acc, s)
        },
{
}

/// The bytes of a field's values from value `j` on, and of the fields after.
proof fn lemma_pcd_len_field(fields: Seq<Seq<char>>, sizes: Seq<usize>, counts: Seq<usize>, i: int, j: int)
    requires
        0 <= i < fields.len(),
        0 <= j <= field_count(counts, i),
    ensures
        pcd_len_from(fields, sizes, counts, i, j) == slot_size(fields, sizes, i) * (field_count(counts, i) - j)
            + pcd_len_from(fields, sizes, counts, i + 1, 0),
    decreases field_count(counts, i) - j,
{
    let z = slot_size(fields, sizes, i);
    let c = field_count(counts, i);
    if j < c {
        lemma_pcd_len_field(fields, sizes, counts, i, j + 1);
        assert(z * (c - j) == z + z * (c - (j + 1))) by (nonlinear_arith);
    } else {
        assert(z * (c - j) == 0) by (nonlinear_arith)
            requires
                j == c,
        ;
    }
}

/// The offset of a field and the bytes from it on make a record.
proof fn lemma_pcd_offset_len(fields: Seq<Seq<char>>, sizes: Seq<usize>, counts: Seq<usize>, i: int)
    requires
        0 <= i <= fields.len(),
    ensures
        pcd_field_offset(fields, sizes, counts, i) + pcd_len_from(fields, sizes, counts, i, 0)
            == pcd_len_from(fields, sizes, counts, 0, 0),
    decreases i,
{
    if i > 0 {
        lemma_pcd_offset_len(fields, sizes, counts, i - 1);
        lemma_pcd_len_field(fields, sizes, counts, i - 1, 0);
    }
}

/// Reading the values from value `j` of field `i` on, at `p`, leaves in
/// slot `s` the last value of field `t`, the last field with values that
/// fills it, or what was there when none from there on does.
proof fn lemma_pcd_fold_slot(
    data: Seq<u8>,
    rec: int,
    p: int,
    fields: Seq<Seq<char>>,
    sizes: Seq<usize>,
    counts: Seq<usize>,
    i: int,
    j: int,
    acc: PcdAcc,
    s: int,
    t: int,
)
    requires
        0 <= s < 7,
        0 <= i <= fields.len(),
        i < fields.len() ==> 0 <= j <= field_count(counts, i),
        p == rec + pcd_field_offset(fields, sizes, counts, i) + j * slot_size(fields, sizes, i),
        -1 <= t < fields.len(),
        t >= 0 ==> pcd_slot(fields[t]) == s && field_count(counts, t) >= 1,
        forall|q: int|
            t < q < fields.len() ==> pcd_slot(#[trigger] fields[q]) != s || field_count(counts, q)
                == 0,
    ensures
        pcd_in(pcd_fold(data, p, fields, sizes, counts, i, j, acc), s) == if t > i || (t == i && i
            < fields.len() && j < field_count(counts, t)) {
            Some(
                le_u32(
                    data,
                    rec + pcd_field_offset(fields, sizes, counts, t) + 4 * (field_count(counts, t)
                        - 1),
                ) as u32,
            )
        } else {
            pcd_in(acc, s)
        },
    decreases fields.len() - i, field_count(counts, i) - j,
{
    if i < fields.len() {
        let z = slot_size(fields, sizes, i);
        let c = field_count(counts, i);
        if j >= c {
            assert(j * z == c * z);
            assert(pcd_field_offset(fields, sizes, counts, i + 1) == pcd_field_offset(fields, sizes, counts, i) + z * c);
            assert(z * c == c * z) by (nonlinear_arith);
            if i + 1 < fields.len() {
                assert(0 * slot_size(fields, sizes, i + 1) == 0);
            }
            lemma_pcd_fold_slot(data, rec, p, fields, sizes, counts, i + 1, 0, acc, s, t);
        } else {
            let acc2 = pcd_step(acc, fields[i], data, p);
            lemma_pcd_step(acc, fields[i], data, p, s);
            assert((j + 1) * z == j * z + z) by (nonlinear_arith);
            lemma_pcd_fold_slot(data, rec, p + z, fields, sizes, counts, i, j + 1, acc2, s, t);
            if t == i && j + 1 == c {
                assert(is_read_field(fields[i]));
                assert(z == 4);
                assert(j * z == 4 * (c - 1));
            }
        }
    }
}

/// No field after field `t` named `n` holds a value.
pub open spec fn pcd_none_later(f: Seq<Seq<char>>, counts: Seq<usize>, t: int, n: Seq<char>) -> bool {
    forall|q: int| t < q < f.len() && #[trigger] f[q] == n ==> field_count(counts, q) == 0
}

/// Some field named `n` holds a value.
pub open spec fn pcd_declares(f: Seq<Seq<char>>, counts: Seq<usize>, n: Seq<char>) -> bool {
    exists|q: int| 0 <= q < f.len() && #[trigger] f[q] == n && field_count(counts, q) >= 1
}

/// The last field before `end` with values that fills slot `s`, or -1.
proof fn lemma_pcd_last(f: Seq<Seq<char>>, counts: Seq<usize>, s: int, end: int) -> (t: int)
    requires
        0 <= end <= f.len(),
    ensures
        -1 <= t < end,
        t >= 0 ==> pcd_slot(f[t]) == s && field_count(counts, t) >= 1,
        forall|q: int| t < q < end ==> pcd_slot(#[trigger] f[q]) != s || field_count(counts, q) == 0,
    decreases end,
{
    if end == 0 {
        -1
    } else if pcd_slot(f[end - 1]) == s && field_count(counts, end - 1) >= 1 {
        end - 1
    } else {
        lemma_pcd_last(f, counts, s, end - 1)
    }
}

/// Where each value of a binary PCD point comes from: record `k` starts `k`
/// record sizes after the header; when field `t` has values and no later
/// field of its name has any, its last value (at the field's offset in the
/// record, plus 4 bytes per earlier value) is the point's x, y or z, the
/// first, second or third component of its normal for normal_x, normal_y
/// and normal_z, and for rgb or rgba (and no later field of either name)
/// its color: red from bits 16-23, green from bits 8-15, blue from bits 0-7.
pub proof fn law_pcd_point_values(data: Seq<u8>, h: PcdHeader, k: int, t: int)
    ensures
        ({
            let f = field_names(h);
            let sz = h.sizes@;
            let ct = h.counts@;
            let rec = h.data_offset + k * pcd_field_offset(f, sz, ct, f.len() as int);
            pcd_points_of(data, h) matches Some(ps) ==> (0 <= k < ps.len() && 0 <= t < f.len()
                && field_count(ct, t) >= 1 ==> {
                let v = le_u32(
                    data,
                    rec + pcd_field_offset(f, sz, ct, t) + 4 * (field_count(ct, t) - 1),
                ) as u32;
                &&& f[t] == "x"@ && pcd_none_later(f, ct, t, "x"@) ==> ps[k].x == v
                &&& f[t] == "y"@ && pcd_none_later(f, ct, t, "y"@) ==> ps[k].y == v
                &&& f[t] == "z"@ && pcd_none_later(f, ct, t, "z"@) ==> ps[k].z == v
                &&& f[t] == "normal_x"@ && pcd_none_later(f, ct, t, "normal_x"@) ==> (
                ps[k].normal matches Some(n) ==> n.0 == v)
                &&& f[t] == "normal_y"@ && pcd_none_later(f, ct, t, "normal_y"@) ==> (
                ps[k].normal matches Some(n) ==> n.1 == v)
                &&& f[t] == "normal_z"@ && pcd_none_later(f, ct, t, "normal_z"@) ==> (
                ps[k].normal matches Some(n) ==> n.2 == v)
                &&& (f[t] == "rgb"@ || f[t] == "rgba"@) && pcd_none_later(f, ct, t, "rgb"@)
                    && pcd_none_later(f, ct, t, "rgba"@) ==> ps[k].color == Some(
                    Color {
                        r: ((v >> 16) & 0xff) as u8,
                        g: ((v >> 8) & 0xff) as u8,
                        b: (v & 0xff) as u8,
                    },
                )
            })
        }),
{
    let f = field_names(h);
    let sz = h.sizes@;
    let ct = h.counts@;
    let len = pcd_len_from(f, sz, ct, 0, 0);
    lemma_pcd_slot_names();
    lemma_pcd_offset_len(f, sz, ct, f.len() as int);
    if pcd_points_of(data, h) is Some && 0 <= k < h.points && 0 <= t < f.len() && field_count(ct, t) >= 1 {
        let rec = h.data_offset + k * len;
        let ps = pcd_points_of(data, h)->Some_0;
        let acc = pcd_fold(data, rec, f, sz, ct, 0, 0, pcd_acc_start());
        assert(ps[k] == pcd_point_of(acc));
        assert(pcd_field_offset(f, sz, ct, f.len() as int) == len);
        let s = pcd_slot(f[t]);
        let v = le_u32(data, rec + pcd_field_offset(f, sz, ct, t) + 4 * (field_count(ct, t) - 1)) as u32;
        if s >= 0 && (forall|q: int| t < q < f.len() ==> pcd_slot(#[trigger] f[q]) != s || field_count(ct, q) == 0) {
            if 0 < f.len() {
                assert(0 * slot_size(f, sz, 0) == 0);
            }
            lemma_pcd_fold_slot(data, rec, rec, f, sz, ct, 0, 0, pcd_acc_start(), s, t);
            assert(pcd_in(acc, s) == Some(v));
            if s == 0 {
                assert(ps[k].x == v);
            } else if s == 1 {
                assert(ps[k].y == v);
            } else if s == 2 {
                assert(ps[k].z == v);
            } else if s == 3 {
                assert(ps[k].normal matches Some(n) ==> n.0 == v);
            } else if s == 4 {
                assert(ps[k].normal matches Some(n) ==> n.1 == v);
            } else if s == 5 {
                assert(ps[k].normal matches Some(n) ==> n.2 == v);
            } else {
                assert(ps[k].color == Some(unpack_rgb(v)));
            }
        }
        if s >= 0 && s < 6 && pcd_none_later(f, ct, t, f[t]) {
            assert forall|q: int| t < q < f.len() implies pcd_slot(#[trigger] f[q]) != s || field_count(ct, q) == 0 by {
                if pcd_slot(f[q]) == s {
                    assert(f[q] == f[t]);
                }
            }
        }
        if s == 6 && pcd_none_later(f, ct, t, "rgb"@) && pcd_none_later(f, ct, t, "rgba"@) {
            assert forall|q: int| t < q < f.len() implies pcd_slot(#[trigger] f[q]) != s || field_count(ct, q) == 0 by {
                if pcd_slot(f[q]) == s {
                    assert(f[q] == "rgb"@ || f[q] == "rgba"@);
                }
            }
        }
    }
}

/// What a binary PCD point has: a normal exactly when fields normal_x,
/// normal_y and normal_z with values are all declared, a color exactly when
/// an rgb or rgba field with values is, and a coordinate of 0 when no field
/// of its name has a value.
pub proof fn law_pcd_point_parts(data: Seq<u8>, h: PcdHeader, k: int)
    ensures
        ({
            let f = field_names(h);
            let ct = h.counts@;
            pcd_points_of(data, h) matches Some(ps) ==> (0 <= k < ps.len() ==> {
                &&& ps[k].normal is Some <==> pcd_declares(f, ct, "normal_x"@) && pcd_declares(
                    f,
                    ct,
                    "normal_y"@,
                ) && pcd_declares(f, ct, "normal_z"@)
                &&& ps[k].color is Some <==> pcd_declares(f, ct, "rgb"@) || pcd_declares(
                    f,
                    ct,
                    "rgba"@,
                )
                &&& !pcd_declares(f, ct, "x"@) ==> ps[k].x == 0
                &&& !pcd_declares(f, ct, "y"@) ==> ps[k].y == 0
                &&& !pcd_declares(f, ct, "z"@) ==> ps[k].z == 0
            })
        }),
{
    let f = field_names(h);
    let sz = h.sizes@;
    let ct = h.counts@;
    let len = pcd_len_from(f, sz, ct, 0, 0);
    lemma_pcd_slot_names();
    if pcd_points_of(data, h) is Some && 0 <= k < h.points {
        let rec = h.data_offset + k * len;
        let ps = pcd_points_of(data, h)->Some_0;
        let acc = pcd_fold(data, rec, f, sz, ct, 0, 0, pcd_acc_start());
        assert(ps[k] == pcd_point_of(acc));
        if 0 < f.len() {
            assert(0 * slot_size(f, sz, 0) == 0);
        }
        lemma_pcd_present(data, rec, f, sz, ct, 0, "x"@);
        lemma_pcd_present(data, rec, f, sz, ct, 1, "y"@);
        lemma_pcd_present(data, rec, f, sz, ct, 2, "z"@);
        lemma_pcd_present(data, rec, f, sz, ct, 3, "normal_x"@);
        lemma_pcd_present(data, rec, f, sz, ct, 4, "normal_y"@);
        lemma_pcd_present(data, rec, f, sz, ct, 5, "normal_z"@);
        let t = lemma_pcd_last(f, ct, 6, f.len() as int);
        lemma_pcd_fold_slot(data, rec, rec, f, sz, ct, 0, 0, pcd_acc_start(), 6, t);
        if t >= 0 {
            assert(f[t] == "rgb"@ || f[t] == "rgba"@);
        }
        if pcd_declares(f, ct, "rgb"@) {
            let q = choose|q: int| 0 <= q < f.len() && #[trigger] f[q] == "rgb"@ && field_count(ct, q) >= 1;
            assert(pcd_slot(f[q]) == 6);
        }
        if pcd_declares(f, ct, "rgba"@) {
            let q = choose|q: int| 0 <= q < f.len() && #[trigger] f[q] == "rgba"@ && field_count(ct, q) >= 1;
            assert(pcd_slot(f[q]) == 6);
        }
    }
}

/// After a record is read, slot `s` (one of a single name `n`) holds a
/// value read from the record exactly when a field named `n` has values,
/// and its starting value otherwise.
proof fn lemma_pcd_present(
    data: Seq<u8>,
    rec: int,
    f: Seq<Seq<char>>,
    sz: Seq<usize>,
    ct: Seq<usize>,
    s: int,
    n: Seq<char>,
)
    requires
        0 <= s < 6,
        pcd_slot(n) == s,
        f.len() > 0 ==> rec == rec + pcd_field_offset(f, sz, ct, 0) + 0 * slot_size(f, sz, 0),
    ensures
        !pcd_declares(f, ct, n) ==> pcd_in(pcd_fold(data, rec, f, sz, ct, 0, 0, pcd_acc_start()), s)
            == pcd_in(pcd_acc_start(), s),
        pcd_declares(f, ct, n) ==> pcd_in(pcd_fold(data, rec, f, sz, ct, 0, 0, pcd_acc_start()), s)
            is Some,
{
    lemma_pcd_slot_names();
    let t = lemma_pcd_last(f, ct, s, f.len() as int);
    lemma_pcd_fold_slot(data, rec, rec, f, sz, ct, 0, 0, pcd_acc_start(), s, t);
    if t >= 0 {
        assert(f[t] == n);
    }
    if pcd_declares(f, ct, n) {
        let q = choose|q: int| 0 <= q < f.len() && #[trigger] f[q] == n && field_count(ct, q) >= 1;
        assert(pcd_slot(f[q]) == s);
    }
}

/// How far apart the fields of a binary PCD record are: each value of x, y,
/// z, normal_x, normal_y, normal_z, rgb and rgba takes 4 bytes, a value of
/// any other field its `SIZE` (4 when none is given), and a field holds its
/// `COUNT` of values (1 when none is given).
pub proof fn law_pcd_field_layout(fields: Seq<Seq<char>>, sizes: Seq<usize>, counts: Seq<usize>, i: int)
    ensures
        0 <= i < fields.len() ==> pcd_field_offset(fields, sizes, counts, i + 1) == pcd_field_offset(
            fields,
            sizes,
            counts,
            i,
        ) + (if fields[i] == "x"@ || fields[i] == "y"@ || fields[i] == "z"@ || fields[i]
            == "normal_x"@ || fields[i] == "normal_y"@ || fields[i] == "normal_z"@ || fields[i]
            == "rgb"@ || fields[i] == "rgba"@ {
            4
        } else if i < sizes.len() {
            sizes[i] as int
        } else {
            4
        }) * (if i < counts.len() {
            counts[i] as int
        } else {
            1
        }),
        pcd_field_offset(fields, sizes, counts, 0) == 0,
{
}

} // verus!

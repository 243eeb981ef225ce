use vstd::prelude::*;
use crate::bytes::{le_u16, le_u32, le_u64, read_le_i32, read_le_u16, read_le_u32, read_le_u64};
use crate::error::{IoErrorKind, PointCloudError};
use crate::io::PointCloudReader;
use crate::text::{chars_to_string, str_chars};

verus! {

/// What the public header block of a LAS file says. The scale factors and
/// offsets are IEEE-754 doubles, kept here as their bit patterns.
#[derive(Debug, Clone, Copy, PartialEq, Eq)]
pub struct LasHeader {
    pub version_major: u8,
    pub version_minor: u8,
    pub point_data_format: u8,
    pub point_data_start: u32,
    pub point_count: u64,
    pub scale_bits: [u64; 3],
    pub offset_bits: [u64; 3],
    pub point_record_length: u16,
}

/// The size of the LAS 1.0-1.2 header fields that are read.
pub open spec fn las_base_len() -> int {
    227
}

/// The size of the fields read when the version is 1.3 or later.
pub open spec fn las_extended_len() -> int {
    255
}

/// The data starts with the signature "LASF".
pub open spec fn las_signature_ok(b: Seq<u8>) -> bool {
    b.len() >= 4 && b[0] == 0x4c && b[1] == 0x41 && b[2] == 0x53 && b[3] == 0x46
}

/// Version 1.3 or later, as the header's version bytes tell it (both parts
/// compared separately, as the reader does).
pub open spec fn las_has_extended_count(b: Seq<u8>) -> bool {
    b[24] >= 1 && b[25] >= 3
}

/// The message of the error for data that is not a LAS file.
pub open spec fn las_bad_signature_message() -> Seq<char> {
    "无效的LAS文件头"@
}

/// `h` holds the header fields found in `b`.
pub open spec fn las_header_matches(h: LasHeader, b: Seq<u8>) -> bool {
    &&& h.version_major == b[24]
    &&& h.version_minor == b[25]
    &&& h.point_data_start == le_u32(b, 96)
    &&& h.point_data_format == b[104]
    &&& h.point_record_length == le_u16(b, 105)
    &&& h.point_count == (if las_has_extended_count(b) {
        le_u64(b, 247)
    } else {
        le_u32(b, 107)
    })
    &&& h.scale_bits@ == seq![le_u64(b, 131) as u64, le_u64(b, 139) as u64, le_u64(b, 147) as u64]
    &&& h.offset_bits@ == seq![le_u64(b, 155) as u64, le_u64(b, 163) as u64, le_u64(b, 171) as u64]
}

impl PointCloudReader {
    /// Reads the public header block of a LAS file from the start of `data`.
    pub fn parse_las_header(&self, data: &[u8]) -> (r: Result<LasHeader, PointCloudError>)
        ensures
            data.len() < 4 ==> r == Err::<LasHeader, PointCloudError>(
                PointCloudError::IoError(IoErrorKind::UnexpectedEof),
            ),
            data.len() >= 4 && !las_signature_ok(data@) ==> (r matches Err(
                PointCloudError::ParseError(m),
            ) && m@ == las_bad_signature_message()),
            las_signature_ok(data@) && data.len() < las_base_len() ==> r == Err::<
                LasHeader,
                PointCloudError,
            >(PointCloudError::IoError(IoErrorKind::UnexpectedEof)),
            las_signature_ok(data@) && data.len() >= las_base_len() && las_has_extended_count(data@)
                && data.len() < las_extended_len() ==> r == Err::<LasHeader, PointCloudError>(
                PointCloudError::IoError(IoErrorKind::UnexpectedEof),
            ),
            las_signature_ok(data@) && data.len() >= las_base_len() && (!las_has_extended_count(
                data@,
            ) || data.len() >= las_extended_len()) ==> (r matches Ok(h) && las_header_matches(
                h,
                data@,
            )),
    {
        if data.len() < 4 {
            return Err(PointCloudError::IoError(IoErrorKind::UnexpectedEof));
        }
        if !(data[0] == 0x4c && data[1] == 0x41 && data[2] == 0x53 && data[3] == 0x46) {
            return Err(PointCloudError::ParseError(chars_to_string(str_chars("无效的LAS文件头").as_slice())));
        }
        if data.len() < 227 {
            return Err(PointCloudError::IoError(IoErrorKind::UnexpectedEof));
        }
        let version_major = data[24];
        let version_minor = data[25];
        let point_data_start = read_le_u32(data, 96);
        let point_data_format = data[104];
        let point_record_length = read_le_u16(data, 105);
        let legacy_count = read_le_u32(data, 107);
        let scale_bits = [read_le_u64(data, 131), read_le_u64(data, 139), read_le_u64(data, 147)];
        let offset_bits = [read_le_u64(data, 155), read_le_u64(data, 163), read_le_u64(data, 171)];
        let mut point_count = legacy_count as u64;
        if version_major >= 1 && version_minor >= 3 {
            if data.len() < 255 {
                return Err(PointCloudError::IoError(IoErrorKind::UnexpectedEof));
            }
            point_count = read_le_u64(data, 247);
        }
        Ok(
            LasHeader {
                version_major,
                version_minor,
                point_data_format,
                point_data_start,
                point_count,
                scale_bits,
                offset_bits,
                point_record_length,
            },
        )
    }
}

/// A LAS point record as stored: the scaled integer coordinates, the
/// intensity (formats 0, 2 and 3) and the 16-bit color channels (formats 2
/// and 3).
#[derive(Debug, Clone, Copy, PartialEq, Eq)]
pub struct LasRawPoint {
    pub x: i32,
    pub y: i32,
    pub z: i32,
    pub intensity: Option<u16>,
    pub color: Option<(u16, u16, u16)>,
}

/// The bytes one point takes in a format: 20 for format 0, 26 for format 2,
/// 34 for format 3; for any other format the coordinates and the part of
/// the record beyond 26 bytes.
pub open spec fn las_point_len(format: u8, record_length: u16) -> int {
    if format == 0 {
        20
    } else if format == 2 {
        26
    } else if format == 3 {
        34
    } else if record_length > 26 {
        12 + record_length - 26
    } else {
        12
    }
}

/// The point record of the given format at `pos`.
pub open spec fn las_point_at(data: Seq<u8>, pos: int, format: u8) -> LasRawPoint {
    let c: int = if format == 3 {
        28
    } else {
        20
    };
    LasRawPoint {
        x: le_u32(data, pos) as i32,
        y: le_u32(data, pos + 4) as i32,
        z: le_u32(data, pos + 8) as i32,
        intensity: if format == 0 || format == 2 || format == 3 {
            Some(le_u16(data, pos + 12) as u16)
        } else {
            None
        },
        color: if format == 2 || format == 3 {
            Some(
                (
                    le_u16(data, pos + c) as u16,
                    le_u16(data, pos + c + 2) as u16,
                    le_u16(data, pos + c + 4) as u16,
                ),
            )
        } else {
            None
        },
    }
}

/// The point records a LAS file holds: `point_count` records from the
/// point data start on, or `None` when the data ends first.
pub open spec fn las_points_of(data: Seq<u8>, h: LasHeader) -> Option<Seq<LasRawPoint>> {
    let len = las_point_len(h.point_data_format, h.point_record_length);
    if h.point_count > 0 && h.point_data_start + h.point_count * len > data.len() {
        None
    } else {
        Some(
            Seq::new(
                h.point_count as nat,
                |k: int| las_point_at(data, h.point_data_start + k * len, h.point_data_format),
            ),
        )
    }
}

/// The record at `pos`.
fn read_las_point(data: &[u8], pos: usize, format: u8) -> (r: LasRawPoint)
    requires
        pos + (if format == 3 {
            34int
        } else if format == 2 {
            26int
        } else if format == 0 {
            20int
        } else {
            12int
        }) <= data.len(),
    ensures
        r == las_point_at(data@, pos as int, format),
{
    let x = read_le_i32(data, pos);
    let y = read_le_i32(data, pos + 4);
    let z = read_le_i32(data, pos + 8);
    let intensity = if format == 0 || format == 2 || format == 3 {
        Some(read_le_u16(data, pos + 12))
    } else {
        None
    };
    let color = if format == 2 || format == 3 {
        let c = if format == 3 {
            pos + 28
        } else {
            pos + 20
        };
        Some((read_le_u16(data, c), read_le_u16(data, c + 2), read_le_u16(data, c + 4)))
    } else {
        None
    };
    LasRawPoint { x, y, z, intensity, color }
}

impl PointCloudReader {
    /// Reads the point records of a LAS file (the whole file) with the
    /// header read from it; running out of data fails.
    pub fn decode_las_points(&self, data: &[u8], header: &LasHeader) -> (r: Result<
        Vec<LasRawPoint>,
        PointCloudError,
    >)
        ensures
            match las_points_of(data@, *header) {
                None => r == Err::<Vec<LasRawPoint>, PointCloudError>(
                    PointCloudError::IoError(IoErrorKind::UnexpectedEof),
                ),
                Some(ps) => r matches Ok(v) && v@ == ps,
            },
    {
        let format = header.point_data_format;
        let len: usize = if format == 0 {
            20
        } else if format == 2 {
            26
        } else if format == 3 {
            34
        } else if header.point_record_length > 26 {
            12 + (header.point_record_length - 26) as usize
        } else {
            12
        };
        let n = header.point_count;
        let start = header.point_data_start as usize;
        let ghost glen = las_point_len(format, header.point_record_length);
        let mut points: Vec<LasRawPoint> = Vec::new();
        let mut pos: usize = start;
        let mut k: u64 = 0;
        while k < n
            invariant
                k <= n,
                n == header.point_count,
                format == header.point_data_format,
                start == header.point_data_start,
                len == glen,
                glen == las_point_len(format, header.point_record_length),
                pos == start + k * glen,
                k > 0 ==> pos <= data.len(),
                points@.len() == k,
                forall|i: int|
                    0 <= i < k ==> #[trigger] points@[i] == las_point_at(
                        data@,
                        start + i * glen,
                        format,
                    ),
            decreases n - k,
        {
            if pos > data.len() || data.len() - pos < len {
                assert(header.point_data_start + header.point_count * glen > data.len()) by (
                nonlinear_arith)
                    requires
                        pos == start + k * glen,
                        pos + glen > data.len(),
                        k < n,
                        glen >= 0,
                        start == header.point_data_start,
                        n == header.point_count,
                ;
                return Err(PointCloudError::IoError(IoErrorKind::UnexpectedEof));
            }
            let p = read_las_point(data, pos, format);
            points.push(p);
            assert((k + 1) * glen == k * glen + glen) by (nonlinear_arith);
            pos = pos + len;
            k = k + 1;
        }
        assert(points@ =~= Seq::new(
            n as nat,
            |i: int| las_point_at(data@, start + i * glen, format),
        ));
        proof {
            if n > 0 {
                assert(start + n * glen <= data.len());
            }
        }
        Ok(points)
    }
}

/// Where and how each point record of a LAS file is read: record `k` starts
/// `k` record sizes after the point data start (20 bytes in format 0, 26 in
/// format 2, 34 in format 3); its coordinates are the little-endian 32-bit
/// integers at offsets 0, 4 and 8; in formats 0, 2 and 3 its intensity is
/// the little-endian 16-bit value at offset 12, in other formats there is
/// none; in format 2 its color is the three 16-bit values from offset 20, in
/// format 3 from offset 28 (after the GPS time), in other formats there is
/// none.
pub proof fn law_las_record_layout(data: Seq<u8>, h: LasHeader, k: int)
    ensures
        las_points_of(data, h) matches Some(ps) ==> {
            let f = h.point_data_format;
            let size: int = if f == 0 {
                20
            } else if f == 2 {
                26
            } else if f == 3 {
                34
            } else if h.point_record_length > 26 {
                h.point_record_length - 14
            } else {
                12
            };
            let pos = h.point_data_start + k * size;
            &&& ps.len() == h.point_count
            &&& 0 <= k < ps.len() ==> {
                &&& ps[k].x == le_u32(data, pos) as i32
                &&& ps[k].y == le_u32(data, pos + 4) as i32
                &&& ps[k].z == le_u32(data, pos + 8) as i32
                &&& (f == 0 || f == 2 || f == 3) ==> ps[k].intensity == Some(
                    le_u16(data, pos + 12) as u16,
                )
                &&& !(f == 0 || f == 2 || f == 3) ==> ps[k].intensity is None
                &&& f == 2 ==> ps[k].color == Some(
                    (
                        le_u16(data, pos + 20) as u16,
                        le_u16(data, pos + 22) as u16,
                        le_u16(data, pos + 24) as u16,
                    ),
                )
                &&& f == 3 ==> ps[k].color == Some(
                    (
                        le_u16(data, pos + 28) as u16,
                        le_u16(data, pos + 30) as u16,
                        le_u16(data, pos + 32) as u16,
                    ),
                )
                &&& (f != 2 && f != 3) ==> ps[k].color is None
            }
        },
{
}

} // verus!

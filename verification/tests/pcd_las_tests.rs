use pointcloud_cli::error::{IoErrorKind, PointCloudError};
use pointcloud_cli::io::PointCloudReader;

const PCD_HEADER: &str = "# .PCD v0.7 - Point Cloud Data file format\nVERSION 0.7\nFIELDS x y z rgb\nSIZE 4 4 4 4\nTYPE F F F U\nCOUNT 1 1 1 1\nWIDTH 2\nHEIGHT 1\nVIEWPOINT 0 0 0 1 0 0 0\nPOINTS 2\nDATA ascii\n";

#[test]
fn pcd_header_fields() {
    let reader = PointCloudReader::new();
    let mut data = PCD_HEADER.as_bytes().to_vec();
    data.extend_from_slice(b"1 2 3 4\n5 6 7 8\n");
    let h = reader.parse_pcd_header(&data).unwrap();
    assert_eq!(h.fields, vec!["x", "y", "z", "rgb"]);
    assert_eq!(h.sizes, vec![4, 4, 4, 4]);
    assert_eq!(h.types, vec!['F', 'F', 'F', 'U']);
    assert_eq!(h.counts, vec![1, 1, 1, 1]);
    assert_eq!(h.width, 2);
    assert_eq!(h.height, 1);
    assert_eq!(h.points, 2);
    assert_eq!(h.data_type, "ascii");
    assert_eq!(h.data_offset, PCD_HEADER.len());
}

#[test]
fn pcd_header_without_count_has_one_per_field() {
    let reader = PointCloudReader::new();
    let text = "FIELDS x y z\nSIZE 8 8 8\n\nTYPE F F F\nPOINTS 5\nDATA binary\n";
    let h = reader.parse_pcd_header(text.as_bytes()).unwrap();
    assert_eq!(h.counts, vec![1, 1, 1]);
    assert_eq!(h.sizes, vec![8, 8, 8]);
    assert_eq!(h.points, 5);
    assert_eq!(h.width, 0);
    assert_eq!(h.data_type, "binary");
    assert_eq!(h.data_offset, text.len());
}

#[test]
fn pcd_size_skips_words_that_are_not_numbers() {
    let reader = PointCloudReader::new();
    let h = reader.parse_pcd_header(b"FIELDS a b\nSIZE 4 x 2\nWIDTH abc\nDATA ascii\n").unwrap();
    assert_eq!(h.sizes, vec![4, 2]);
    assert_eq!(h.width, 0);
}

#[test]
fn pcd_header_without_data_line_defaults_to_ascii() {
    let reader = PointCloudReader::new();
    let h = reader.parse_pcd_header(b"FIELDS x\nPOINTS 1\n").unwrap();
    assert_eq!(h.data_type, "ascii");
    assert_eq!(h.points, 1);
}

#[test]
fn pcd_header_with_invalid_utf8_fails() {
    let reader = PointCloudReader::new();
    assert_eq!(
        reader.parse_pcd_header(b"FIELDS \xc3\x28\nDATA ascii\n"),
        Err(PointCloudError::IoError(IoErrorKind::InvalidData))
    );
}

fn las_bytes(len: usize, major: u8, minor: u8) -> Vec<u8> {
    let mut b = vec![0u8; len];
    b[0..4].copy_from_slice(b"LASF");
    b[24] = major;
    b[25] = minor;
    b[96..100].copy_from_slice(&375u32.to_le_bytes());
    b[104] = 3;
    b[105..107].copy_from_slice(&34u16.to_le_bytes());
    b[107..111].copy_from_slice(&1000u32.to_le_bytes());
    b[131..139].copy_from_slice(&0.01f64.to_le_bytes());
    b[139..147].copy_from_slice(&0.02f64.to_le_bytes());
    b[147..155].copy_from_slice(&0.001f64.to_le_bytes());
    b[155..163].copy_from_slice(&100.0f64.to_le_bytes());
    b[163..171].copy_from_slice(&(-5.0f64).to_le_bytes());
    b[171..179].copy_from_slice(&0.5f64.to_le_bytes());
    b
}

#[test]
fn las_12_header_fields() {
    let reader = PointCloudReader::new();
    let h = reader.parse_las_header(&las_bytes(227, 1, 2)).unwrap();
    assert_eq!(h.version_major, 1);
    assert_eq!(h.version_minor, 2);
    assert_eq!(h.point_data_start, 375);
    assert_eq!(h.point_data_format, 3);
    assert_eq!(h.point_record_length, 34);
    assert_eq!(h.point_count, 1000);
    assert_eq!(h.scale_bits, [0.01f64.to_bits(), 0.02f64.to_bits(), 0.001f64.to_bits()]);
    assert_eq!(h.offset_bits, [100.0f64.to_bits(), (-5.0f64).to_bits(), 0.5f64.to_bits()]);
}

#[test]
fn las_14_header_reads_the_wide_count() {
    let reader = PointCloudReader::new();
    let mut b = las_bytes(375, 1, 4);
    b[247..255].copy_from_slice(&5_000_000_000u64.to_le_bytes());
    let h = reader.parse_las_header(&b).unwrap();
    assert_eq!(h.point_count, 5_000_000_000);
}

#[test]
fn las_14_header_too_short_for_the_wide_count_fails() {
    let reader = PointCloudReader::new();
    assert_eq!(
        reader.parse_las_header(&las_bytes(240, 1, 4)),
        Err(PointCloudError::IoError(IoErrorKind::UnexpectedEof))
    );
}

#[test]
fn las_bad_signature_fails() {
    let reader = PointCloudReader::new();
    let mut b = las_bytes(227, 1, 2);
    b[0] = b'X';
    assert_eq!(
        reader.parse_las_header(&b),
        Err(PointCloudError::ParseError("无效的LAS文件头".to_string()))
    );
}

#[test]
fn las_short_data_fails() {
    let reader = PointCloudReader::new();
    assert_eq!(
        reader.parse_las_header(b"LA"),
        Err(PointCloudError::IoError(IoErrorKind::UnexpectedEof))
    );
    assert_eq!(
        reader.parse_las_header(&las_bytes(200, 1, 2)[..]),
        Err(PointCloudError::IoError(IoErrorKind::UnexpectedEof))
    );
}

#[test]
fn pcd_binary_bodies() {
    let reader = PointCloudReader::new();
    let binary = reader.parse_pcd_header(b"FIELDS x\nDATA binary\n").unwrap();
    assert!(binary.is_binary());
    let compressed = reader.parse_pcd_header(b"FIELDS x\nDATA binary_compressed\n").unwrap();
    assert!(compressed.is_binary());
    let ascii = reader.parse_pcd_header(b"FIELDS x\nDATA ascii\n").unwrap();
    assert!(!ascii.is_binary());
}

use pointcloud_cli::las::LasRawPoint;
use pointcloud_cli::types::Color;

#[test]
fn binary_pcd_points() {
    let reader = PointCloudReader::new();
    let text = "FIELDS x y z rgb label\nSIZE 4 4 4 4 2\nTYPE F F F U U\nCOUNT 1 1 1 1 2\nPOINTS 2\nDATA binary\n";
    let mut data = text.as_bytes().to_vec();
    for k in 0..2u32 {
        for v in [1.0f32 + k as f32, 2.0, 3.0] {
            data.extend_from_slice(&v.to_le_bytes());
        }
        data.extend_from_slice(&0x00AABBCCu32.to_le_bytes());
        data.extend_from_slice(&[7, 7, 7, 7]);
    }
    let h = reader.parse_pcd_header(&data).unwrap();
    let pts = reader.decode_pcd_points(&data, &h).unwrap();
    assert_eq!(pts.len(), 2);
    assert_eq!(pts[1].x, 2.0f32.to_bits());
    assert_eq!(pts[1].z, 3.0f32.to_bits());
    assert_eq!(pts[1].normal, None);
    assert_eq!(pts[1].color, Some(Color::new(0xAA, 0xBB, 0xCC)));
    assert_eq!(
        reader.decode_pcd_points(&data[..data.len() - 1], &h),
        Err(PointCloudError::IoError(IoErrorKind::UnexpectedEof))
    );
}

fn las_with_points(format: u8, record_len: u16, records: &[Vec<u8>]) -> Vec<u8> {
    let mut b = las_bytes(227, 1, 2);
    b[96..100].copy_from_slice(&227u32.to_le_bytes());
    b[104] = format;
    b[105..107].copy_from_slice(&record_len.to_le_bytes());
    b[107..111].copy_from_slice(&(records.len() as u32).to_le_bytes());
    for r in records {
        b.extend_from_slice(r);
    }
    b
}

fn las_record(x: i32, y: i32, z: i32, intensity: u16, tail: &[u8]) -> Vec<u8> {
    let mut r = Vec::new();
    for v in [x, y, z] {
        r.extend_from_slice(&v.to_le_bytes());
    }
    r.extend_from_slice(&intensity.to_le_bytes());
    r.extend_from_slice(&[1, 2, 3, 4, 5, 6]);
    r.extend_from_slice(tail);
    r
}

#[test]
fn las_points_of_format_2() {
    let reader = PointCloudReader::new();
    let mut rgb = Vec::new();
    for c in [100u16, 200, 300] {
        rgb.extend_from_slice(&c.to_le_bytes());
    }
    let data = las_with_points(2, 26, &[las_record(-5, 6, 7, 900, &rgb)]);
    let h = reader.parse_las_header(&data).unwrap();
    let pts = reader.decode_las_points(&data, &h).unwrap();
    assert_eq!(
        pts,
        vec![LasRawPoint { x: -5, y: 6, z: 7, intensity: Some(900), color: Some((100, 200, 300)) }]
    );
}

#[test]
fn las_points_of_format_3_and_0() {
    let reader = PointCloudReader::new();
    let mut tail = 1.0f64.to_le_bytes().to_vec();
    for c in [1u16, 2, 3] {
        tail.extend_from_slice(&c.to_le_bytes());
    }
    let data = las_with_points(3, 34, &[las_record(1, 2, 3, 4, &tail)]);
    let h = reader.parse_las_header(&data).unwrap();
    assert_eq!(reader.decode_las_points(&data, &h).unwrap()[0].color, Some((1, 2, 3)));
    let data = las_with_points(0, 20, &[las_record(1, 2, 3, 4, &[]), las_record(5, 6, 7, 8, &[])]);
    let h = reader.parse_las_header(&data).unwrap();
    let pts = reader.decode_las_points(&data, &h).unwrap();
    assert_eq!(pts[1], LasRawPoint { x: 5, y: 6, z: 7, intensity: Some(8), color: None });
}

#[test]
fn las_points_of_other_formats_skip_beyond_26_bytes() {
    let reader = PointCloudReader::new();
    let mut r0 = Vec::new();
    for v in [1i32, 2, 3] {
        r0.extend_from_slice(&v.to_le_bytes());
    }
    r0.extend_from_slice(&[0u8; 4]);
    let mut r1 = Vec::new();
    for v in [4i32, 5, 6] {
        r1.extend_from_slice(&v.to_le_bytes());
    }
    r1.extend_from_slice(&[0u8; 4]);
    let data = las_with_points(1, 30, &[r0, r1]);
    let h = reader.parse_las_header(&data).unwrap();
    let pts = reader.decode_las_points(&data, &h).unwrap();
    assert_eq!(pts[1], LasRawPoint { x: 4, y: 5, z: 6, intensity: None, color: None });
    assert_eq!(
        reader.decode_las_points(&data[..data.len() - 1], &h),
        Err(PointCloudError::IoError(IoErrorKind::UnexpectedEof))
    );
}

use pointcloud_cli::error::{IoErrorKind, PointCloudError};
use pointcloud_cli::io::PointCloudReader;
use pointcloud_cli::ply::{ply_type_size_of, PlyProperty};
use pointcloud_cli::ply_write::point_cloud_ply_header;

fn prop(name: &str, dtype: &str) -> PlyProperty {
    PlyProperty { name: name.to_string(), dtype: dtype.to_string() }
}

const ASCII_HEADER: &str = "ply\nformat ascii 1.0\nelement vertex 3\nproperty float x\nproperty float y\nproperty float z\nelement face 1\nproperty list uchar int vertex_indices\nend_header\n";

#[test]
fn ascii_header_fields() {
    let reader = PointCloudReader::new();
    let mut data = ASCII_HEADER.as_bytes().to_vec();
    data.extend_from_slice(b"1 2 3\n");
    let h = reader.parse_ply_header(&data).unwrap();
    assert!(!h.is_binary);
    assert!(h.little_endian);
    assert_eq!(h.vertex_count, 3);
    assert_eq!(h.properties, vec![prop("x", "float"), prop("y", "float"), prop("z", "float")]);
    assert_eq!(h.header_bytes, ASCII_HEADER.len());
}

#[test]
fn big_endian_header_with_spaces_and_crlf() {
    let reader = PointCloudReader::new();
    let text = "ply\r\n  format binary_big_endian 1.0  \r\nelement vertex 12\r\nproperty double x\r\nend_header\r\n";
    let h = reader.parse_ply_header(text.as_bytes()).unwrap();
    assert!(h.is_binary);
    assert!(!h.little_endian);
    assert_eq!(h.vertex_count, 12);
    assert_eq!(h.properties, vec![prop("x", "double")]);
    assert_eq!(h.header_bytes, text.len());
}

#[test]
fn unparsable_vertex_count_reads_as_zero() {
    let reader = PointCloudReader::new();
    let h = reader.parse_ply_header(b"ply\nelement vertex many\nend_header\n").unwrap();
    assert_eq!(h.vertex_count, 0);
}

#[test]
fn header_without_end_takes_all_data() {
    let reader = PointCloudReader::new();
    let text = "ply\nformat binary_little_endian 1.0\nelement vertex 2";
    let h = reader.parse_ply_header(text.as_bytes()).unwrap();
    assert!(h.is_binary);
    assert_eq!(h.vertex_count, 2);
    assert_eq!(h.header_bytes, text.len());
}

#[test]
fn invalid_utf8_header_line_fails() {
    let reader = PointCloudReader::new();
    let data = b"ply\nformat \xff\xfe 1.0\nend_header\n";
    assert_eq!(
        reader.parse_ply_header(data),
        Err(PointCloudError::IoError(IoErrorKind::InvalidData))
    );
}

#[test]
fn written_point_cloud_header_text() {
    let h = point_cloud_ply_header(7, false, true);
    let text = String::from_utf8(h).unwrap();
    assert_eq!(
        text,
        "ply\nformat binary_little_endian 1.0\ncomment Generated by pointcloud-cli\nelement vertex 7\nproperty float64 x\nproperty float64 y\nproperty float64 z\nproperty uchar red\nproperty uchar green\nproperty uchar blue\nend_header\n"
    );
}

#[test]
fn written_point_cloud_header_reads_back() {
    let reader = PointCloudReader::new();
    let header = point_cloud_ply_header(1234, true, true);
    let mut data = header.clone();
    data.extend_from_slice(&[0u8, 10, 255, 1, 2, 3]);
    let h = reader.parse_ply_header(&data).unwrap();
    assert!(h.is_binary);
    assert!(h.little_endian);
    assert_eq!(h.vertex_count, 1234);
    assert_eq!(
        h.properties,
        vec![
            prop("x", "float64"),
            prop("y", "float64"),
            prop("z", "float64"),
            prop("nx", "float64"),
            prop("ny", "float64"),
            prop("nz", "float64"),
            prop("red", "uchar"),
            prop("green", "uchar"),
            prop("blue", "uchar"),
        ]
    );
    assert_eq!(h.header_bytes, header.len());
}

#[test]
fn type_sizes() {
    assert_eq!(ply_type_size_of("uchar"), 1);
    assert_eq!(ply_type_size_of("int8"), 1);
    assert_eq!(ply_type_size_of("ushort"), 2);
    assert_eq!(ply_type_size_of("float"), 4);
    assert_eq!(ply_type_size_of("int32"), 4);
    assert_eq!(ply_type_size_of("float64"), 8);
    assert_eq!(ply_type_size_of("uint64"), 8);
    assert_eq!(ply_type_size_of("complex"), 1);
}

#[test]
fn skip_binary_moves_past_one_value() {
    let reader = PointCloudReader::new();
    let data = [0u8; 10];
    assert_eq!(reader.skip_binary(&data, 0, "double", true), Ok(8));
    assert_eq!(reader.skip_binary(&data, 6, "short", false), Ok(8));
    assert_eq!(reader.skip_binary(&data, 9, "uchar", true), Ok(10));
}

#[test]
fn skip_binary_past_the_end_fails() {
    let reader = PointCloudReader::new();
    let data = [0u8; 10];
    assert_eq!(
        reader.skip_binary(&data, 4, "double", true),
        Err(PointCloudError::IoError(IoErrorKind::UnexpectedEof))
    );
    assert_eq!(
        reader.skip_binary(&data, 10, "mystery", true),
        Err(PointCloudError::IoError(IoErrorKind::UnexpectedEof))
    );
}

use pointcloud_cli::ply_points::{PlyChannel, PlyCoord, RawPlyPoint};

#[test]
fn binary_point_body_by_property_types() {
    let reader = PointCloudReader::new();
    let text = "ply\nformat binary_little_endian 1.0\nelement vertex 2\nproperty float x\nproperty double y\nproperty int z\nproperty short flags\nproperty uchar red\nproperty float green\nproperty uchar blue\nend_header\n";
    let mut data = text.as_bytes().to_vec();
    for k in 0..2u8 {
        data.extend_from_slice(&(1.5f32 + k as f32).to_le_bytes());
        data.extend_from_slice(&(-2.0f64).to_le_bytes());
        data.extend_from_slice(&[9, 9]);
        data.push(10 + k);
        data.extend_from_slice(&0.5f32.to_le_bytes());
        data.push(30);
    }
    let h = reader.parse_ply_header(&data).unwrap();
    let pts = reader.decode_ply_points(&data, &h).unwrap();
    assert_eq!(pts.len(), 2);
    assert_eq!(
        pts[1],
        RawPlyPoint {
            x: PlyCoord::Single(2.5f32.to_bits()),
            y: PlyCoord::Double((-2.0f64).to_bits()),
            z: PlyCoord::Zero,
            normal: None,
            color: Some((PlyChannel::Byte(11), PlyChannel::Unit(0.5f32.to_bits()), PlyChannel::Byte(30))),
        }
    );
}

#[test]
fn big_endian_point_body_with_normals() {
    let reader = PointCloudReader::new();
    let text = "ply\nformat binary_big_endian 1.0\nelement vertex 1\nproperty float x\nproperty float y\nproperty float z\nproperty float nx\nproperty float ny\nproperty float nz\nend_header\n";
    let mut data = text.as_bytes().to_vec();
    for v in [1.0f32, 2.0, 3.0, 0.0, 0.0, 1.0] {
        data.extend_from_slice(&v.to_be_bytes());
    }
    let h = reader.parse_ply_header(&data).unwrap();
    let pts = reader.decode_ply_points(&data, &h).unwrap();
    let s = |v: f32| PlyCoord::Single(v.to_bits());
    assert_eq!(pts[0].x, s(1.0));
    assert_eq!(pts[0].normal, Some((s(0.0), s(0.0), s(1.0))));
    assert_eq!(pts[0].color, None);
}

#[test]
fn short_point_body_fails() {
    let reader = PointCloudReader::new();
    let text = "ply\nformat binary_little_endian 1.0\nelement vertex 2\nproperty double x\nend_header\n";
    let mut data = text.as_bytes().to_vec();
    data.extend_from_slice(&[0u8; 15]);
    let h = reader.parse_ply_header(&data).unwrap();
    assert_eq!(
        reader.decode_ply_points(&data, &h),
        Err(PointCloudError::IoError(IoErrorKind::UnexpectedEof))
    );
}

#[test]
fn points_of_unread_types_take_no_bytes() {
    let reader = PointCloudReader::new();
    let text = "ply\nformat binary_little_endian 1.0\nelement vertex 3\nproperty int x\nend_header\n";
    let h = reader.parse_ply_header(text.as_bytes()).unwrap();
    let pts = reader.decode_ply_points(text.as_bytes(), &h).unwrap();
    assert_eq!(pts.len(), 3);
    assert_eq!(pts[2].x, PlyCoord::Zero);
}

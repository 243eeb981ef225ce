use pointcloud_cli::error::{IoErrorKind, PointCloudError};
use pointcloud_cli::io::{MeshReader, MeshWriter};
use pointcloud_cli::mesh_write::encode_point_cloud_ply;
use pointcloud_cli::ply_mesh::{MeshPlyHeader, PlyEncoding, RawMesh, RawVertex};
use pointcloud_cli::ply_write::mesh_ply_header;
use pointcloud_cli::types::{Color, TriangleFace};

fn bits(x: f64) -> u64 {
    x.to_bits()
}

fn vertex(x: f64, y: f64, z: f64) -> RawVertex {
    RawVertex { position: (bits(x), bits(y), bits(z)), normal: None, color: None }
}

#[test]
fn ascii_mesh_header() {
    let reader = MeshReader::new();
    let text = "ply\nformat ascii 1.0\nelement vertex 4\nproperty float x\nproperty float y\nproperty float z\nproperty uchar red\nproperty uchar green\nproperty uchar blue\nelement face 2\nproperty list uchar int vertex_indices\nend_header\n";
    let h = reader.parse_ply_header(text.as_bytes()).unwrap();
    assert_eq!(
        h,
        MeshPlyHeader {
            encoding: PlyEncoding::Ascii,
            vertex_count: 4,
            face_count: 2,
            has_normals: false,
            has_colors: true,
            data_offset: text.len(),
        }
    );
}

#[test]
fn mesh_header_without_positions_fails() {
    let reader = MeshReader::new();
    let text = "ply\nformat ascii 1.0\nelement vertex 1\nproperty float x\nproperty float y\nend_header\n";
    assert_eq!(
        reader.parse_ply_header(text.as_bytes()),
        Err(PointCloudError::ParseError("PLY文件缺少x/y/z字段".to_string()))
    );
}

#[test]
fn mesh_header_with_unknown_format_fails() {
    let reader = MeshReader::new();
    let text = "ply\nformat weird 1.0\nelement vertex 1\nproperty float x\nproperty float y\nproperty float z\nend_header\n";
    assert_eq!(
        reader.parse_ply_header(text.as_bytes()),
        Err(PointCloudError::ParseError("不支持的PLY格式: weird".to_string()))
    );
}

#[test]
fn written_mesh_header_text() {
    let text = String::from_utf8(mesh_ply_header(3, 1, true, false)).unwrap();
    assert_eq!(
        text,
        "ply\nformat binary_little_endian 1.0\ncomment Generated by pointcloud-cli\nelement vertex 3\nproperty float64 x\nproperty float64 y\nproperty float64 z\nproperty float64 nx\nproperty float64 ny\nproperty float64 nz\nelement face 1\nproperty list uchar int vertex_indices\nend_header\n"
    );
}

#[test]
fn mesh_round_trip_fills_missing_normals_and_colors() {
    let writer = MeshWriter::new();
    let reader = MeshReader::new();
    let mut v0 = vertex(1.0, 2.0, 3.0);
    v0.normal = Some((bits(0.0), bits(1.0), bits(0.0)));
    let v1 = vertex(-1.5, 0.25, 8.0);
    let mut v2 = vertex(0.0, 0.0, 0.0);
    v2.color = Some(Color::new(10, 20, 30));
    let mesh = RawMesh {
        vertices: vec![v0, v1, v2],
        faces: vec![TriangleFace::new(0, 1, 2), TriangleFace::new(2, 1, 0)],
    };
    let bytes = writer.encode_ply(&mesh);
    let h = reader.parse_ply_header(&bytes).unwrap();
    assert_eq!(h.encoding, PlyEncoding::BinaryLittleEndian);
    assert_eq!(h.vertex_count, 3);
    assert_eq!(h.face_count, 2);
    assert!(h.has_normals);
    assert!(h.has_colors);
    let back = reader.decode_ply_binary(&bytes, &h).unwrap();
    let mut w1 = v1;
    w1.normal = Some((0, 0, bits(1.0)));
    w1.color = Some(Color::white());
    let mut w0 = v0;
    w0.color = Some(Color::white());
    let mut w2 = v2;
    w2.normal = Some((0, 0, bits(1.0)));
    assert_eq!(back.vertices, vec![w0, w1, w2]);
    assert_eq!(back.faces, mesh.faces);
}

#[test]
fn mesh_round_trip_without_normals_or_colors() {
    let writer = MeshWriter::new();
    let reader = MeshReader::new();
    let mesh = RawMesh {
        vertices: vec![vertex(1.0, 0.0, 0.0), vertex(0.0, 1.0, 0.0), vertex(0.0, 0.0, 1.0)],
        faces: vec![TriangleFace::new(0, 1, 2)],
    };
    let bytes = writer.encode_ply(&mesh);
    let h = reader.parse_ply_header(&bytes).unwrap();
    assert!(!h.has_normals && !h.has_colors);
    assert_eq!(bytes.len(), h.data_offset + 3 * 24 + 13);
    let back = reader.decode_ply_binary(&bytes, &h).unwrap();
    assert_eq!(back, mesh);
}

#[test]
fn decoding_skips_non_triangle_faces_and_reads_big_endian() {
    let reader = MeshReader::new();
    let header = MeshPlyHeader {
        encoding: PlyEncoding::BinaryBigEndian,
        vertex_count: 1,
        face_count: 2,
        has_normals: false,
        has_colors: false,
        data_offset: 2,
    };
    let mut data = vec![0xAAu8, 0xBB];
    for c in [1.0f64, 2.0, 3.0] {
        data.extend_from_slice(&c.to_be_bytes());
    }
    data.push(4);
    for i in [0i32, 0, 0, 0] {
        data.extend_from_slice(&i.to_be_bytes());
    }
    data.push(3);
    for i in [0i32, 0, 0] {
        data.extend_from_slice(&i.to_be_bytes());
    }
    let m = reader.decode_ply_binary(&data, &header).unwrap();
    assert_eq!(m.vertices, vec![vertex(1.0, 2.0, 3.0)]);
    assert_eq!(m.faces, vec![TriangleFace::new(0, 0, 0)]);
}

#[test]
fn truncated_body_fails() {
    let writer = MeshWriter::new();
    let reader = MeshReader::new();
    let mesh = RawMesh { vertices: vec![vertex(1.0, 2.0, 3.0)], faces: vec![TriangleFace::new(0, 0, 0)] };
    let bytes = writer.encode_ply(&mesh);
    let h = reader.parse_ply_header(&bytes).unwrap();
    let cut = &bytes[..bytes.len() - 1];
    assert_eq!(
        reader.decode_ply_binary(cut, &h),
        Err(PointCloudError::IoError(IoErrorKind::UnexpectedEof))
    );
}

#[test]
fn point_cloud_encoding_writes_normals_only_when_all_have_them() {
    let mut a = vertex(1.0, 1.0, 1.0);
    a.normal = Some((1, 2, 3));
    let b = vertex(2.0, 2.0, 2.0);
    let bytes = encode_point_cloud_ply(&[a, b]);
    let text = String::from_utf8_lossy(&bytes);
    assert!(!text.contains("property float64 nx"));
    let header_len = text.find("end_header\n").unwrap() + "end_header\n".len();
    assert_eq!(bytes.len(), header_len + 2 * 24);
    assert_eq!(&bytes[header_len..header_len + 8], &1.0f64.to_le_bytes());
}

#[test]
fn empty_point_cloud_declares_normals_and_colors() {
    let bytes = encode_point_cloud_ply(&[]);
    let text = String::from_utf8(bytes).unwrap();
    assert!(text.contains("element vertex 0\n"));
    assert!(text.contains("property float64 nz\n"));
    assert!(text.contains("property uchar blue\n"));
    assert!(text.ends_with("end_header\n"));
}

fn words(s: &str) -> Vec<Vec<char>> {
    s.split_whitespace().map(|w| w.chars().collect()).collect()
}

#[test]
fn ascii_face_lines() {
    let reader = MeshReader::new();
    assert_eq!(reader.parse_ascii_face(&words("3 0 1 2")), Some(TriangleFace::new(0, 1, 2)));
    assert_eq!(reader.parse_ascii_face(&words("3 4 x 6 7")), Some(TriangleFace::new(4, 0, 6)));
    assert_eq!(reader.parse_ascii_face(&words("4 0 1 2 3")), None);
    assert_eq!(reader.parse_ascii_face(&words("3 0 1")), None);
    assert_eq!(reader.parse_ascii_face(&words("three 0 1 2")), None);
}

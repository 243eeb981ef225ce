use pointcloud_cli::error::{IoErrorKind, PointCloudError};
use pointcloud_cli::io::MeshReader;
use pointcloud_cli::obj::{obj_line_kind, ObjLineKind};
use pointcloud_cli::stl::StlTriangle;
use pointcloud_cli::types::TriangleFace;

fn chars(s: &str) -> Vec<char> {
    s.chars().collect()
}

fn words(s: &str) -> Vec<Vec<char>> {
    s.split_whitespace().map(chars).collect()
}

#[test]
fn obj_line_kinds() {
    assert_eq!(obj_line_kind(&chars("v 1 2 3")).0, ObjLineKind::Vertex { colored: false });
    assert_eq!(obj_line_kind(&chars("v 1 2 3 0.5 0.5 0.5")).0, ObjLineKind::Vertex { colored: true });
    assert_eq!(obj_line_kind(&chars("vn 0 0 1")).0, ObjLineKind::Normal);
    assert_eq!(obj_line_kind(&chars("  f 1 2 3 ")).0, ObjLineKind::Face);
    assert_eq!(obj_line_kind(&chars("# v 1 2 3")).0, ObjLineKind::Other);
    assert_eq!(obj_line_kind(&chars("   ")).0, ObjLineKind::Other);
    assert_eq!(obj_line_kind(&chars("v 1 2")).0, ObjLineKind::Other);
    assert_eq!(obj_line_kind(&chars("vt 0.5 0.5")).0, ObjLineKind::Other);
}

#[test]
fn obj_line_words_are_those_of_the_trimmed_line() {
    let (_, ws) = obj_line_kind(&chars("\tf 1/1/1  2/2/2 3/3/3\r"));
    assert_eq!(ws, words("f 1/1/1 2/2/2 3/3/3"));
}

#[test]
fn obj_face_with_plain_indices() {
    let r = MeshReader::new();
    assert_eq!(r.parse_obj_face(&words("f 1 2 3"), 3, 0), Some((TriangleFace::new(0, 1, 2), None)));
}

#[test]
fn obj_face_with_normals() {
    let r = MeshReader::new();
    assert_eq!(
        r.parse_obj_face(&words("f 1//4 2//5 3//6"), 3, 6),
        Some((TriangleFace::new(0, 1, 2), Some([3, 4, 5])))
    );
    assert_eq!(
        r.parse_obj_face(&words("f 1/7/4 2/8/5 3/9/6 4/1/1"), 4, 6),
        Some((TriangleFace::new(0, 1, 2), Some([3, 4, 5])))
    );
}

#[test]
fn obj_face_with_relative_indices() {
    let r = MeshReader::new();
    assert_eq!(r.parse_obj_face(&words("f -3 -2 -1"), 10, 0), Some((TriangleFace::new(7, 8, 9), None)));
    assert_eq!(r.parse_obj_face(&words("f 0 +2 3"), 5, 0), Some((TriangleFace::new(5, 1, 2), None)));
}

#[test]
fn obj_face_skips_corners_that_are_not_numbers() {
    let r = MeshReader::new();
    assert_eq!(r.parse_obj_face(&words("f 1 x 3 4"), 4, 0), Some((TriangleFace::new(0, 2, 3), None)));
    assert_eq!(r.parse_obj_face(&words("f 1 2"), 4, 0), None);
    assert_eq!(r.parse_obj_face(&words("f 1 2 99999999999"), 4, 0), None);
}

#[test]
fn obj_face_with_too_few_normals_has_none() {
    let r = MeshReader::new();
    assert_eq!(
        r.parse_obj_face(&words("f 1//1 2 3//3"), 3, 3),
        Some((TriangleFace::new(0, 1, 2), None))
    );
}

#[test]
fn obj_vertex_normals_take_the_first_pairing() {
    let r = MeshReader::new();
    let faces = vec![TriangleFace::new(0, 1, 2), TriangleFace::new(2, 3, 0)];
    let fns = vec![[5, 6, 7], [0, 1, 2]];
    assert_eq!(r.obj_vertex_normals(&faces, &fns, 5, 8), vec![Some(5), Some(6), Some(7), Some(1), None]);
}

#[test]
fn obj_vertex_normals_out_of_range_are_dropped() {
    let r = MeshReader::new();
    let faces = vec![TriangleFace::new(0, 1, 2)];
    let fns = vec![[0, 9, 1]];
    assert_eq!(r.obj_vertex_normals(&faces, &fns, 3, 2), vec![Some(0), None, Some(1)]);
    assert_eq!(r.obj_vertex_normals(&faces, &fns, 3, 0), vec![None, None, None]);
}

#[test]
fn obj_faces_without_normal_triples_give_nothing() {
    let r = MeshReader::new();
    let faces = vec![TriangleFace::new(0, 1, 2)];
    assert_eq!(r.obj_vertex_normals(&faces, &[], 3, 4), vec![None, None, None]);
}

fn stl_binary(triangles: &[[f32; 12]]) -> Vec<u8> {
    let mut b = vec![0u8; 80];
    b.extend_from_slice(&(triangles.len() as u32).to_le_bytes());
    for t in triangles {
        for v in t {
            b.extend_from_slice(&v.to_le_bytes());
        }
        b.extend_from_slice(&[0, 0]);
    }
    b
}

#[test]
fn stl_kind_from_header() {
    let r = MeshReader::new();
    let mut ascii = b"solid cube".to_vec();
    ascii.resize(100, b' ');
    assert_eq!(r.stl_is_ascii(&ascii), Ok(true));
    assert_eq!(r.stl_is_ascii(&stl_binary(&[])), Ok(false));
    assert_eq!(
        r.stl_is_ascii(b"solid"),
        Err(PointCloudError::ParseError("STL文件太短".to_string()))
    );
}

#[test]
fn stl_binary_triangles_and_faces() {
    let r = MeshReader::new();
    let t0 = [0.0, 0.0, 1.0, 0.0, 0.0, 0.0, 1.0, 0.0, 0.0, 0.0, 1.0, 0.0];
    let t1 = [1.0, 0.0, 0.0, 2.0, 2.0, 2.0, 3.0, 3.0, 3.0, 4.0, 4.0, 4.0f32];
    let data = stl_binary(&[t0, t1]);
    let m = r.decode_stl_binary(&data).unwrap();
    let b = |x: f32| x.to_bits();
    assert_eq!(
        m.triangles[1],
        StlTriangle {
            normal: (b(1.0), b(0.0), b(0.0)),
            corners: [(b(2.0), b(2.0), b(2.0)), (b(3.0), b(3.0), b(3.0)), (b(4.0), b(4.0), b(4.0))],
        }
    );
    assert_eq!(m.triangles.len(), 2);
    assert_eq!(m.faces, vec![TriangleFace::new(0, 1, 2), TriangleFace::new(3, 4, 5)]);
}

#[test]
fn stl_binary_short_body_fails() {
    let r = MeshReader::new();
    let data = stl_binary(&[[0.0; 12]]);
    assert_eq!(
        r.decode_stl_binary(&data[..data.len() - 1]),
        Err(PointCloudError::IoError(IoErrorKind::UnexpectedEof))
    );
    assert_eq!(
        r.decode_stl_binary(&data[..82]),
        Err(PointCloudError::IoError(IoErrorKind::UnexpectedEof))
    );
}

use pointcloud_cli::stl::{stl_facet_face, stl_line_kind, StlLineKind};

#[test]
fn stl_ascii_line_kinds() {
    assert_eq!(stl_line_kind("  facet normal 0 0 1").0, StlLineKind::Facet { with_normal: true });
    assert_eq!(stl_line_kind("FACET NORMAL 0 0 1").0, StlLineKind::Facet { with_normal: true });
    assert_eq!(stl_line_kind("facet").0, StlLineKind::Facet { with_normal: false });
    assert_eq!(stl_line_kind("facet normals 0 0 1").0, StlLineKind::Facet { with_normal: false });
    assert_eq!(stl_line_kind("\tVertex 1 2 3").0, StlLineKind::Vertex);
    assert_eq!(stl_line_kind("vertex 1 2").0, StlLineKind::Other);
    assert_eq!(stl_line_kind("endfacet").0, StlLineKind::EndFacet);
    assert_eq!(stl_line_kind("outer loop").0, StlLineKind::Other);
    assert_eq!(stl_line_kind("").0, StlLineKind::Other);
    let (_, ws) = stl_line_kind(" Vertex 1E2 2 3 ");
    assert_eq!(ws, words("vertex 1e2 2 3"));
}

#[test]
fn stl_facets_use_their_first_three_corners() {
    assert_eq!(stl_facet_face(&[4, 5, 6, 7]), Some(TriangleFace::new(4, 5, 6)));
    assert_eq!(stl_facet_face(&[4, 5]), None);
}

use pointcloud_cli::obj::xyz_line_words;

#[test]
fn xyz_lines_with_points() {
    assert_eq!(xyz_line_words(&chars("  1.0 2.0 3.0 ")), Some(words("1.0 2.0 3.0")));
    assert_eq!(xyz_line_words(&chars("1 2 3 0 0 1")).map(|w| w.len()), Some(6));
    assert_eq!(xyz_line_words(&chars("# 1 2 3")), None);
    assert_eq!(xyz_line_words(&chars("1 2")), None);
    assert_eq!(xyz_line_words(&chars("\t\r")), None);
}

use pointcloud_cli::error::PointCloudError;
use pointcloud_cli::io::{MeshFormat, PointCloudFormat};
use pointcloud_cli::utils::{
    detect_file_format, detect_mesh_format, mesh_format_from_extension,
    point_cloud_format_from_extension,
};

#[test]
fn point_cloud_formats_by_extension() {
    assert_eq!(detect_file_format("scan.ply"), Ok(PointCloudFormat::PLY));
    assert_eq!(detect_file_format("dir/scan.pcd"), Ok(PointCloudFormat::PCD));
    assert_eq!(detect_file_format("a.las"), Ok(PointCloudFormat::LAS));
    assert_eq!(detect_file_format("a.laz"), Ok(PointCloudFormat::LAS));
    assert_eq!(detect_file_format("a.xyz"), Ok(PointCloudFormat::XYZ));
    assert_eq!(detect_file_format("a.txt"), Ok(PointCloudFormat::XYZ));
}

#[test]
fn point_cloud_format_ignores_case() {
    assert_eq!(detect_file_format("SCAN.PLY"), Ok(PointCloudFormat::PLY));
    assert_eq!(detect_file_format("x.Pcd"), Ok(PointCloudFormat::PCD));
}

#[test]
fn unknown_point_cloud_extension_is_unsupported() {
    assert_eq!(
        detect_file_format("model.OBJ"),
        Err(PointCloudError::UnsupportedFormat("obj".to_string()))
    );
}

#[test]
fn missing_extension_is_a_parse_error() {
    let expected = Err(PointCloudError::ParseError("无法识别文件扩展名".to_string()));
    assert_eq!(detect_file_format("scan"), expected);
    assert_eq!(detect_file_format(".hidden"), expected);
    assert_eq!(detect_mesh_format("dir.d/mesh"), Err(PointCloudError::ParseError("无法识别文件扩展名".to_string())));
}

#[test]
fn mesh_formats_by_extension() {
    assert_eq!(detect_mesh_format("m.ply"), Ok(MeshFormat::PLY));
    assert_eq!(detect_mesh_format("m.OBJ"), Ok(MeshFormat::OBJ));
    assert_eq!(detect_mesh_format("out/m.stl"), Ok(MeshFormat::STL));
    assert_eq!(
        detect_mesh_format("m.pcd"),
        Err(PointCloudError::UnsupportedFormat("pcd".to_string()))
    );
}

#[test]
fn formats_from_lower_case_extensions() {
    assert_eq!(point_cloud_format_from_extension("ply"), Ok(PointCloudFormat::PLY));
    assert_eq!(
        point_cloud_format_from_extension("PLY"),
        Err(PointCloudError::UnsupportedFormat("PLY".to_string()))
    );
    assert_eq!(mesh_format_from_extension("stl"), Ok(MeshFormat::STL));
    assert_eq!(
        mesh_format_from_extension(""),
        Err(PointCloudError::UnsupportedFormat(String::new()))
    );
}

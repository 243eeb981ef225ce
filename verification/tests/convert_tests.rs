use pointcloud_cli::convert::{
    check_point_cloud_output, check_section_args, measure_point, needs_normals,
    ply_float_precision, precision_loss_notes, precision_source, volume_input_is_mesh,
    MeasurePoint, PrecisionSource,
};
use pointcloud_cli::error::PointCloudError;
use pointcloud_cli::reconstruction::ReconstructionAlgorithm;

#[test]
fn normals_are_needed_for_poisson_ball_pivoting_or_when_asked() {
    assert!(needs_normals(Some(ReconstructionAlgorithm::Poisson), None));
    assert!(needs_normals(Some(ReconstructionAlgorithm::BallPivoting), None));
    assert!(!needs_normals(Some(ReconstructionAlgorithm::MarchingCubes), None));
    assert!(needs_normals(Some(ReconstructionAlgorithm::MarchingCubes), Some(10)));
    assert!(!needs_normals(None, None));
    assert!(needs_normals(None, Some(20)));
}

#[test]
fn point_cloud_output_must_be_ply() {
    assert_eq!(check_point_cloud_output("out/a.PLY"), Ok(()));
    assert_eq!(
        check_point_cloud_output("out/a.obj"),
        Err(PointCloudError::ConfigError(
            "不支持的点云输出格式: .obj (不做重建时仅支持 .ply 点云输出)".to_string()
        ))
    );
    assert_eq!(
        check_point_cloud_output("noext"),
        Err(PointCloudError::ConfigError(
            "不支持的点云输出格式: . (不做重建时仅支持 .ply 点云输出)".to_string()
        ))
    );
}

#[test]
fn precision_by_format() {
    assert_eq!(precision_source("a.ply"), PrecisionSource::PlyHeader);
    assert_eq!(precision_source("a.XYZ"), PrecisionSource::Known("float64 (ascii)".to_string()));
    assert_eq!(precision_source("a.pcd"), PrecisionSource::Known("float32".to_string()));
    assert_eq!(precision_source("a.laz"), PrecisionSource::Known("int32_scaled".to_string()));
    assert_eq!(precision_source("a.stl"), PrecisionSource::Known("float64 (ascii/混合)".to_string()));
    assert_eq!(precision_source("a.e57"), PrecisionSource::Unknown);
    assert_eq!(precision_source("a"), PrecisionSource::Unknown);
}

#[test]
fn precision_from_ply_header() {
    let double = b"ply\nformat ascii 1.0\nelement vertex 1\nproperty double x\nproperty double y\nend_header\n";
    assert_eq!(ply_float_precision(double), Some("float64".to_string()));
    let single = b"ply\nproperty float x\nend_header\n";
    assert_eq!(ply_float_precision(single), Some("float32".to_string()));
    let late = b"ply\nend_header\nproperty double x\n";
    assert_eq!(ply_float_precision(late), None);
    let ints = b"ply\nproperty int x\nproperty float32 y\nend_header\n";
    assert_eq!(ply_float_precision(ints), Some("float32".to_string()));
    assert_eq!(ply_float_precision(b""), None);
}

#[test]
fn precision_loss_notes_of_conversions() {
    assert_eq!(
        precision_loss_notes(Some("float64"), Some("float32"), false),
        vec!["float64 → float32 可能存在数值截断".to_string()]
    );
    assert_eq!(
        precision_loss_notes(Some("float64 (ascii)"), Some("int32_scaled"), true),
        vec![
            "float64 → float32 可能存在数值截断".to_string(),
            "浮点 → 整数缩放编码 存在精度损失".to_string(),
            "表面重建是近似过程，不复原始点".to_string(),
        ]
    );
    assert!(precision_loss_notes(Some("float32"), Some("float64"), false).is_empty());
    assert_eq!(precision_loss_notes(None, Some("float32"), true).len(), 1);
}

#[test]
fn measured_points() {
    assert_eq!(measure_point(false, Some(3), Some(99), 5), Ok(MeasurePoint::Coordinates));
    assert_eq!(measure_point(true, None, Some(4), 5), Ok(MeasurePoint::Index(4)));
    assert_eq!(
        measure_point(false, Some(2), None, 5),
        Err(PointCloudError::InvalidParameter("p1需要3个坐标".to_string()))
    );
    assert_eq!(
        measure_point(true, None, Some(5), 5),
        Err(PointCloudError::InvalidParameter("idx2超出范围 (5/5)".to_string()))
    );
    assert_eq!(
        measure_point(true, None, None, 5),
        Err(PointCloudError::InvalidParameter("需要指定--idx2或--p2".to_string()))
    );
}

#[test]
fn volume_inputs() {
    assert!(volume_input_is_mesh("part.STL"));
    assert!(volume_input_is_mesh("dir/part.obj"));
    assert!(!volume_input_is_mesh("mesh.ply"));
    assert!(!volume_input_is_mesh("cloud"));
}

#[test]
fn section_arguments() {
    assert_eq!(check_section_args(3, 3), Ok(()));
    assert_eq!(
        check_section_args(2, 3),
        Err(PointCloudError::InvalidParameter("normal需要3个值".to_string()))
    );
    assert_eq!(
        check_section_args(3, 4),
        Err(PointCloudError::InvalidParameter("point需要3个值".to_string()))
    );
}

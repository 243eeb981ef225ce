use pointcloud_cli::config::{
    default_downsample_type, default_filter_type, default_reconstruct_type,
    default_register_type, default_segment_type, default_simplify_type, default_smooth_type,
    example_config_yaml,
};
use pointcloud_cli::error::PointCloudError;
use pointcloud_cli::pipeline::{
    check_inputs_found, dry_run_verdict, file_stem_or_output, intermediate_output_name,
    output_dir_or_default, reconstruction_algorithm_named, step_name, PipelineEngine, StepKind,
};
use pointcloud_cli::reconstruction::ReconstructionAlgorithm;
use pointcloud_cli::utils::time_it;

#[test]
fn new_engine_uses_default_threshold() {
    let e = PipelineEngine::new();
    assert_eq!(e.reader.large_file_threshold, 5_000_000);
}

#[test]
fn template_with_stem_placeholder_goes_under_output_dir() {
    let e = PipelineEngine::new();
    assert_eq!(e.resolve_output_path("{stem}_clean.ply", "out", "scan1"), "out/scan1_clean.ply");
    assert_eq!(e.resolve_output_path("{}.obj", "out", "a"), "out/a.obj");
}

#[test]
fn template_with_placeholder_and_directory_is_kept() {
    let e = PipelineEngine::new();
    assert_eq!(e.resolve_output_path("res/{stem}.ply", "out", "s"), "res/s.ply");
    assert_eq!(e.resolve_output_path("/abs/{}.ply", "out", "s"), "/abs/s.ply");
}

#[test]
fn file_name_template_is_prefixed_by_stem() {
    let e = PipelineEngine::new();
    assert_eq!(e.resolve_output_path("result.obj", "out", "scan"), "out/scan_result.obj");
}

#[test]
fn template_with_directory_and_extension_is_kept() {
    let e = PipelineEngine::new();
    assert_eq!(e.resolve_output_path("meshes/result.obj", "out", "scan"), "meshes/result.obj");
}

#[test]
fn bare_extension_template_names_the_output_type() {
    let e = PipelineEngine::new();
    assert_eq!(e.resolve_output_path("ply", "out", "scan"), "out/scan.ply");
}

#[test]
fn step_names() {
    assert_eq!(step_name(StepKind::Filter), "Filter");
    assert_eq!(step_name(StepKind::RemoveGround), "RemoveGround");
    assert_eq!(step_name(StepKind::FillHoles), "FillHoles");
    assert_eq!(step_name(StepKind::Align), "Align");
}

#[test]
fn default_step_types() {
    assert_eq!(default_filter_type(), "statistical");
    assert_eq!(default_downsample_type(), "voxel");
    assert_eq!(default_register_type(), "icp");
    assert_eq!(default_reconstruct_type(), "poisson");
    assert_eq!(default_simplify_type(), "qem");
    assert_eq!(default_smooth_type(), "laplacian");
    assert_eq!(default_segment_type(), "planes");
}

#[test]
fn example_config_starts_with_inputs_and_names_output() {
    let y = example_config_yaml();
    assert!(y.starts_with("input:\n  - scan1.ply\n  - scan2.ply\n"));
    assert!(y.contains("output: result.obj\n"));
    assert!(y.contains("report_path: report.json"));
}

#[test]
fn time_it_returns_what_the_step_returns() {
    assert_eq!(time_it("sum", || 2 + 3), 5);
}

#[test]
fn output_stems() {
    assert_eq!(file_stem_or_output("data/scan1.ply"), "scan1");
    assert_eq!(file_stem_or_output("archive.tar.gz"), "archive.tar");
    assert_eq!(file_stem_or_output(".hidden"), ".hidden");
    assert_eq!(file_stem_or_output("dir/"), "dir");
    assert_eq!(file_stem_or_output("/"), "output");
    assert_eq!(file_stem_or_output("a/.."), "output");
}

#[test]
fn reconstruction_algorithms_by_name() {
    assert_eq!(reconstruction_algorithm_named("poisson"), Some(ReconstructionAlgorithm::Poisson));
    assert_eq!(reconstruction_algorithm_named("ball"), Some(ReconstructionAlgorithm::BallPivoting));
    assert_eq!(reconstruction_algorithm_named("ball_pivoting"), Some(ReconstructionAlgorithm::BallPivoting));
    assert_eq!(reconstruction_algorithm_named("mc"), Some(ReconstructionAlgorithm::MarchingCubes));
    assert_eq!(reconstruction_algorithm_named("Poisson"), None);
}

#[test]
fn intermediate_names() {
    assert_eq!(intermediate_output_name("scan", 2, "filtered"), "scan_step2_filtered.ply");
    assert_eq!(intermediate_output_name("a", 10, "non_ground"), "a_step10_non_ground.ply");
}

#[test]
fn output_directory_default() {
    assert_eq!(output_dir_or_default(Some("out")), "out");
    assert_eq!(output_dir_or_default(None), "./output");
}

#[test]
fn run_and_dry_run_verdicts() {
    assert_eq!(
        check_inputs_found(0),
        Err(PointCloudError::ConfigError("未找到任何输入点云文件".to_string()))
    );
    assert_eq!(check_inputs_found(3), Ok(()));
    assert_eq!(
        dry_run_verdict(2, 5),
        Err(PointCloudError::ConfigError("试运行发现 2 个缺失的输入项，请检查配置".to_string()))
    );
    assert_eq!(
        dry_run_verdict(0, 0),
        Err(PointCloudError::ConfigError("试运行发现没有可处理的输入文件".to_string()))
    );
    assert_eq!(dry_run_verdict(0, 1), Ok(()));
}

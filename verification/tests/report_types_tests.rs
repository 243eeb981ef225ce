use pointcloud_cli::reconstruction::{sort_tri, ReconstructionAlgorithm};
use pointcloud_cli::report::{
    bold, cyan, duration_to_ms, final_points, green, red, signed_i64, yellow,
    GroundRemovalStats, ReconstructionStats, SegmentationStats,
};
use pointcloud_cli::types::{Color, TriangleFace};

#[test]
fn ansi_colors_wrap_text() {
    assert_eq!(red("x"), "\x1b[31mx\x1b[0m");
    assert_eq!(green("ok"), "\x1b[32mok\x1b[0m");
    assert_eq!(yellow(""), "\x1b[33m\x1b[0m");
    assert_eq!(cyan("a b"), "\x1b[36ma b\x1b[0m");
    assert_eq!(bold("B"), "\x1b[1mB\x1b[0m");
}

#[test]
fn signed_counts() {
    assert_eq!(signed_i64(None), "-");
    assert_eq!(signed_i64(Some(42)), "+42");
    assert_eq!(signed_i64(Some(0)), "0");
    assert_eq!(signed_i64(Some(-17)), "-17");
    assert_eq!(signed_i64(Some(i64::MIN)), "-9223372036854775808");
    assert_eq!(signed_i64(Some(i64::MAX)), "+9223372036854775807");
}

#[test]
fn durations_in_milliseconds() {
    let d = std::time::Duration::from_millis(2345);
    assert_eq!(duration_to_ms(d.as_secs(), d.subsec_millis()), 2345);
    assert_eq!(duration_to_ms(0, 999), 999);
    assert_eq!(duration_to_ms(60, 0), 60_000);
}

#[test]
fn final_point_count_is_the_last_step_that_ran() {
    assert_eq!(final_points(100, None, None, None), 100);
    assert_eq!(final_points(100, Some(90), None, None), 90);
    assert_eq!(final_points(100, Some(90), Some(40), None), 40);
    assert_eq!(final_points(100, Some(90), None, Some(30)), 30);
    assert_eq!(final_points(100, None, Some(0), Some(7)), 7);
}

#[test]
fn colors() {
    let c = Color::new(1, 2, 3);
    assert_eq!((c.r, c.g, c.b), (1, 2, 3));
    assert_eq!(Color::white(), Color { r: 255, g: 255, b: 255 });
    assert_eq!(Color::gray(), Color { r: 128, g: 128, b: 128 });
}

#[test]
fn triangle_faces_keep_their_order() {
    assert_eq!(TriangleFace::new(4, 2, 9).indices, [4, 2, 9]);
}

#[test]
fn sorted_triangle_keys() {
    assert_eq!(sort_tri(3, 1, 2), (1, 2, 3));
    assert_eq!(sort_tri(1, 2, 3), (1, 2, 3));
    assert_eq!(sort_tri(5, 5, 1), (1, 5, 5));
    assert_eq!(sort_tri(9, 0, 4), sort_tri(4, 9, 0));
}

#[test]
fn stats_records() {
    let g = GroundRemovalStats { ground_points: 10, non_ground_points: 90, time_ms: 5 };
    assert_eq!(g.clone(), g);
    let r = ReconstructionStats { reconstruct_type: "poisson".to_string(), vertices: 3, faces: 1, time_ms: 2 };
    assert_eq!(r.reconstruct_type, "poisson");
    let s = SegmentationStats { planes_detected: 2, clusters: Some(4), largest_cluster: None, time_ms: 0 };
    assert_eq!(s.clusters, Some(4));
    assert_ne!(ReconstructionAlgorithm::Poisson, ReconstructionAlgorithm::MarchingCubes);
}

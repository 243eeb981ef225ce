use vstd::prelude::*;
use crate::text::{chars_to_string, str_chars};

verus! {

/// The text of the example pipeline configuration.
pub const EXAMPLE_CONFIG_YAML: &'static str = "input:
  - scan1.ply
  - scan2.ply

pipeline:
  - step: align
    params:
      source: source.ply
      target: target.ply
      ransac_iterations: 1000
      icp_iterations: 50
      icp_threshold: 1e-7
      voxel_size: 0.0
      normal_radius: 0.0
      rmse_warning_threshold: 0.05
      output_transformed_source: aligned_source.ply
      output_matrix: transform_matrix.txt
      pass_transform_to_next: true

  - step: filter
    params:
      type: statistical
      k: 30
      std_ratio: 1.5

  - step: downsample
    params:
      type: voxel
      voxel_size: 0.05

  - step: normals
    params:
      k: 20

  - step: register
    params:
      type: icp
      fpfh_radius: 0.15
      icp_iterations: 100

  - step: reconstruct
    params:
      type: poisson
      depth: 8

  - step: simplify
    params:
      type: qem
      target_ratio: 0.5

  - step: smooth
    params:
      type: laplacian
      iterations: 20
      lambda: 0.5

  - step: quality
    params:
      threshold: 60
      assess_completeness: false
      auto_fix: false

output: result.obj

output_intermediate: true
output_dir: ./output
report_path: report.json
";

/// An example pipeline configuration in YAML.
pub fn example_config_yaml() -> (r: String)
    ensures
        r@ == EXAMPLE_CONFIG_YAML@,
{
    chars_to_string(str_chars(EXAMPLE_CONFIG_YAML).as_slice())
}

/// The filter a `filter` step runs when its type is not given.
pub fn default_filter_type() -> (r: String)
    ensures
        r@ == "statistical"@,
{
    chars_to_string(str_chars("statistical").as_slice())
}

/// The method a `downsample` step uses when its type is not given.
pub fn default_downsample_type() -> (r: String)
    ensures
        r@ == "voxel"@,
{
    chars_to_string(str_chars("voxel").as_slice())
}

/// The method a `register` step uses when its type is not given.
pub fn default_register_type() -> (r: String)
    ensures
        r@ == "icp"@,
{
    chars_to_string(str_chars("icp").as_slice())
}

/// The method a `reconstruct` step uses when its type is not given.
pub fn default_reconstruct_type() -> (r: String)
    ensures
        r@ == "poisson"@,
{
    chars_to_string(str_chars("poisson").as_slice())
}

/// The method a `simplify` step uses when its type is not given.
pub fn default_simplify_type() -> (r: String)
    ensures
        r@ == "qem"@,
{
    chars_to_string(str_chars("qem").as_slice())
}

/// The method a `smooth` step uses when its type is not given.
pub fn default_smooth_type() -> (r: String)
    ensures
        r@ == "laplacian"@,
{
    chars_to_string(str_chars("laplacian").as_slice())
}

/// The method a `segment` step uses when its type is not given.
pub fn default_segment_type() -> (r: String)
    ensures
        r@ == "planes"@,
{
    chars_to_string(str_chars("planes").as_slice())
}

} // verus!

use vstd::prelude::*;
use crate::error::PointCloudError;
use crate::io::{MeshWriter, PointCloudReader};
use crate::reconstruction::ReconstructionAlgorithm;
use crate::paths::{
    extension, extension_bounds, file_stem, file_stem_bounds, is_absolute, join, join_chars,
    parent_is_empty,
    parent_is_none_or_empty, path_component_count, path_is_absolute, segment_count,
    segment_count_from,
};
use crate::text::{
    chars_contains_str, chars_eq_str, chars_to_string, concat_chars, contains, decimal,
    decimal_chars, replace_all, replace_chars, str_chars, sub_chars,
};

verus! {

/// Runs a configured pipeline over point cloud files.
pub struct PipelineEngine {
    pub reader: PointCloudReader,
    pub writer: MeshWriter,
}

impl PipelineEngine {
    /// An engine with a default reader and writer.
    pub fn new() -> (e: Self)
        ensures
            e.reader.large_file_threshold == 5_000_000,
    {
        PipelineEngine { reader: PointCloudReader::new(), writer: MeshWriter::new() }
    }
}

/// The output path for the input file with stem `stem`: a template with
/// `{stem}` or `{}` has them replaced by the stem (and is put under the
/// output directory when it is a bare file name); a template that is a file
/// name with an extension is prefixed by `stem_` (under the output directory
/// when it has no directory part); any other template is taken as the
/// extension of `stem` under the output directory.
pub open spec fn resolve_output_path_spec(template: Seq<char>, output_dir: Seq<char>, stem: Seq<
    char,
>) -> Seq<char> {
    if contains(template, "{stem}"@) || contains(template, "{}"@) {
        let replaced = replace_all(replace_all(template, "{stem}"@, stem), "{}"@, stem);
        if is_absolute(replaced) || !parent_is_empty(replaced) {
            replaced
        } else {
            join(output_dir, replaced)
        }
    } else if extension(template) is Some && contains(template, "."@) {
        if parent_is_none_or_empty(template) {
            join(output_dir, stem + "_"@ + template)
        } else {
            template
        }
    } else {
        join(output_dir, stem + "."@ + template)
    }
}

impl PipelineEngine {
    /// The path the result for the input with stem `stem` is written to.
    pub fn resolve_output_path(&self, template: &str, output_dir: &str, stem: &str) -> (r: String)
        ensures
            r@ == resolve_output_path_spec(template@, output_dir@, stem@),
    {
        let t = str_chars(template);
        let t = t.as_slice();
        let d = str_chars(output_dir);
        let d = d.as_slice();
        let s = str_chars(stem);
        let s = s.as_slice();
        let has_stem = chars_contains_str(t, "{stem}");
        let has_braces = chars_contains_str(t, "{}");
        if has_stem || has_braces {
            let p1 = str_chars("{stem}");
            let p2 = str_chars("{}");
            proof {
                reveal_strlit("{stem}");
                reveal_strlit("{}");
            }
            let r1 = replace_chars(t, p1.as_slice(), s);
            let replaced = replace_chars(r1.as_slice(), p2.as_slice(), s);
            let rp = replaced.as_slice();
            let abs = path_is_absolute(rp);
            let parent_empty = !abs && path_component_count(rp) == 1;
            if abs || !parent_empty {
                chars_to_string(rp)
            } else {
                chars_to_string(join_chars(d, rp).as_slice())
            }
        } else {
            let has_ext = match extension_bounds(t) {
                Some(_) => true,
                None => false,
            };
            if has_ext && chars_contains_str(t, ".") {
                let none_or_empty = if path_is_absolute(t) {
                    segment_count(t) == 0
                } else {
                    path_component_count(t) <= 1
                };
                if none_or_empty {
                    let a = concat_chars(s, str_chars("_").as_slice());
                    let name = concat_chars(a.as_slice(), t);
                    chars_to_string(join_chars(d, name.as_slice()).as_slice())
                } else {
                    chars_to_string(t)
                }
            } else {
                let a = concat_chars(s, str_chars(".").as_slice());
                let name = concat_chars(a.as_slice(), t);
                chars_to_string(join_chars(d, name.as_slice()).as_slice())
            }
        }
    }
}

/// The kinds of pipeline steps.
#[derive(Debug, Clone, Copy, PartialEq, Eq)]
pub enum StepKind {
    Filter,
    Downsample,
    RemoveGround,
    Normals,
    Register,
    Reconstruct,
    FillHoles,
    Simplify,
    Smooth,
    Segment,
    Quality,
    Align,
}

/// The name of a step kind, as reports show it.
pub open spec fn step_kind_name(kind: StepKind) -> Seq<char> {
    match kind {
        StepKind::Filter => "Filter"@,
        StepKind::Downsample => "Downsample"@,
        StepKind::RemoveGround => "RemoveGround"@,
        StepKind::Normals => "Normals"@,
        StepKind::Register => "Register"@,
        StepKind::Reconstruct => "Reconstruct"@,
        StepKind::FillHoles => "FillHoles"@,
        StepKind::Simplify => "Simplify"@,
        StepKind::Smooth => "Smooth"@,
        StepKind::Segment => "Segment"@,
        StepKind::Quality => "Quality"@,
        StepKind::Align => "Align"@,
    }
}

/// The name of a step of the kind `kind`.
pub fn step_name(kind: StepKind) -> (r: String)
    ensures
        r@ == step_kind_name(kind),
{
    let name = match kind {
        StepKind::Filter => "Filter",
        StepKind::Downsample => "Downsample",
        StepKind::RemoveGround => "RemoveGround",
        StepKind::Normals => "Normals",
        StepKind::Register => "Register",
        StepKind::Reconstruct => "Reconstruct",
        StepKind::FillHoles => "FillHoles",
        StepKind::Simplify => "Simplify",
        StepKind::Smooth => "Smooth",
        StepKind::Segment => "Segment",
        StepKind::Quality => "Quality",
        StepKind::Align => "Align",
    };
    chars_to_string(str_chars(name).as_slice())
}

/// The stem of an input file, as output names use it: its file stem, or
/// `output` when it has none.
pub open spec fn stem_for_output(path: Seq<char>) -> Seq<char> {
    match file_stem(path) {
        Some(s) => s,
        None => "output"@,
    }
}

/// The stem an input file gives its outputs.
pub fn file_stem_or_output(path: &str) -> (r: String)
    ensures
        r@ == stem_for_output(path@),
{
    let p = str_chars(path);
    match file_stem_bounds(p.as_slice()) {
        Some((a, b)) => chars_to_string(sub_chars(p.as_slice(), a, b).as_slice()),
        None => chars_to_string(str_chars("output").as_slice()),
    }
}

/// The reconstruction algorithm a `reconstruct` step names, if it names one.
pub open spec fn algorithm_named(name: Seq<char>) -> Option<ReconstructionAlgorithm> {
    if name == "poisson"@ {
        Some(ReconstructionAlgorithm::Poisson)
    } else if name == "ball_pivoting"@ || name == "ball"@ {
        Some(ReconstructionAlgorithm::BallPivoting)
    } else if name == "marching_cubes"@ || name == "mc"@ {
        Some(ReconstructionAlgorithm::MarchingCubes)
    } else {
        None
    }
}

/// The reconstruction algorithm named `name`; a step with any other name
/// reconstructs with Poisson, after a warning.
pub fn reconstruction_algorithm_named(name: &str) -> (r: Option<ReconstructionAlgorithm>)
    ensures
        r == algorithm_named(name@),
{
    let n = str_chars(name);
    let n = n.as_slice();
    if chars_eq_str(n, "poisson") {
        Some(ReconstructionAlgorithm::Poisson)
    } else if chars_eq_str(n, "ball_pivoting") || chars_eq_str(n, "ball") {
        Some(ReconstructionAlgorithm::BallPivoting)
    } else if chars_eq_str(n, "marching_cubes") || chars_eq_str(n, "mc") {
        Some(ReconstructionAlgorithm::MarchingCubes)
    } else {
        None
    }
}

/// The name of the intermediate file that step `step_idx` writes for the
/// input with stem `stem`: `{stem}_step{step_idx}_{what}.ply`.
pub fn intermediate_output_name(stem: &str, step_idx: usize, what: &str) -> (r: String)
    ensures
        r@ == stem@ + "_step"@ + decimal(step_idx as nat) + "_"@ + what@ + ".ply"@,
{
    let a = concat_chars(str_chars(stem).as_slice(), str_chars("_step").as_slice());
    let b = concat_chars(a.as_slice(), decimal_chars(step_idx as u64).as_slice());
    let c = concat_chars(b.as_slice(), str_chars("_").as_slice());
    let d = concat_chars(c.as_slice(), str_chars(what).as_slice());
    let e = concat_chars(d.as_slice(), str_chars(".ply").as_slice());
    chars_to_string(e.as_slice())
}

/// The directory outputs go to: the configured one, or `./output`.
pub fn output_dir_or_default(output_dir: Option<&str>) -> (r: String)
    ensures
        r@ == match output_dir {
            Some(d) => d@,
            None => "./output"@,
        },
{
    match output_dir {
        Some(d) => chars_to_string(str_chars(d).as_slice()),
        None => chars_to_string(str_chars("./output").as_slice()),
    }
}

/// A run needs at least one input file.
pub fn check_inputs_found(input_files: usize) -> (r: Result<(), PointCloudError>)
    ensures
        input_files == 0 ==> (r matches Err(PointCloudError::ConfigError(m)) && m@
            == "未找到任何输入点云文件"@),
        input_files > 0 ==> r is Ok,
{
    if input_files == 0 {
        Err(PointCloudError::ConfigError(chars_to_string(str_chars("未找到任何输入点云文件").as_slice())))
    } else {
        Ok(())
    }
}

/// The verdict of a dry run: missing inputs fail it, then having nothing to
/// process fails it.
pub fn dry_run_verdict(missing_inputs: usize, input_files: usize) -> (r: Result<(), PointCloudError>)
    ensures
        missing_inputs > 0 ==> (r matches Err(PointCloudError::ConfigError(m)) && m@ == "试运行发现 "@
            + decimal(missing_inputs as nat) + " 个缺失的输入项，请检查配置"@),
        missing_inputs == 0 && input_files == 0 ==> (r matches Err(PointCloudError::ConfigError(m))
            && m@ == "试运行发现没有可处理的输入文件"@),
        missing_inputs == 0 && input_files > 0 ==> r is Ok,
{
    if missing_inputs > 0 {
        let a = concat_chars(
            str_chars("试运行发现 ").as_slice(),
            decimal_chars(missing_inputs as u64).as_slice(),
        );
        let b = concat_chars(a.as_slice(), str_chars(" 个缺失的输入项，请检查配置").as_slice());
        Err(PointCloudError::ConfigError(chars_to_string(b.as_slice())))
    } else if input_files == 0 {
        Err(PointCloudError::ConfigError(chars_to_string(str_chars("试运行发现没有可处理的输入文件").as_slice())))
    } else {
        Ok(())
    }
}

} // verus!

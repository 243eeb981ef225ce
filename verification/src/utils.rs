use vstd::prelude::*;
use crate::error::PointCloudError;
use crate::io::{MeshFormat, PointCloudFormat};
use crate::paths::{extension, extension_bounds};
use crate::text::{chars_eq_str, chars_to_string, lower, str_chars, lower_str, sub_chars};

verus! {

/// Runs the step `f`, named `label`, and gives back what it returns.
pub fn time_it<F, R>(label: &str, f: F) -> (r: R)
    where
        F: FnOnce() -> R,
    requires
        f.requires(()),
    ensures
        f.ensures((), r),
{
    f()
}

/// The point cloud format named by a lower-case file extension.
pub open spec fn point_cloud_format_of(ext: Seq<char>) -> Option<PointCloudFormat> {
    if ext == "ply"@ {
        Some(PointCloudFormat::PLY)
    } else if ext == "pcd"@ {
        Some(PointCloudFormat::PCD)
    } else if ext == "las"@ || ext == "laz"@ {
        Some(PointCloudFormat::LAS)
    } else if ext == "xyz"@ || ext == "txt"@ {
        Some(PointCloudFormat::XYZ)
    } else {
        None
    }
}

/// The mesh format named by a lower-case file extension.
pub open spec fn mesh_format_of(ext: Seq<char>) -> Option<MeshFormat> {
    if ext == "ply"@ {
        Some(MeshFormat::PLY)
    } else if ext == "obj"@ {
        Some(MeshFormat::OBJ)
    } else if ext == "stl"@ {
        Some(MeshFormat::STL)
    } else {
        None
    }
}

/// The message of the error for a path without a usable extension.
pub open spec fn no_extension_message() -> Seq<char> {
    "无法识别文件扩展名"@
}

/// The point cloud format for an already lower-cased extension; any other
/// extension is unsupported.
pub fn point_cloud_format_from_extension(ext_lower: &str) -> (r: Result<
    PointCloudFormat,
    PointCloudError,
>)
    ensures
        match point_cloud_format_of(ext_lower@) {
            Some(f) => r == Ok::<PointCloudFormat, PointCloudError>(f),
            None => r matches Err(PointCloudError::UnsupportedFormat(m)) && m@ == ext_lower@,
        },
{
    let e = str_chars(ext_lower);
    let e = e.as_slice();
    if chars_eq_str(e, "ply") {
        Ok(PointCloudFormat::PLY)
    } else if chars_eq_str(e, "pcd") {
        Ok(PointCloudFormat::PCD)
    } else if chars_eq_str(e, "las") || chars_eq_str(e, "laz") {
        Ok(PointCloudFormat::LAS)
    } else if chars_eq_str(e, "xyz") || chars_eq_str(e, "txt") {
        Ok(PointCloudFormat::XYZ)
    } else {
        Err(PointCloudError::UnsupportedFormat(chars_to_string(e)))
    }
}

/// The mesh format for an already lower-cased extension; any other
/// extension is unsupported.
pub fn mesh_format_from_extension(ext_lower: &str) -> (r: Result<MeshFormat, PointCloudError>)
    ensures
        match mesh_format_of(ext_lower@) {
            Some(f) => r == Ok::<MeshFormat, PointCloudError>(f),
            None => r matches Err(PointCloudError::UnsupportedFormat(m)) && m@ == ext_lower@,
        },
{
    let e = str_chars(ext_lower);
    let e = e.as_slice();
    if chars_eq_str(e, "ply") {
        Ok(MeshFormat::PLY)
    } else if chars_eq_str(e, "obj") {
        Ok(MeshFormat::OBJ)
    } else if chars_eq_str(e, "stl") {
        Ok(MeshFormat::STL)
    } else {
        Err(PointCloudError::UnsupportedFormat(chars_to_string(e)))
    }
}

/// The extension of `path`, lower-cased, or the error for a path without one.
fn lowercase_extension(path: &str) -> (r: Result<String, PointCloudError>)
    ensures
        match extension(path@) {
            None => r matches Err(PointCloudError::ParseError(m)) && m@ == no_extension_message(),
            Some(e) => r matches Ok(s) && s@ == lower(e),
        },
{
    let p = str_chars(path);
    match extension_bounds(p.as_slice()) {
        None => Err(PointCloudError::ParseError(chars_to_string(str_chars("无法识别文件扩展名").as_slice()))),
        Some((a, b)) => {
            let e = chars_to_string(sub_chars(p.as_slice(), a, b).as_slice());
            Ok(lower_str(e.as_str()))
        },
    }
}

/// The point cloud format of a file, from its extension, case-insensitively.
pub fn detect_file_format(path: &str) -> (r: Result<PointCloudFormat, PointCloudError>)
    ensures
        match extension(path@) {
            None => r matches Err(PointCloudError::ParseError(m)) && m@ == no_extension_message(),
            Some(e) => match point_cloud_format_of(lower(e)) {
                Some(f) => r == Ok::<PointCloudFormat, PointCloudError>(f),
                None => r matches Err(PointCloudError::UnsupportedFormat(m)) && m@ == lower(e),
            },
        },
{
    match lowercase_extension(path) {
        Err(e) => Err(e),
        Ok(ext) => point_cloud_format_from_extension(ext.as_str()),
    }
}

/// The mesh format of a file, from its extension, case-insensitively.
pub fn detect_mesh_format(path: &str) -> (r: Result<MeshFormat, PointCloudError>)
    ensures
        match extension(path@) {
            None => r matches Err(PointCloudError::ParseError(m)) && m@ == no_extension_message(),
            Some(e) => match mesh_format_of(lower(e)) {
                Some(f) => r == Ok::<MeshFormat, PointCloudError>(f),
                None => r matches Err(PointCloudError::UnsupportedFormat(m)) && m@ == lower(e),
            },
        },
{
    match lowercase_extension(path) {
        Err(e) => Err(e),
        Ok(ext) => mesh_format_from_extension(ext.as_str()),
    }
}

} // verus!

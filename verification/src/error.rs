use vstd::prelude::*;

verus! {

/// The kind of an input failure met while decoding bytes.
#[derive(Debug, Clone, Copy, PartialEq, Eq)]
pub enum IoErrorKind {
    /// The input ended before a complete value could be read.
    UnexpectedEof,
    /// A text line was not valid UTF-8.
    InvalidData,
}

/// Errors of the point cloud library.
#[derive(Debug, Clone, PartialEq, Eq)]
pub enum PointCloudError {
    IoError(IoErrorKind),
    ParseError(String),
    UnsupportedFormat(String),
    EmptyPointCloud,
    NormalsNotComputed,
    RegistrationFailed(String),
    ReconstructionFailed(String),
    ConfigError(String),
    YamlError(String),
    JsonError(String),
    InvalidParameter(String),
    AlgorithmError(String),
}

} // verus!

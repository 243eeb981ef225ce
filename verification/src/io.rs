use vstd::prelude::*;

verus! {

/// The point cloud file formats the library reads.
#[derive(Debug, Clone, Copy, PartialEq, Eq)]
pub enum PointCloudFormat {
    PLY,
    PCD,
    LAS,
    XYZ,
}

/// The mesh file formats the library reads and writes.
#[derive(Debug, Clone, Copy, PartialEq, Eq)]
pub enum MeshFormat {
    PLY,
    OBJ,
    STL,
}

} // verus!

verus! {

/// Reads point clouds; files estimated to hold more points than the
/// threshold are read by streaming.
pub struct PointCloudReader {
    pub large_file_threshold: usize,
}

impl PointCloudReader {
    /// A reader with the default threshold of five million points.
    pub fn new() -> (r: Self)
        ensures
            r.large_file_threshold == 5_000_000,
    {
        PointCloudReader { large_file_threshold: 5_000_000 }
    }
}

} // verus!

verus! {

/// Writes meshes to PLY, OBJ or STL files.
pub struct MeshWriter;

impl MeshWriter {
    /// A mesh writer.
    pub fn new() -> (w: Self) {
        MeshWriter
    }
}

/// Reads meshes from PLY, OBJ or STL files.
pub struct MeshReader;

impl MeshReader {
    /// A mesh reader.
    pub fn new() -> (r: Self) {
        MeshReader
    }
}

} // verus!

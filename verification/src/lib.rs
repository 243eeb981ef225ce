pub mod types;
pub mod union_find;
pub mod text;
pub mod paths;
pub mod error;
pub mod io;
pub mod utils;
pub mod ply;
pub mod pcd;
pub mod bytes;
pub mod las;
pub mod pipeline;
pub mod reconstruction;
pub mod report;
pub mod config;
pub mod ply_mesh;
pub mod ply_write;
pub mod mesh_write;
pub mod obj;
pub mod stl;
pub mod convert;
pub mod ply_points;
pub mod pcd_points;

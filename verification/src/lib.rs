//! Spatial core of a voxel game: chunked cell storage with pluggable
//! 3D-to-flat layouts, the family of coordinate point types with their
//! bounds invariants, the six-sided direction algebra, and a shelf-based
//! sprite packer that composes non-overlapping atlases.

pub mod chunk;
pub mod config;
pub mod graphics;
pub mod kit;
pub mod point;
pub mod shape;
pub mod side;
pub mod sprite;

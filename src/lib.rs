//! A software rasterizer's verified core: 8-bit colors, the row-major 4x4
//! matrix layout, the index buffers of the procedural primitives, and a
//! fixed-point triangle scan converter with a top-left fill rule and a
//! depth buffer.
pub mod color;
pub mod mat4;
pub mod mesh;
pub mod raster;

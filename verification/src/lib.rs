//! Reading, meshing and packaging of city models as 3D Tiles content.

pub mod bytes;
pub mod copc_reader;
pub mod float_bits;
pub mod geoparquet_writer;
pub mod gltf_writer;
pub mod json;
pub mod las_source;
pub mod text;
pub mod tiling;
pub mod trees;

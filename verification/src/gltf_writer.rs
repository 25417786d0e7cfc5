//! Writing the meshes and splats of a tile as a glTF binary.

pub mod assembly;
pub mod attributes;
pub mod container;
pub mod document;
pub mod extents;
pub mod feature;
pub mod laws;
pub mod layout;
pub mod mesh;
pub mod reading;
pub mod sections;
pub mod surface;
pub mod tile;
pub mod writer;


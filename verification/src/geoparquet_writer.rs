//! City features as rows of a GeoParquet file.

pub mod attributes;
pub mod columns;
pub mod feature;
pub mod footprint;
pub mod roof;
pub mod rows;

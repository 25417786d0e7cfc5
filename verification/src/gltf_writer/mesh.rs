//! What a tile holds before it is written.

use crate::gltf_writer::attributes::AttributeSet;
use vstd::prelude::*;

verus! {

/// The version of 3D Tiles that a tile is written for.
#[derive(Clone, Copy, Debug, PartialEq, Eq, Structural)]
pub enum TilesVersion {
    V1_0,
    V1_1,
}

/// Three single precision numbers, by their bits.
#[derive(Clone, Copy, Debug, PartialEq, Eq, Structural)]
pub struct Vec3 {
    pub x: u32,
    pub y: u32,
    pub z: u32,
}

/// Four single precision numbers, by their bits.
#[derive(Clone, Copy, Debug, PartialEq, Eq, Structural)]
pub struct Vec4 {
    pub x: u32,
    pub y: u32,
    pub z: u32,
    pub w: u32,
}

/// A Gaussian splat as it is written, with its numbers in single precision.
#[derive(Clone, Copy, Debug, PartialEq, Eq, Structural)]
pub struct SplatVertex {
    /// The place, relative to the center of the root tile.
    pub position: Vec3,
    pub rgb: Vec3,
    pub rotation: Vec4,
    pub scale: Vec3,
    pub opacity: u32,
    /// The spherical harmonics coefficient of degree 0.
    pub sh0: Vec3,
}

/// The mesh of a tile and the table of its surfaces. Vertex `i` has position
/// `positions[i]`, normal `normals[i]`, color `colors[i]` and belongs to the
/// surface `batch_ids[i]`; three indices make a triangle.
pub struct MeshBuilder {
    pub positions: Vec<Vec3>,
    pub normals: Vec<Vec3>,
    pub colors: Vec<Vec4>,
    pub batch_ids: Vec<u32>,
    pub indices: Vec<u32>,
    /// How many surfaces have been given a row in the table.
    pub next_batch_index: u32,
    pub batch_id_to_cityobject_id: Vec<String>,
    pub batch_id_to_cityobject_type: Vec<String>,
    pub batch_id_to_surface_type: Vec<String>,
    /// Sets of attributes; the rows of the table refer to them.
    pub attribute_sets: Vec<AttributeSet>,
    pub batch_id_to_attributes: Vec<Option<usize>>,
    /// Areas in square meters.
    pub batch_id_to_area: Vec<u32>,
    /// Degrees from north, clockwise.
    pub batch_id_to_azimuth: Vec<u32>,
    /// Degrees above the horizon.
    pub batch_id_to_elevation: Vec<u32>,
    pub metallic_factor: u32,
    pub roughness_factor: u32,
}

impl MeshBuilder {
    /// Whether the rows of the table refer to attribute sets that exist.
    pub open spec fn wf(self) -> bool {
        crate::gltf_writer::attributes::rows_wf(
            self.attribute_sets@,
            self.batch_id_to_attributes@,
        )
    }

    /// The attributes of each row.
    pub open spec fn rows(self) -> Seq<Map<Seq<char>, crate::gltf_writer::attributes::Attr>> {
        crate::gltf_writer::attributes::row_maps(
            self.attribute_sets@,
            self.batch_id_to_attributes@,
        )
    }

    /// Whether there is any mesh.
    pub open spec fn has_mesh(self) -> bool {
        self.positions@.len() > 0
    }

    /// A tile without a mesh.
    pub fn new(metallic_factor: u32, roughness_factor: u32) -> (r: MeshBuilder)
        ensures
            r.wf(),
            r.positions@.len() == 0,
            r.normals@.len() == 0,
            r.colors@.len() == 0,
            r.batch_ids@.len() == 0,
            r.indices@.len() == 0,
            r.next_batch_index == 0,
            r.batch_id_to_cityobject_id@.len() == 0,
            r.batch_id_to_cityobject_type@.len() == 0,
            r.batch_id_to_surface_type@.len() == 0,
            r.attribute_sets@.len() == 0,
            r.batch_id_to_attributes@.len() == 0,
            r.batch_id_to_area@.len() == 0,
            r.batch_id_to_azimuth@.len() == 0,
            r.batch_id_to_elevation@.len() == 0,
            r.metallic_factor == metallic_factor,
            r.roughness_factor == roughness_factor,
    {
        MeshBuilder {
            positions: Vec::new(),
            normals: Vec::new(),
            colors: Vec::new(),
            batch_ids: Vec::new(),
            indices: Vec::new(),
            next_batch_index: 0,
            batch_id_to_cityobject_id: Vec::new(),
            batch_id_to_cityobject_type: Vec::new(),
            batch_id_to_surface_type: Vec::new(),
            attribute_sets: Vec::new(),
            batch_id_to_attributes: Vec::new(),
            batch_id_to_area: Vec::new(),
            batch_id_to_azimuth: Vec::new(),
            batch_id_to_elevation: Vec::new(),
            metallic_factor,
            roughness_factor,
        }
    }
}

} // verus!

//! Writing a tile.

use crate::bytes::push_all;
use crate::gltf_writer::container::{pack_glb, wrap_b3dm};
use crate::gltf_writer::document::build_document;
use crate::gltf_writer::mesh::{MeshBuilder, SplatVertex, TilesVersion};
use crate::gltf_writer::sections::write_tile;
use crate::json::{read_root, set_factors, write_root};
use vstd::prelude::*;

verus! {

/// What stops a tile from being written.
#[derive(Clone, Copy, Debug, PartialEq, Eq, Structural)]
pub enum GlbError {
    /// More surfaces than 16-bit numbers can tell apart.
    TooManyFeatures(u32),
    /// The texts of a table take up more bytes than 32-bit offsets can reach.
    TextsTooLarge,
    /// The document cannot be written.
    Document,
}

/// The most surfaces that a tile can have.
pub const MAX_FEATURES: u32 = 65535;

/// The document of a tile, before the factors of its material are set.
pub open spec fn tile_document(
    m: MeshBuilder,
    version: TilesVersion,
    splats: Seq<SplatVertex>,
) -> crate::json::Json {
    let laid = crate::gltf_writer::sections::tile_laid(m, version, splats);
    crate::gltf_writer::document::document(
        m,
        version,
        splats,
        laid.views,
        laid.bytes.len() as int,
    )
}

/// What the glTF root of a tile holds, if the document is that of a root: the
/// mesh has the tile's material, whose factors are set as they are.
pub open spec fn tile_root(
    m: MeshBuilder,
    version: TilesVersion,
    splats: Seq<SplatVertex>,
) -> Option<crate::json::Json> {
    match crate::json::root_read(tile_document(m, version, splats)) {
        Some(doc) => if m.has_mesh() {
            Some(crate::json::with_factors(doc, m.metallic_factor, m.roughness_factor))
        } else {
            Some(doc)
        },
        None => None,
    }
}

/// The text of the document of a tile, if it can be written.
pub open spec fn tile_text(
    m: MeshBuilder,
    version: TilesVersion,
    splats: Seq<SplatVertex>,
) -> Option<Seq<char>> {
    match tile_root(m, version, splats) {
        Some(doc) => crate::json::root_text(doc),
        None => None,
    }
}

/// The file of a document with the given text and a buffer. In version 1.0 a
/// mesh is wrapped in B3DM.
pub open spec fn file_of(m: MeshBuilder, version: TilesVersion, text: Seq<char>, bin: Seq<u8>) -> Seq<
    u8,
> {
    let glb = crate::gltf_writer::container::glb_of(vstd::utf8::encode_utf8(text), bin);
    if m.has_mesh() && version == TilesVersion::V1_0 {
        crate::gltf_writer::container::b3dm_of(
            crate::json::json_text(
                crate::gltf_writer::container::feature_table(
                    m.batch_id_to_cityobject_id@.len() as int,
                ),
            ),
            crate::json::json_text(
                crate::gltf_writer::container::batch_table(
                    crate::json::texts_of(m.batch_id_to_cityobject_id@),
                    crate::json::texts_of(m.batch_id_to_cityobject_type@),
                    crate::json::texts_of(m.batch_id_to_surface_type@),
                ),
            ),
            glb,
        )
    } else {
        glb
    }
}

/// What comes of writing a tile: its file, or what stops it. A tile without
/// mesh and splats has an empty file.
pub open spec fn tile_outcome(
    m: MeshBuilder,
    version: TilesVersion,
    splats: Seq<SplatVertex>,
) -> Result<Seq<u8>, GlbError> {
    if !m.has_mesh() && splats.len() == 0 {
        Ok(Seq::empty())
    } else if m.has_mesh() && m.next_batch_index > MAX_FEATURES {
        Err(GlbError::TooManyFeatures(m.next_batch_index))
    } else if m.has_mesh() && version == TilesVersion::V1_1
        && !crate::gltf_writer::sections::metadata_fits(m) {
        Err(GlbError::TextsTooLarge)
    } else {
        match tile_text(m, version, splats) {
            Some(text) => Ok(
                file_of(
                    m,
                    version,
                    text,
                    crate::gltf_writer::sections::tile_laid(m, version, splats).bytes,
                ),
            ),
            None => Err(GlbError::Document),
        }
    }
}

/// Packs the document and the buffer of a tile as a file.
pub fn pack_tile(m: &MeshBuilder, version: TilesVersion, text: &str, bin: Vec<u8>) -> (r: Vec<u8>)
    ensures
        r@ == file_of(*m, version, text@, bin@),
{
    let mut json: Vec<u8> = Vec::new();
    push_all(&mut json, text.as_bytes());
    assert(json@ =~= vstd::utf8::encode_utf8(text@));
    let glb = pack_glb(json, bin);
    if m.positions.len() > 0 && version == TilesVersion::V1_0 {
        wrap_b3dm(
            glb.as_slice(),
            m.batch_id_to_cityobject_id.as_slice(),
            m.batch_id_to_cityobject_type.as_slice(),
            m.batch_id_to_surface_type.as_slice(),
        )
    } else {
        glb
    }
}

impl MeshBuilder {
    /// The file of the tile. A tile without mesh and splats has an empty file.
    pub fn write_glb(&self, version: TilesVersion, splats: &[SplatVertex]) -> (r: Result<
        Vec<u8>,
        GlbError,
    >)
        requires
            self.wf(),
        ensures
            match r {
                Ok(file) => tile_outcome(*self, version, splats@) == Ok::<Seq<u8>, GlbError>(file@),
                Err(e) => tile_outcome(*self, version, splats@) == Err::<Seq<u8>, GlbError>(e),
            },
    {
        let has_mesh = self.positions.len() > 0;
        if !has_mesh && splats.len() == 0 {
            let none: Vec<u8> = Vec::new();
            assert(none@ =~= Seq::<u8>::empty());
            return Ok(none);
        }
        if has_mesh && self.next_batch_index > MAX_FEATURES {
            return Err(GlbError::TooManyFeatures(self.next_batch_index));
        }
        let (buffer, columns) = match write_tile(self, version, splats) {
            Some(done) => done,
            None => {
                return Err(GlbError::TextsTooLarge);
            },
        };
        proof {
            crate::gltf_writer::document::law_view_numbers(*self, version, splats@);
            crate::gltf_writer::document::lemma_columns_views_grow(
                crate::gltf_writer::sections::attribute_columns(*self),
                0,
            );
        }
        let document = build_document(
            self,
            version,
            splats,
            buffer.views.as_slice(),
            buffer.bytes.len(),
            columns.as_slice(),
        );
        let mut root = match read_root(document) {
            Some(root) => root,
            None => {
                return Err(GlbError::Document);
            },
        };
        if has_mesh {
            proof {
                crate::gltf_writer::document::lemma_document_materials(
                    *self,
                    version,
                    splats@,
                    buffer.views@,
                    buffer.bytes@.len() as int,
                );
            }
            set_factors(&mut root, self.metallic_factor, self.roughness_factor);
        }
        match write_root(&root) {
            Some(text) => Ok(pack_tile(self, version, text.as_str(), buffer.bytes)),
            None => Err(GlbError::Document),
        }
    }
}

// ------------------------------------------------------------------- laws

/// Whether two tiles hold the same: mesh, table, attributes and factors.
pub open spec fn same_contents(a: MeshBuilder, b: MeshBuilder) -> bool {
    &&& a.model() == b.model()
    &&& crate::gltf_writer::laws::same_sets(a.attribute_sets@, b.attribute_sets@)
    &&& a.metallic_factor == b.metallic_factor
    &&& a.roughness_factor == b.roughness_factor
}

proof fn lemma_same_rows(a: MeshBuilder, b: MeshBuilder)
    requires
        a.wf(),
        same_contents(a, b),
    ensures
        a.rows() == b.rows(),
{
    let rows = a.model().attributes;
    assert(rows == b.model().attributes);
    assert forall|i: int| 0 <= i < rows.len() implies #[trigger] a.rows()[i] == b.rows()[i] by {
        match a.batch_id_to_attributes@[i] {
            Some(k) => {
                assert(a.attribute_sets@[k as int]@ == b.attribute_sets@[k as int]@);
            },
            None => {},
        }
    }
    assert(a.rows() =~= b.rows());
}

proof fn lemma_same_layout(
    a: MeshBuilder,
    b: MeshBuilder,
    version: TilesVersion,
    splats: Seq<SplatVertex>,
)
    requires
        a.wf(),
        same_contents(a, b),
    ensures
        crate::gltf_writer::sections::metadata_fits(a)
            == crate::gltf_writer::sections::metadata_fits(b),
        crate::gltf_writer::sections::tile_laid(a, version, splats)
            == crate::gltf_writer::sections::tile_laid(b, version, splats),
{
    lemma_same_rows(a, b);
    let x = a.model();
    let y = b.model();
    assert(x.positions == y.positions && x.normals == y.normals && x.colors == y.colors);
    assert(x.batch_ids == y.batch_ids && x.indices == y.indices);
    assert(x.ids == y.ids && x.types == y.types && x.surface_types == y.surface_types);
    assert(x.areas == y.areas && x.azimuths == y.azimuths && x.elevations == y.elevations);
    assert(crate::gltf_writer::sections::mesh_pieces(a)
        == crate::gltf_writer::sections::mesh_pieces(b));
    assert(crate::gltf_writer::sections::measure_pieces(a)
        == crate::gltf_writer::sections::measure_pieces(b));
    assert(crate::gltf_writer::sections::metadata_pieces(a)
        == crate::gltf_writer::sections::metadata_pieces(b));
}

proof fn lemma_same_document(
    a: MeshBuilder,
    b: MeshBuilder,
    version: TilesVersion,
    splats: Seq<SplatVertex>,
)
    requires
        a.wf(),
        same_contents(a, b),
    ensures
        tile_document(a, version, splats) == tile_document(b, version, splats),
{
    lemma_same_rows(a, b);
    lemma_same_layout(a, b, version, splats);
    let x = a.model();
    let y = b.model();
    let views = crate::gltf_writer::sections::tile_laid(a, version, splats).views;
    assert(x.positions == y.positions && x.normals == y.normals && x.colors == y.colors);
    assert(x.batch_ids == y.batch_ids && x.indices == y.indices && x.row_count == y.row_count);
    assert(x.ids.len() == y.ids.len());
    assert(crate::gltf_writer::document::accessors(a, splats, views.len() as int)
        == crate::gltf_writer::document::accessors(b, splats, views.len() as int));
    assert(crate::gltf_writer::document::mesh_primitive(a, version)
        == crate::gltf_writer::document::mesh_primitive(b, version));
    assert(crate::gltf_writer::document::primitives(a, version, splats)
        == crate::gltf_writer::document::primitives(b, version, splats));
    assert(crate::gltf_writer::document::materials(a, splats)
        == crate::gltf_writer::document::materials(b, splats));
    assert(crate::gltf_writer::document::extensions_used(a, version, splats)
        == crate::gltf_writer::document::extensions_used(b, version, splats));
}

/// Tiles that hold the same are written as the same file, or stopped by the
/// same error.
pub proof fn law_same_contents_make_the_same_file(
    a: MeshBuilder,
    b: MeshBuilder,
    version: TilesVersion,
    splats: Seq<SplatVertex>,
)
    requires
        a.wf(),
        same_contents(a, b),
    ensures
        tile_outcome(a, version, splats) == tile_outcome(b, version, splats),
{
    lemma_same_layout(a, b, version, splats);
    lemma_same_document(a, b, version, splats);
    let x = a.model();
    let y = b.model();
    assert(x.positions == y.positions && x.row_count == y.row_count);
    assert(x.ids == y.ids && x.types == y.types && x.surface_types == y.surface_types);
    assert(x.ids.len() == a.batch_id_to_cityobject_id@.len());
    assert(y.ids.len() == b.batch_id_to_cityobject_id@.len());
}

} // verus!

//! What a reader finds in the file of a tile: following the document from the
//! mesh to the buffer leads to the numbers of the mesh.

use crate::gltf_writer::attributes::AttrType;
use crate::gltf_writer::layout::BufferView;
use crate::gltf_writer::mesh::{MeshBuilder, SplatVertex, TilesVersion, Vec3};
use crate::json::Json;
use vstd::prelude::*;

verus! {

/// An item of an array; null where there is none.
pub open spec fn item_of(doc: Json, i: int) -> Json {
    match doc {
        Json::Arr(items) => if 0 <= i < items.len() {
            items[i]
        } else {
            Json::Null
        },
        _ => Json::Null,
    }
}

/// The whole number that a value is; -1 where it is none.
pub open spec fn number_of(doc: Json) -> int {
    match doc {
        Json::Int(n) => n,
        _ => -1,
    }
}

/// A primitive of the only mesh.
pub open spec fn primitive_of(doc: Json, p: int) -> Json {
    item_of(
        crate::json::field_of(
            item_of(crate::json::field_of(doc, "meshes"@), 0),
            "primitives"@,
        ),
        p,
    )
}

/// The number of the accessor to an attribute of a primitive.
pub open spec fn attribute_of(doc: Json, p: int, name: Seq<char>) -> int {
    number_of(
        crate::json::field_of(crate::json::field_of(primitive_of(doc, p), "attributes"@), name),
    )
}

/// An accessor.
pub open spec fn accessor_of(doc: Json, a: int) -> Json {
    item_of(crate::json::field_of(doc, "accessors"@), a)
}

/// Where a view begins in the buffer.
pub open spec fn view_start(doc: Json, v: int) -> int {
    number_of(
        crate::json::field_of(
            item_of(crate::json::field_of(doc, "bufferViews"@), v),
            "byteOffset"@,
        ),
    )
}

/// Where the data of an accessor begins in the buffer.
pub open spec fn data_start(doc: Json, a: int) -> int {
    view_start(doc, number_of(crate::json::field_of(accessor_of(doc, a), "bufferView"@)))
        + number_of(crate::json::field_of(accessor_of(doc, a), "byteOffset"@))
}

/// Whether an accessor tells of so many elements of a shape.
pub open spec fn tells_of(doc: Json, a: int, count: int, component: int, shape: Seq<char>) -> bool {
    let accessor = accessor_of(doc, a);
    &&& crate::json::field_of(accessor, "count"@) == Json::Int(count)
    &&& crate::json::field_of(accessor, "componentType"@) == Json::Int(component)
    &&& crate::json::field_of(accessor, "type"@) == Json::Str(shape)
}

proof fn lemma_document_keys()
    ensures
        "asset"@ != "accessors"@,
        "asset"@ != "buffers"@,
        "asset"@ != "bufferViews"@,
        "asset"@ != "materials"@,
        "asset"@ != "meshes"@,
        "asset"@ != "nodes"@,
        "asset"@ != "scenes"@,
        "asset"@ != "scene"@,
        "asset"@ != "extensionsUsed"@,
        "asset"@ != "extensions"@,
        "accessors"@ != "buffers"@,
        "accessors"@ != "bufferViews"@,
        "accessors"@ != "materials"@,
        "accessors"@ != "meshes"@,
        "accessors"@ != "nodes"@,
        "accessors"@ != "scenes"@,
        "accessors"@ != "scene"@,
        "accessors"@ != "extensionsUsed"@,
        "accessors"@ != "extensions"@,
        "buffers"@ != "bufferViews"@,
        "buffers"@ != "materials"@,
        "buffers"@ != "meshes"@,
        "buffers"@ != "nodes"@,
        "buffers"@ != "scenes"@,
        "buffers"@ != "scene"@,
        "buffers"@ != "extensionsUsed"@,
        "buffers"@ != "extensions"@,
        "bufferViews"@ != "materials"@,
        "bufferViews"@ != "meshes"@,
        "bufferViews"@ != "nodes"@,
        "bufferViews"@ != "scenes"@,
        "bufferViews"@ != "scene"@,
        "bufferViews"@ != "extensionsUsed"@,
        "bufferViews"@ != "extensions"@,
        "materials"@ != "meshes"@,
        "materials"@ != "nodes"@,
        "materials"@ != "scenes"@,
        "materials"@ != "scene"@,
        "materials"@ != "extensionsUsed"@,
        "materials"@ != "extensions"@,
        "meshes"@ != "nodes"@,
        "meshes"@ != "scenes"@,
        "meshes"@ != "scene"@,
        "meshes"@ != "extensionsUsed"@,
        "meshes"@ != "extensions"@,
        "nodes"@ != "scenes"@,
        "nodes"@ != "scene"@,
        "nodes"@ != "extensionsUsed"@,
        "nodes"@ != "extensions"@,
        "scenes"@ != "scene"@,
        "scenes"@ != "extensionsUsed"@,
        "scenes"@ != "extensions"@,
        "scene"@ != "extensionsUsed"@,
        "scene"@ != "extensions"@,
        "extensionsUsed"@ != "extensions"@,
{
    reveal_strlit("asset");
    reveal_strlit("accessors");
    reveal_strlit("buffers");
    reveal_strlit("bufferViews");
    reveal_strlit("materials");
    reveal_strlit("meshes");
    reveal_strlit("nodes");
    reveal_strlit("scenes");
    reveal_strlit("scene");
    reveal_strlit("extensionsUsed");
    reveal_strlit("extensions");
    assert("asset"@.len() == 5);
    assert("accessors"@.len() == 9);
    assert("buffers"@.len() == 7);
    assert("bufferViews"@.len() == 11);
    assert("materials"@.len() == 9);
    assert("meshes"@.len() == 6);
    assert("nodes"@.len() == 5);
    assert("scenes"@.len() == 6);
    assert("scene"@.len() == 5);
    assert("extensionsUsed"@.len() == 14);
    assert("extensions"@.len() == 10);
    assert("accessors"@[0] == 'a');
    assert("asset"@[0] == 'a');
    assert("materials"@[0] == 'm');
    assert("meshes"@[0] == 'm');
    assert("nodes"@[0] == 'n');
    assert("scene"@[0] == 's');
    assert("scenes"@[0] == 's');
}

proof fn lemma_accessor_keys()
    ensures
        "bufferView"@ != "byteOffset"@,
        "bufferView"@ != "count"@,
        "bufferView"@ != "componentType"@,
        "bufferView"@ != "type"@,
        "bufferView"@ != "min"@,
        "bufferView"@ != "max"@,
        "byteOffset"@ != "count"@,
        "byteOffset"@ != "componentType"@,
        "byteOffset"@ != "type"@,
        "byteOffset"@ != "min"@,
        "byteOffset"@ != "max"@,
        "count"@ != "componentType"@,
        "count"@ != "type"@,
        "count"@ != "min"@,
        "count"@ != "max"@,
        "componentType"@ != "type"@,
        "componentType"@ != "min"@,
        "componentType"@ != "max"@,
        "type"@ != "min"@,
        "type"@ != "max"@,
        "min"@ != "max"@,
{
    reveal_strlit("bufferView");
    reveal_strlit("byteOffset");
    reveal_strlit("count");
    reveal_strlit("componentType");
    reveal_strlit("type");
    reveal_strlit("min");
    reveal_strlit("max");
    assert("bufferView"@.len() == 10);
    assert("byteOffset"@.len() == 10);
    assert("count"@.len() == 5);
    assert("componentType"@.len() == 13);
    assert("type"@.len() == 4);
    assert("min"@.len() == 3);
    assert("max"@.len() == 3);
    assert("bufferView"@[1] == 'u');
    assert("byteOffset"@[1] == 'y');
    assert("max"@[1] == 'a');
    assert("min"@[1] == 'i');
}

proof fn lemma_view_keys()
    ensures
        "buffer"@ != "byteLength"@,
        "buffer"@ != "byteOffset"@,
        "buffer"@ != "target"@,
        "buffer"@ != "byteStride"@,
        "byteLength"@ != "byteOffset"@,
        "byteLength"@ != "target"@,
        "byteLength"@ != "byteStride"@,
        "byteOffset"@ != "target"@,
        "byteOffset"@ != "byteStride"@,
        "target"@ != "byteStride"@,
{
    reveal_strlit("buffer");
    reveal_strlit("byteLength");
    reveal_strlit("byteOffset");
    reveal_strlit("target");
    reveal_strlit("byteStride");
    assert("buffer"@.len() == 6);
    assert("byteLength"@.len() == 10);
    assert("byteOffset"@.len() == 10);
    assert("target"@.len() == 6);
    assert("byteStride"@.len() == 10);
    assert("buffer"@[0] == 'b');
    assert("byteLength"@[4] == 'L');
    assert("byteOffset"@[4] == 'O');
    assert("byteStride"@[4] == 'S');
    assert("target"@[0] == 't');
}

proof fn lemma_primitive_keys()
    ensures
        "attributes"@ != "indices"@,
        "attributes"@ != "material"@,
        "attributes"@ != "mode"@,
        "attributes"@ != "extensions"@,
        "indices"@ != "material"@,
        "indices"@ != "mode"@,
        "indices"@ != "extensions"@,
        "material"@ != "mode"@,
        "material"@ != "extensions"@,
        "mode"@ != "extensions"@,
        "POSITION"@ != "NORMAL"@,
        "POSITION"@ != "COLOR_0"@,
        "POSITION"@ != "_FEATURE_ID_0"@,
        "NORMAL"@ != "COLOR_0"@,
        "NORMAL"@ != "_FEATURE_ID_0"@,
        "COLOR_0"@ != "_FEATURE_ID_0"@,
        "POSITION"@ != "_BATCHID"@,
        "NORMAL"@ != "_BATCHID"@,
        "COLOR_0"@ != "_BATCHID"@,
        "ROTATION"@ != "SCALE"@,
        "ROTATION"@ != "OPACITY"@,
        "ROTATION"@ != "SH_DEGREE_0_COEF_0"@,
        "SCALE"@ != "OPACITY"@,
        "SCALE"@ != "SH_DEGREE_0_COEF_0"@,
        "OPACITY"@ != "SH_DEGREE_0_COEF_0"@,
        "kernel"@ != "colorSpace"@,
        "kernel"@ != "attributes"@,
        "colorSpace"@ != "attributes"@,
{
    reveal_strlit("attributes");
    reveal_strlit("indices");
    reveal_strlit("material");
    reveal_strlit("mode");
    reveal_strlit("extensions");
    reveal_strlit("POSITION");
    reveal_strlit("NORMAL");
    reveal_strlit("COLOR_0");
    reveal_strlit("_FEATURE_ID_0");
    reveal_strlit("_BATCHID");
    reveal_strlit("ROTATION");
    reveal_strlit("SCALE");
    reveal_strlit("OPACITY");
    reveal_strlit("SH_DEGREE_0_COEF_0");
    reveal_strlit("kernel");
    reveal_strlit("colorSpace");
    assert("attributes"@.len() == 10);
    assert("indices"@.len() == 7);
    assert("material"@.len() == 8);
    assert("mode"@.len() == 4);
    assert("extensions"@.len() == 10);
    assert("POSITION"@.len() == 8);
    assert("NORMAL"@.len() == 6);
    assert("COLOR_0"@.len() == 7);
    assert("_FEATURE_ID_0"@.len() == 13);
    assert("_BATCHID"@.len() == 8);
    assert("ROTATION"@.len() == 8);
    assert("SCALE"@.len() == 5);
    assert("OPACITY"@.len() == 7);
    assert("SH_DEGREE_0_COEF_0"@.len() == 18);
    assert("kernel"@.len() == 6);
    assert("colorSpace"@.len() == 10);
    assert("POSITION"@[0] == 'P');
    assert("_BATCHID"@[0] == '_');
    assert("attributes"@[0] == 'a');
    assert("colorSpace"@[0] == 'c');
    assert("extensions"@[0] == 'e');
}

proof fn lemma_document_fields(
    m: MeshBuilder,
    version: TilesVersion,
    splats: Seq<SplatVertex>,
    views: Seq<BufferView>,
    size: int,
)
    ensures
        ({
            let doc = crate::gltf_writer::document::document(m, version, splats, views, size);
            &&& crate::json::field_of(doc, "accessors"@) == Json::Arr(
                crate::gltf_writer::document::accessors(m, splats, views.len() as int),
            )
            &&& crate::json::field_of(doc, "bufferViews"@)
                == crate::gltf_writer::document::views_json(views)
            &&& forall|p: int|
                0 <= p < crate::gltf_writer::document::primitives(m, version, splats).len()
                    ==> #[trigger] primitive_of(doc, p)
                    == crate::gltf_writer::document::primitives(m, version, splats)[p]
        }),
{
    lemma_document_keys();
}

proof fn lemma_accessor_fields(
    view: int,
    count: int,
    component: int,
    shape: Seq<char>,
    min: Json,
    max: Json,
)
    ensures
        ({
            let plain = Json::Obj(
                crate::gltf_writer::document::accessor_json(view, count, component, shape),
            );
            &&& crate::json::field_of(plain, "bufferView"@) == Json::Int(view)
            &&& crate::json::field_of(plain, "byteOffset"@) == Json::Int(0)
            &&& crate::json::field_of(plain, "count"@) == Json::Int(count)
            &&& crate::json::field_of(plain, "componentType"@) == Json::Int(component)
            &&& crate::json::field_of(plain, "type"@) == Json::Str(shape)
        }),
        ({
            let bounded = crate::gltf_writer::document::bounded_accessor_json(
                view,
                count,
                component,
                shape,
                min,
                max,
            );
            &&& crate::json::field_of(bounded, "bufferView"@) == Json::Int(view)
            &&& crate::json::field_of(bounded, "byteOffset"@) == Json::Int(0)
            &&& crate::json::field_of(bounded, "count"@) == Json::Int(count)
            &&& crate::json::field_of(bounded, "componentType"@) == Json::Int(component)
            &&& crate::json::field_of(bounded, "type"@) == Json::Str(shape)
            &&& crate::json::field_of(bounded, "min"@) == min
            &&& crate::json::field_of(bounded, "max"@) == max
        }),
{
    lemma_accessor_keys();
}

proof fn lemma_view_fields(view: BufferView)
    ensures
        crate::json::field_of(
            crate::gltf_writer::document::view_json(view),
            "byteOffset"@,
        ) == Json::Int(view.offset as int),
        crate::json::field_of(
            crate::gltf_writer::document::view_json(view),
            "byteLength"@,
        ) == Json::Int(view.length as int),
{
    lemma_view_keys();
}

/// Following an accessor of the mesh leads to its piece in the buffer.
proof fn lemma_mesh_accessor(m: MeshBuilder, version: TilesVersion, splats: Seq<SplatVertex>, k: int)
    requires
        m.has_mesh(),
        0 <= k < 5,
        crate::gltf_writer::sections::tile_laid(m, version, splats).bytes.len() <= usize::MAX,
    ensures
        ({
            let laid = crate::gltf_writer::sections::tile_laid(m, version, splats);
            let doc = crate::gltf_writer::writer::tile_document(m, version, splats);
            let piece = crate::gltf_writer::sections::mesh_pieces(m)[k].bytes;
            let start = data_start(doc, k);
            &&& accessor_of(doc, k) == crate::gltf_writer::document::mesh_accessors(m)[k]
            &&& 0 <= start
            &&& start + piece.len() <= laid.bytes.len()
            &&& laid.bytes.subrange(start, start + piece.len()) == piece
        }),
{
    let laid = crate::gltf_writer::sections::tile_laid(m, version, splats);
    let accessors = crate::gltf_writer::document::mesh_accessors(m);
    lemma_document_fields(m, version, splats, laid.views, laid.bytes.len() as int);
    crate::gltf_writer::document::law_fixed_views_hold_their_pieces(m, version, splats, k);
    lemma_view_fields(laid.views[k]);
    assert(crate::gltf_writer::document::fixed_pieces(m)[k]
        == crate::gltf_writer::sections::mesh_pieces(m)[k]);
    let all = crate::gltf_writer::document::accessors(m, splats, laid.views.len() as int);
    assert(all[k] == accessors[k]);
    lemma_accessor_keys();
    assert(crate::json::field_of(accessors[k], "bufferView"@) == Json::Int(k));
    assert(crate::json::field_of(accessors[k], "byteOffset"@) == Json::Int(0));
}

/// The attributes of the mesh are found through the accessors of these numbers.
proof fn lemma_mesh_attributes(m: MeshBuilder, version: TilesVersion, splats: Seq<SplatVertex>)
    requires
        m.has_mesh(),
    ensures
        ({
            let doc = crate::gltf_writer::writer::tile_document(m, version, splats);
            &&& attribute_of(doc, 0, "POSITION"@) == 0
            &&& attribute_of(doc, 0, "NORMAL"@) == 1
            &&& attribute_of(doc, 0, "COLOR_0"@) == 2
            &&& version == TilesVersion::V1_1 ==> attribute_of(doc, 0, "_FEATURE_ID_0"@) == 3
            &&& version == TilesVersion::V1_0 ==> attribute_of(doc, 0, "_BATCHID"@) == 3
            &&& crate::json::field_of(primitive_of(doc, 0), "indices"@) == Json::Int(4)
            &&& crate::json::field_of(primitive_of(doc, 0), "mode"@) == Json::Int(4)
        }),
{
    let laid = crate::gltf_writer::sections::tile_laid(m, version, splats);
    lemma_document_fields(m, version, splats, laid.views, laid.bytes.len() as int);
    lemma_primitive_keys();
    let all = crate::gltf_writer::document::primitives(m, version, splats);
    assert(all[0] == crate::gltf_writer::document::mesh_primitive(m, version));
}

/// Whether three numbers stand in the buffer, one after the other.
pub open spec fn spells_triple(s: Seq<u8>, at: int, v: Vec3) -> bool {
    &&& crate::bytes::spells_word(s, at, v.x as int)
    &&& crate::bytes::spells_word(s, at + 4, v.y as int)
    &&& crate::bytes::spells_word(s, at + 8, v.z as int)
}

/// The position and the normal of a vertex can be read from the file: following
/// the document from the mesh to the buffer leads to their three numbers, x, y
/// and z.
#[verifier::rlimit(80)]
pub proof fn law_positions_can_be_read(
    m: MeshBuilder,
    version: TilesVersion,
    splats: Seq<SplatVertex>,
    i: int,
)
    requires
        m.has_mesh(),
        crate::gltf_writer::sections::tile_laid(m, version, splats).bytes.len() <= usize::MAX,
    ensures
        ({
            let bytes = crate::gltf_writer::sections::tile_laid(m, version, splats).bytes;
            let doc = crate::gltf_writer::writer::tile_document(m, version, splats);
            let positions = attribute_of(doc, 0, "POSITION"@);
            let normals = attribute_of(doc, 0, "NORMAL"@);
            &&& tells_of(doc, positions, m.positions@.len() as int, 5126, "VEC3"@)
            &&& tells_of(doc, normals, m.normals@.len() as int, 5126, "VEC3"@)
            &&& 0 <= i < m.positions@.len() ==> spells_triple(
                bytes,
                data_start(doc, positions) + 12 * i,
                m.positions@[i],
            )
            &&& 0 <= i < m.normals@.len() ==> spells_triple(
                bytes,
                data_start(doc, normals) + 12 * i,
                m.normals@[i],
            )
        }),
{
    let bytes = crate::gltf_writer::sections::tile_laid(m, version, splats).bytes;
    let doc = crate::gltf_writer::writer::tile_document(m, version, splats);
    lemma_mesh_attributes(m, version, splats);
    lemma_mesh_accessor(m, version, splats, 0);
    lemma_mesh_accessor(m, version, splats, 1);
    lemma_accessor_keys();
    let start = data_start(doc, 0);
    let next = data_start(doc, 1);
    let p = crate::gltf_writer::sections::triples(m.positions@);
    let n = crate::gltf_writer::sections::triples(m.normals@);
    if 0 <= i < m.positions@.len() {
        let v = m.positions@[i];
        crate::gltf_writer::sections::law_triples_are_spelled(m.positions@, i);
        crate::gltf_writer::sections::lemma_spelled_within(bytes, p, start, 12 * i, v.x as int);
        crate::gltf_writer::sections::lemma_spelled_within(bytes, p, start, 12 * i + 4, v.y as int);
        crate::gltf_writer::sections::lemma_spelled_within(bytes, p, start, 12 * i + 8, v.z as int);
    }
    if 0 <= i < m.normals@.len() {
        let v = m.normals@[i];
        crate::gltf_writer::sections::law_triples_are_spelled(m.normals@, i);
        crate::gltf_writer::sections::lemma_spelled_within(bytes, n, next, 12 * i, v.x as int);
        crate::gltf_writer::sections::lemma_spelled_within(bytes, n, next, 12 * i + 4, v.y as int);
        crate::gltf_writer::sections::lemma_spelled_within(bytes, n, next, 12 * i + 8, v.z as int);
    }
}

/// The color of a vertex and the number of its surface can be read from the
/// file. The number is found under another name in either version.
pub proof fn law_colors_and_numbers_can_be_read(
    m: MeshBuilder,
    version: TilesVersion,
    splats: Seq<SplatVertex>,
    i: int,
)
    requires
        m.has_mesh(),
        crate::gltf_writer::sections::tile_laid(m, version, splats).bytes.len() <= usize::MAX,
    ensures
        ({
            let bytes = crate::gltf_writer::sections::tile_laid(m, version, splats).bytes;
            let doc = crate::gltf_writer::writer::tile_document(m, version, splats);
            let colors = attribute_of(doc, 0, "COLOR_0"@);
            let numbers = attribute_of(
                doc,
                0,
                if version == TilesVersion::V1_1 {
                    "_FEATURE_ID_0"@
                } else {
                    "_BATCHID"@
                },
            );
            let at = data_start(doc, colors) + 16 * i;
            &&& tells_of(doc, colors, m.colors@.len() as int, 5126, "VEC4"@)
            &&& tells_of(doc, numbers, m.batch_ids@.len() as int, 5123, "SCALAR"@)
            &&& 0 <= i < m.colors@.len() ==> {
                &&& crate::bytes::spells_word(bytes, at, m.colors@[i].x as int)
                &&& crate::bytes::spells_word(bytes, at + 4, m.colors@[i].y as int)
                &&& crate::bytes::spells_word(bytes, at + 8, m.colors@[i].z as int)
                &&& crate::bytes::spells_word(bytes, at + 12, m.colors@[i].w as int)
            }
            &&& 0 <= i < m.batch_ids@.len() ==> crate::bytes::spells_word(
                bytes,
                data_start(doc, numbers) + 4 * i,
                m.batch_ids@[i] as int % 0x1_0000,
            )
        }),
{
    let bytes = crate::gltf_writer::sections::tile_laid(m, version, splats).bytes;
    let doc = crate::gltf_writer::writer::tile_document(m, version, splats);
    lemma_mesh_attributes(m, version, splats);
    lemma_mesh_accessor(m, version, splats, 2);
    lemma_mesh_accessor(m, version, splats, 3);
    lemma_accessor_keys();
    let start = data_start(doc, 2);
    let next = data_start(doc, 3);
    let c = crate::gltf_writer::sections::quadruples(m.colors@);
    let n = crate::gltf_writer::sections::spaced_halves(m.batch_ids@);
    if 0 <= i < m.colors@.len() {
        let v = m.colors@[i];
        crate::gltf_writer::sections::law_quadruples_are_spelled(m.colors@, i);
        crate::gltf_writer::sections::lemma_spelled_within(bytes, c, start, 16 * i, v.x as int);
        crate::gltf_writer::sections::lemma_spelled_within(bytes, c, start, 16 * i + 4, v.y as int);
        crate::gltf_writer::sections::lemma_spelled_within(bytes, c, start, 16 * i + 8, v.z as int);
        crate::gltf_writer::sections::lemma_spelled_within(
            bytes,
            c,
            start,
            16 * i + 12,
            v.w as int,
        );
    }
    if 0 <= i < m.batch_ids@.len() {
        crate::gltf_writer::sections::law_halves_are_spelled(m.batch_ids@, i);
        crate::gltf_writer::sections::lemma_spelled_within(
            bytes,
            n,
            next,
            4 * i,
            m.batch_ids@[i] as int % 0x1_0000,
        );
    }
}

/// The corners of the triangles can be read from the file.
pub proof fn law_corners_can_be_read(
    m: MeshBuilder,
    version: TilesVersion,
    splats: Seq<SplatVertex>,
    i: int,
)
    requires
        m.has_mesh(),
        crate::gltf_writer::sections::tile_laid(m, version, splats).bytes.len() <= usize::MAX,
    ensures
        ({
            let bytes = crate::gltf_writer::sections::tile_laid(m, version, splats).bytes;
            let doc = crate::gltf_writer::writer::tile_document(m, version, splats);
            let corners = number_of(crate::json::field_of(primitive_of(doc, 0), "indices"@));
            &&& crate::json::field_of(primitive_of(doc, 0), "mode"@) == Json::Int(4)
            &&& tells_of(doc, corners, m.indices@.len() as int, 5125, "SCALAR"@)
            &&& 0 <= i < m.indices@.len() ==> crate::bytes::spells_word(
                bytes,
                data_start(doc, corners) + 4 * i,
                m.indices@[i] as int,
            )
        }),
{
    let bytes = crate::gltf_writer::sections::tile_laid(m, version, splats).bytes;
    let doc = crate::gltf_writer::writer::tile_document(m, version, splats);
    lemma_mesh_attributes(m, version, splats);
    lemma_mesh_accessor(m, version, splats, 4);
    lemma_accessor_keys();
    let start = data_start(doc, 4);
    let c = crate::gltf_writer::sections::words(m.indices@);
    if 0 <= i < m.indices@.len() {
        crate::gltf_writer::sections::law_words_are_spelled(m.indices@, i);
        crate::gltf_writer::sections::lemma_spelled_within(
            bytes,
            c,
            start,
            4 * i,
            m.indices@[i] as int,
        );
    }
}

/// Whether an accessor tells the reach of its elements.
pub open spec fn tells_reach(accessor: Json, low: Vec3, high: Vec3) -> bool {
    let min = crate::json::field_of(accessor, "min"@);
    let max = crate::json::field_of(accessor, "max"@);
    &&& item_of(min, 0) == crate::json::float_json(low.x)
    &&& item_of(min, 1) == crate::json::float_json(low.y)
    &&& item_of(min, 2) == crate::json::float_json(low.z)
    &&& item_of(max, 0) == crate::json::float_json(high.x)
    &&& item_of(max, 1) == crate::json::float_json(high.y)
    &&& item_of(max, 2) == crate::json::float_json(high.z)
}

/// Whether all points lie between two corners, along each axis by itself.
pub open spec fn lie_between(points: Seq<Vec3>, low: Vec3, high: Vec3) -> bool {
    forall|i: int|
        0 <= i < points.len() ==> {
            let p = #[trigger] points[i];
            &&& !crate::float_bits::f32_lt(p.x, low.x) && !crate::float_bits::f32_lt(high.x, p.x)
            &&& !crate::float_bits::f32_lt(p.y, low.y) && !crate::float_bits::f32_lt(high.y, p.y)
            &&& !crate::float_bits::f32_lt(p.z, low.z) && !crate::float_bits::f32_lt(high.z, p.z)
        }
}

/// Whether a number is the one of some points along one of the axes: 0 for x, 1
/// for y, 2 for z.
pub open spec fn occurs_along(points: Seq<Vec3>, axis: int, n: u32) -> bool {
    exists|i: int|
        0 <= i < points.len() && n == (if axis == 0 {
            (#[trigger] points[i]).x
        } else if axis == 1 {
            points[i].y
        } else {
            points[i].z
        })
}

proof fn lemma_occurs_along(points: Seq<Vec3>, axis: int, n: u32)
    requires
        crate::gltf_writer::extents::along(points, axis).contains(n),
    ensures
        occurs_along(points, axis, n),
{
    let s = crate::gltf_writer::extents::along(points, axis);
    let i = choose|i: int| 0 <= i < s.len() && s[i] == n;
    assert(points[i] == points[i]);
}

/// The document tells how far the mesh reaches: every position lies between the
/// two corners that the document gives, and each of their numbers is that of a
/// position, unless it is infinite.
pub proof fn law_reach_of_positions_is_told(
    m: MeshBuilder,
    version: TilesVersion,
    splats: Seq<SplatVertex>,
)
    requires
        m.has_mesh(),
        crate::gltf_writer::sections::tile_laid(m, version, splats).bytes.len() <= usize::MAX,
    ensures
        ({
            let doc = crate::gltf_writer::writer::tile_document(m, version, splats);
            let accessor = accessor_of(doc, attribute_of(doc, 0, "POSITION"@));
            let p = m.positions@;
            exists|low: Vec3, high: Vec3|
                {
                    &&& #[trigger] tells_reach(accessor, low, high)
                    &&& lie_between(p, low, high)
                    &&& occurs_along(p, 0, low.x) || low.x == 0x7f80_0000
                    &&& occurs_along(p, 1, low.y) || low.y == 0x7f80_0000
                    &&& occurs_along(p, 2, low.z) || low.z == 0x7f80_0000
                    &&& occurs_along(p, 0, high.x) || high.x == 0xff80_0000
                    &&& occurs_along(p, 1, high.y) || high.y == 0xff80_0000
                    &&& occurs_along(p, 2, high.z) || high.z == 0xff80_0000
                }
        }),
{
    let doc = crate::gltf_writer::writer::tile_document(m, version, splats);
    let p = m.positions@;
    lemma_mesh_attributes(m, version, splats);
    lemma_mesh_accessor(m, version, splats, 0);
    lemma_accessor_keys();
    let x = crate::gltf_writer::extents::along(p, 0);
    let y = crate::gltf_writer::extents::along(p, 1);
    let z = crate::gltf_writer::extents::along(p, 2);
    crate::gltf_writer::extents::law_extent_is_reached(x);
    crate::gltf_writer::extents::law_extent_is_reached(y);
    crate::gltf_writer::extents::law_extent_is_reached(z);
    let low = Vec3 {
        x: crate::gltf_writer::extents::lowest(x),
        y: crate::gltf_writer::extents::lowest(y),
        z: crate::gltf_writer::extents::lowest(z),
    };
    let high = Vec3 {
        x: crate::gltf_writer::extents::highest(x),
        y: crate::gltf_writer::extents::highest(y),
        z: crate::gltf_writer::extents::highest(z),
    };
    assert(lie_between(p, low, high)) by {
        assert forall|i: int| 0 <= i < p.len() implies {
            let q = #[trigger] p[i];
            &&& !crate::float_bits::f32_lt(q.x, low.x) && !crate::float_bits::f32_lt(high.x, q.x)
            &&& !crate::float_bits::f32_lt(q.y, low.y) && !crate::float_bits::f32_lt(high.y, q.y)
            &&& !crate::float_bits::f32_lt(q.z, low.z) && !crate::float_bits::f32_lt(high.z, q.z)
        } by {
            crate::gltf_writer::extents::law_axes_are_told_apart(p, i);
            assert(x[i] == p[i].x && y[i] == p[i].y && z[i] == p[i].z);
        }
    }
    if x.contains(low.x) {
        lemma_occurs_along(p, 0, low.x);
    }
    if y.contains(low.y) {
        lemma_occurs_along(p, 1, low.y);
    }
    if z.contains(low.z) {
        lemma_occurs_along(p, 2, low.z);
    }
    if x.contains(high.x) {
        lemma_occurs_along(p, 0, high.x);
    }
    if y.contains(high.y) {
        lemma_occurs_along(p, 1, high.y);
    }
    if z.contains(high.z) {
        lemma_occurs_along(p, 2, high.z);
    }
    assert(tells_reach(accessor_of(doc, 0), low, high));
}

/// The document tells the smallest and the largest surface number and the
/// largest corner, and that corners begin at zero.
pub proof fn law_reach_of_numbers_is_told(
    m: MeshBuilder,
    version: TilesVersion,
    splats: Seq<SplatVertex>,
)
    requires
        m.has_mesh(),
        crate::gltf_writer::sections::tile_laid(m, version, splats).bytes.len() <= usize::MAX,
    ensures
        ({
            let doc = crate::gltf_writer::writer::tile_document(m, version, splats);
            let numbers = accessor_of(
                doc,
                attribute_of(
                    doc,
                    0,
                    if version == TilesVersion::V1_1 {
                        "_FEATURE_ID_0"@
                    } else {
                        "_BATCHID"@
                    },
                ),
            );
            let corners = accessor_of(
                doc,
                number_of(crate::json::field_of(primitive_of(doc, 0), "indices"@)),
            );
            let low = number_of(item_of(crate::json::field_of(numbers, "min"@), 0));
            let high = number_of(item_of(crate::json::field_of(numbers, "max"@), 0));
            let last = number_of(item_of(crate::json::field_of(corners, "max"@), 0));
            &&& forall|i: int|
                0 <= i < m.batch_ids@.len() ==> low <= #[trigger] m.batch_ids@[i] <= high
            &&& m.batch_ids@.len() > 0 ==> m.batch_ids@.contains(low as u32)
                && m.batch_ids@.contains(high as u32)
            &&& forall|i: int| 0 <= i < m.indices@.len() ==> #[trigger] m.indices@[i] <= last
            &&& m.indices@.len() > 0 ==> m.indices@.contains(last as u32)
            &&& item_of(crate::json::field_of(corners, "min"@), 0) == Json::Int(0)
        }),
{
    lemma_mesh_attributes(m, version, splats);
    lemma_mesh_accessor(m, version, splats, 3);
    lemma_mesh_accessor(m, version, splats, 4);
    lemma_accessor_keys();
    crate::gltf_writer::extents::law_word_extent_is_reached(m.batch_ids@);
    crate::gltf_writer::extents::law_word_extent_is_reached(m.indices@);
}

// ------------------------------------------------------------------ splats

/// The number of the primitive of the splats: that of the mesh comes before.
pub open spec fn splat_place(m: MeshBuilder) -> int {
    if m.has_mesh() {
        1
    } else {
        0
    }
}

/// Following an accessor of the splats leads to its piece in the buffer.
proof fn lemma_splat_accessor(m: MeshBuilder, version: TilesVersion, splats: Seq<SplatVertex>, k: int)
    requires
        splats.len() > 0,
        0 <= k < 6,
        crate::gltf_writer::sections::tile_laid(m, version, splats).bytes.len() <= usize::MAX,
    ensures
        ({
            let laid = crate::gltf_writer::sections::tile_laid(m, version, splats);
            let doc = crate::gltf_writer::writer::tile_document(m, version, splats);
            let piece = crate::gltf_writer::sections::splat_pieces(splats)[k].bytes;
            let a = 5 * splat_place(m) + k;
            let start = data_start(doc, a);
            &&& accessor_of(doc, a) == crate::gltf_writer::document::splat_accessors(
                splats,
                laid.views.len() - 6,
            )[k]
            &&& 0 <= start
            &&& start + piece.len() <= laid.bytes.len()
            &&& laid.bytes.subrange(start, start + piece.len()) == piece
        }),
{
    let laid = crate::gltf_writer::sections::tile_laid(m, version, splats);
    let pieces = crate::gltf_writer::sections::tile_pieces(m, version, splats);
    let own = crate::gltf_writer::sections::splat_pieces(splats);
    let before = pieces.take(pieces.len() - 6);
    assert(pieces =~= before + own);
    let at = before.len() + k;
    assert(pieces.take(at) =~= before + own.take(k));
    assert(pieces[at] == own[k]);
    assert forall|i: int| 0 <= i < own.len() implies !((#[trigger] own[i]).purpose
        is Alignment) by {}
    assert forall|i: int| 0 <= i < own.take(k).len() implies !((#[trigger] own.take(
        k,
    )[i]).purpose is Alignment) by {
        assert(own.take(k)[i] == own[i]);
    }
    crate::gltf_writer::document::lemma_view_count_all(own);
    crate::gltf_writer::document::lemma_view_count_all(own.take(k));
    crate::gltf_writer::document::lemma_view_count_add(before, own);
    crate::gltf_writer::document::lemma_view_count_add(before, own.take(k));
    let none = crate::gltf_writer::layout::nothing_laid();
    crate::gltf_writer::layout::law_laying_keeps_what_was_there(none, pieces);
    crate::gltf_writer::layout::law_view_gives_back_its_piece(none, pieces, at);
    let number = laid.views.len() - 6 + k;
    lemma_document_fields(m, version, splats, laid.views, laid.bytes.len() as int);
    lemma_view_fields(laid.views[number]);
    let all = crate::gltf_writer::document::accessors(m, splats, laid.views.len() as int);
    let accessors = crate::gltf_writer::document::splat_accessors(splats, laid.views.len() - 6);
    assert(all[5 * splat_place(m) + k] == accessors[k]);
    lemma_accessor_keys();
    assert(crate::json::field_of(accessors[k], "bufferView"@) == Json::Int(number));
    assert(crate::json::field_of(accessors[k], "byteOffset"@) == Json::Int(0));
}

/// An attribute of the splats that only the extension for splats knows.
pub open spec fn splat_attribute_of(doc: Json, p: int, name: Seq<char>) -> int {
    number_of(
        crate::json::field_of(
            crate::json::field_of(
                crate::json::field_of(
                    crate::json::field_of(primitive_of(doc, p), "extensions"@),
                    "KHR_gaussian_splatting"@,
                ),
                "attributes"@,
            ),
            name,
        ),
    )
}

proof fn lemma_splat_attributes(m: MeshBuilder, version: TilesVersion, splats: Seq<SplatVertex>)
    requires
        splats.len() > 0,
    ensures
        ({
            let doc = crate::gltf_writer::writer::tile_document(m, version, splats);
            let p = splat_place(m);
            &&& attribute_of(doc, p, "POSITION"@) == 5 * p
            &&& attribute_of(doc, p, "COLOR_0"@) == 5 * p + 1
            &&& splat_attribute_of(doc, p, "ROTATION"@) == 5 * p + 2
            &&& splat_attribute_of(doc, p, "SCALE"@) == 5 * p + 3
            &&& splat_attribute_of(doc, p, "OPACITY"@) == 5 * p + 4
            &&& splat_attribute_of(doc, p, "SH_DEGREE_0_COEF_0"@) == 5 * p + 5
            &&& crate::json::field_of(primitive_of(doc, p), "mode"@) == Json::Int(0)
            &&& crate::json::field_of(primitive_of(doc, p), "material"@) == Json::Int(p)
        }),
{
    let laid = crate::gltf_writer::sections::tile_laid(m, version, splats);
    lemma_document_fields(m, version, splats, laid.views, laid.bytes.len() as int);
    lemma_primitive_keys();
    let all = crate::gltf_writer::document::primitives(m, version, splats);
    let p = splat_place(m);
    assert(all[p] == crate::gltf_writer::document::splat_primitive(5 * p, p));
}

/// Whether four numbers stand in the buffer, one after the other.
pub open spec fn spells_quadruple(s: Seq<u8>, at: int, x: u32, y: u32, z: u32, w: u32) -> bool {
    &&& crate::bytes::spells_word(s, at, x as int)
    &&& crate::bytes::spells_word(s, at + 4, y as int)
    &&& crate::bytes::spells_word(s, at + 8, z as int)
    &&& crate::bytes::spells_word(s, at + 12, w as int)
}

proof fn lemma_triple_within(bytes: Seq<u8>, list: Seq<Vec3>, start: int, i: int)
    requires
        0 <= i < list.len(),
        0 <= start,
        start + crate::gltf_writer::sections::triples(list).len() <= bytes.len(),
        bytes.subrange(start, start + crate::gltf_writer::sections::triples(list).len())
            == crate::gltf_writer::sections::triples(list),
    ensures
        spells_triple(bytes, start + 12 * i, list[i]),
{
    let part = crate::gltf_writer::sections::triples(list);
    let v = list[i];
    crate::gltf_writer::sections::law_triples_are_spelled(list, i);
    crate::gltf_writer::sections::lemma_spelled_within(bytes, part, start, 12 * i, v.x as int);
    crate::gltf_writer::sections::lemma_spelled_within(bytes, part, start, 12 * i + 4, v.y as int);
    crate::gltf_writer::sections::lemma_spelled_within(bytes, part, start, 12 * i + 8, v.z as int);
}

proof fn lemma_quadruple_within(
    bytes: Seq<u8>,
    list: Seq<crate::gltf_writer::mesh::Vec4>,
    start: int,
    i: int,
)
    requires
        0 <= i < list.len(),
        0 <= start,
        start + crate::gltf_writer::sections::quadruples(list).len() <= bytes.len(),
        bytes.subrange(start, start + crate::gltf_writer::sections::quadruples(list).len())
            == crate::gltf_writer::sections::quadruples(list),
    ensures
        spells_quadruple(
            bytes,
            start + 16 * i,
            list[i].x,
            list[i].y,
            list[i].z,
            list[i].w,
        ),
{
    let part = crate::gltf_writer::sections::quadruples(list);
    let v = list[i];
    crate::gltf_writer::sections::law_quadruples_are_spelled(list, i);
    crate::gltf_writer::sections::lemma_spelled_within(bytes, part, start, 16 * i, v.x as int);
    crate::gltf_writer::sections::lemma_spelled_within(bytes, part, start, 16 * i + 4, v.y as int);
    crate::gltf_writer::sections::lemma_spelled_within(bytes, part, start, 16 * i + 8, v.z as int);
    crate::gltf_writer::sections::lemma_spelled_within(bytes, part, start, 16 * i + 12, v.w as int);
}

/// A splat can be read from the file: following the document leads to its
/// place, its color, which is opaque, its rotation, its scale, its opacity and
/// its color coefficients.
pub proof fn law_splats_can_be_read(
    m: MeshBuilder,
    version: TilesVersion,
    splats: Seq<SplatVertex>,
    i: int,
)
    requires
        0 <= i < splats.len(),
        crate::gltf_writer::sections::tile_laid(m, version, splats).bytes.len() <= usize::MAX,
    ensures
        ({
            let bytes = crate::gltf_writer::sections::tile_laid(m, version, splats).bytes;
            let doc = crate::gltf_writer::writer::tile_document(m, version, splats);
            let p: int = if m.has_mesh() {
                1
            } else {
                0
            };
            let s = splats[i];
            &&& spells_triple(
                bytes,
                data_start(doc, attribute_of(doc, p, "POSITION"@)) + 12 * i,
                s.position,
            )
            &&& spells_quadruple(
                bytes,
                data_start(doc, attribute_of(doc, p, "COLOR_0"@)) + 16 * i,
                s.rgb.x,
                s.rgb.y,
                s.rgb.z,
                0x3f80_0000,
            )
            &&& spells_quadruple(
                bytes,
                data_start(doc, splat_attribute_of(doc, p, "ROTATION"@)) + 16 * i,
                s.rotation.x,
                s.rotation.y,
                s.rotation.z,
                s.rotation.w,
            )
            &&& spells_triple(
                bytes,
                data_start(doc, splat_attribute_of(doc, p, "SCALE"@)) + 12 * i,
                s.scale,
            )
            &&& crate::bytes::spells_word(
                bytes,
                data_start(doc, splat_attribute_of(doc, p, "OPACITY"@)) + 4 * i,
                s.opacity as int,
            )
            &&& spells_triple(
                bytes,
                data_start(doc, splat_attribute_of(doc, p, "SH_DEGREE_0_COEF_0"@)) + 12 * i,
                s.sh0,
            )
        }),
{
    let bytes = crate::gltf_writer::sections::tile_laid(m, version, splats).bytes;
    let doc = crate::gltf_writer::writer::tile_document(m, version, splats);
    let a = 5 * splat_place(m);
    lemma_splat_attributes(m, version, splats);
    lemma_splat_accessor(m, version, splats, 0);
    lemma_splat_accessor(m, version, splats, 1);
    lemma_splat_accessor(m, version, splats, 2);
    lemma_splat_accessor(m, version, splats, 3);
    lemma_splat_accessor(m, version, splats, 4);
    lemma_splat_accessor(m, version, splats, 5);
    let places = Seq::new(splats.len(), |k: int| splats[k].position);
    let colors = Seq::new(
        splats.len(),
        |k: int| crate::gltf_writer::sections::opaque_color(splats[k].rgb),
    );
    let turns = Seq::new(splats.len(), |k: int| splats[k].rotation);
    let scales = Seq::new(splats.len(), |k: int| splats[k].scale);
    let opacities = Seq::new(splats.len(), |k: int| splats[k].opacity);
    let coefficients = Seq::new(splats.len(), |k: int| splats[k].sh0);
    lemma_triple_within(bytes, places, data_start(doc, a), i);
    lemma_quadruple_within(bytes, colors, data_start(doc, a + 1), i);
    lemma_quadruple_within(bytes, turns, data_start(doc, a + 2), i);
    lemma_triple_within(bytes, scales, data_start(doc, a + 3), i);
    lemma_triple_within(bytes, coefficients, data_start(doc, a + 5), i);
    crate::gltf_writer::sections::law_words_are_spelled(opacities, i);
    crate::gltf_writer::sections::lemma_spelled_within(
        bytes,
        crate::gltf_writer::sections::words(opacities),
        data_start(doc, a + 4),
        4 * i,
        opacities[i] as int,
    );
}

/// The document tells what the accessors of the splats are: as many elements as
/// there are splats, each of its shape.
pub proof fn law_splat_accessors_are_told(
    m: MeshBuilder,
    version: TilesVersion,
    splats: Seq<SplatVertex>,
)
    requires
        splats.len() > 0,
        crate::gltf_writer::sections::tile_laid(m, version, splats).bytes.len() <= usize::MAX,
    ensures
        ({
            let doc = crate::gltf_writer::writer::tile_document(m, version, splats);
            let p: int = if m.has_mesh() {
                1
            } else {
                0
            };
            let n = splats.len() as int;
            &&& tells_of(doc, attribute_of(doc, p, "POSITION"@), n, 5126, "VEC3"@)
            &&& tells_of(doc, attribute_of(doc, p, "COLOR_0"@), n, 5126, "VEC4"@)
            &&& tells_of(doc, splat_attribute_of(doc, p, "ROTATION"@), n, 5126, "VEC4"@)
            &&& tells_of(doc, splat_attribute_of(doc, p, "SCALE"@), n, 5126, "VEC3"@)
            &&& tells_of(doc, splat_attribute_of(doc, p, "OPACITY"@), n, 5126, "SCALAR"@)
            &&& tells_of(doc, splat_attribute_of(doc, p, "SH_DEGREE_0_COEF_0"@), n, 5126, "VEC3"@)
            &&& crate::json::field_of(primitive_of(doc, p), "mode"@) == Json::Int(0)
        }),
{
    lemma_splat_attributes(m, version, splats);
    lemma_splat_accessor(m, version, splats, 0);
    lemma_splat_accessor(m, version, splats, 1);
    lemma_splat_accessor(m, version, splats, 2);
    lemma_splat_accessor(m, version, splats, 3);
    lemma_splat_accessor(m, version, splats, 4);
    lemma_splat_accessor(m, version, splats, 5);
    lemma_accessor_keys();
}

/// The document tells how far the splats reach, within the finite numbers: every
/// place lies between the two corners that the document gives, and each of their
/// numbers is that of a splat, unless it ends the finite numbers.
pub proof fn law_reach_of_splats_is_told(
    m: MeshBuilder,
    version: TilesVersion,
    splats: Seq<SplatVertex>,
)
    requires
        splats.len() > 0,
        crate::gltf_writer::sections::tile_laid(m, version, splats).bytes.len() <= usize::MAX,
    ensures
        ({
            let doc = crate::gltf_writer::writer::tile_document(m, version, splats);
            let accessor = accessor_of(doc, attribute_of(doc, splat_place(m), "POSITION"@));
            let p = Seq::new(splats.len(), |i: int| splats[i].position);
            exists|low: Vec3, high: Vec3|
                {
                    &&& #[trigger] tells_reach(accessor, low, high)
                    &&& lie_between(p, low, high)
                    &&& occurs_along(p, 0, low.x) || low.x == 0x7f7f_ffff
                    &&& occurs_along(p, 1, low.y) || low.y == 0x7f7f_ffff
                    &&& occurs_along(p, 2, low.z) || low.z == 0x7f7f_ffff
                    &&& occurs_along(p, 0, high.x) || high.x == 0xff7f_ffff
                    &&& occurs_along(p, 1, high.y) || high.y == 0xff7f_ffff
                    &&& occurs_along(p, 2, high.z) || high.z == 0xff7f_ffff
                }
        }),
{
    let doc = crate::gltf_writer::writer::tile_document(m, version, splats);
    let p = Seq::new(splats.len(), |i: int| splats[i].position);
    assert(p =~= crate::gltf_writer::document::splat_positions(splats));
    lemma_splat_attributes(m, version, splats);
    lemma_splat_accessor(m, version, splats, 0);
    lemma_accessor_keys();
    let x = crate::gltf_writer::extents::along(p, 0);
    let y = crate::gltf_writer::extents::along(p, 1);
    let z = crate::gltf_writer::extents::along(p, 2);
    crate::gltf_writer::extents::law_finite_extent_is_reached(x);
    crate::gltf_writer::extents::law_finite_extent_is_reached(y);
    crate::gltf_writer::extents::law_finite_extent_is_reached(z);
    let low = Vec3 {
        x: crate::gltf_writer::extents::lowest_finite(x),
        y: crate::gltf_writer::extents::lowest_finite(y),
        z: crate::gltf_writer::extents::lowest_finite(z),
    };
    let high = Vec3 {
        x: crate::gltf_writer::extents::highest_finite(x),
        y: crate::gltf_writer::extents::highest_finite(y),
        z: crate::gltf_writer::extents::highest_finite(z),
    };
    assert(lie_between(p, low, high)) by {
        assert forall|i: int| 0 <= i < p.len() implies {
            let q = #[trigger] p[i];
            &&& !crate::float_bits::f32_lt(q.x, low.x) && !crate::float_bits::f32_lt(high.x, q.x)
            &&& !crate::float_bits::f32_lt(q.y, low.y) && !crate::float_bits::f32_lt(high.y, q.y)
            &&& !crate::float_bits::f32_lt(q.z, low.z) && !crate::float_bits::f32_lt(high.z, q.z)
        } by {
            crate::gltf_writer::extents::law_axes_are_told_apart(p, i);
            assert(x[i] == p[i].x && y[i] == p[i].y && z[i] == p[i].z);
        }
    }
    if x.contains(low.x) {
        lemma_occurs_along(p, 0, low.x);
    }
    if y.contains(low.y) {
        lemma_occurs_along(p, 1, low.y);
    }
    if z.contains(low.z) {
        lemma_occurs_along(p, 2, low.z);
    }
    if x.contains(high.x) {
        lemma_occurs_along(p, 0, high.x);
    }
    if y.contains(high.y) {
        lemma_occurs_along(p, 1, high.y);
    }
    if z.contains(high.z) {
        lemma_occurs_along(p, 2, high.z);
    }
    assert(tells_reach(accessor_of(doc, 5 * splat_place(m)), low, high));
}

// ------------------------------------------------------------------- table

proof fn lemma_table_keys()
    ensures
        "schema"@ != "propertyTables"@,
        "class"@ != "count"@,
        "class"@ != "properties"@,
        "count"@ != "properties"@,
        "values"@ != "stringOffsets"@,
        "BuildingId"@ != "CityObjectType"@,
        "BuildingId"@ != "SurfaceType"@,
        "BuildingId"@ != "SurfaceArea"@,
        "BuildingId"@ != "SurfaceAzimuth"@,
        "BuildingId"@ != "SurfaceElevation"@,
        "CityObjectType"@ != "SurfaceType"@,
        "CityObjectType"@ != "SurfaceArea"@,
        "CityObjectType"@ != "SurfaceAzimuth"@,
        "CityObjectType"@ != "SurfaceElevation"@,
        "SurfaceType"@ != "SurfaceArea"@,
        "SurfaceType"@ != "SurfaceAzimuth"@,
        "SurfaceType"@ != "SurfaceElevation"@,
        "SurfaceArea"@ != "SurfaceAzimuth"@,
        "SurfaceArea"@ != "SurfaceElevation"@,
        "SurfaceAzimuth"@ != "SurfaceElevation"@,
        "attribute"@ != "featureCount"@,
        "attribute"@ != "nullFeatureId"@,
        "attribute"@ != "propertyTable"@,
        "featureCount"@ != "nullFeatureId"@,
        "featureCount"@ != "propertyTable"@,
        "nullFeatureId"@ != "propertyTable"@,
{
    reveal_strlit("schema");
    reveal_strlit("propertyTables");
    reveal_strlit("class");
    reveal_strlit("count");
    reveal_strlit("properties");
    reveal_strlit("values");
    reveal_strlit("stringOffsets");
    reveal_strlit("BuildingId");
    reveal_strlit("CityObjectType");
    reveal_strlit("SurfaceType");
    reveal_strlit("SurfaceArea");
    reveal_strlit("SurfaceAzimuth");
    reveal_strlit("SurfaceElevation");
    reveal_strlit("attribute");
    reveal_strlit("featureCount");
    reveal_strlit("nullFeatureId");
    reveal_strlit("propertyTable");
    assert("schema"@.len() == 6);
    assert("propertyTables"@.len() == 14);
    assert("class"@.len() == 5);
    assert("count"@.len() == 5);
    assert("properties"@.len() == 10);
    assert("values"@.len() == 6);
    assert("stringOffsets"@.len() == 13);
    assert("BuildingId"@.len() == 10);
    assert("CityObjectType"@.len() == 14);
    assert("SurfaceType"@.len() == 11);
    assert("SurfaceArea"@.len() == 11);
    assert("SurfaceAzimuth"@.len() == 14);
    assert("SurfaceElevation"@.len() == 16);
    assert("attribute"@.len() == 9);
    assert("featureCount"@.len() == 12);
    assert("nullFeatureId"@.len() == 13);
    assert("propertyTable"@.len() == 13);
    assert("CityObjectType"@[0] == 'C');
    assert("SurfaceArea"@[7] == 'A');
    assert("SurfaceAzimuth"@[0] == 'S');
    assert("SurfaceType"@[7] == 'T');
    assert("class"@[1] == 'l');
    assert("count"@[1] == 'o');
    assert("nullFeatureId"@[0] == 'n');
    assert("propertyTable"@[0] == 'p');
}

/// The table of surfaces.
pub open spec fn table_of(doc: Json) -> Json {
    item_of(
        crate::json::field_of(
            crate::json::field_of(
                crate::json::field_of(doc, "extensions"@),
                "EXT_structural_metadata"@,
            ),
            "propertyTables"@,
        ),
        0,
    )
}

/// Where the values of a property begin in the buffer.
pub open spec fn values_start(doc: Json, name: Seq<char>) -> int {
    view_start(
        doc,
        number_of(
            crate::json::field_of(
                crate::json::field_of(crate::json::field_of(table_of(doc), "properties"@), name),
                "values"@,
            ),
        ),
    )
}

/// Where the offsets of the texts of a property begin in the buffer.
pub open spec fn offsets_start(doc: Json, name: Seq<char>) -> int {
    view_start(
        doc,
        number_of(
            crate::json::field_of(
                crate::json::field_of(crate::json::field_of(table_of(doc), "properties"@), name),
                "stringOffsets"@,
            ),
        ),
    )
}

/// Whether no attribute column of a tile has a name.
pub open spec fn no_column_named(m: MeshBuilder, name: Seq<char>) -> bool {
    forall|k: int|
        0 <= k < crate::gltf_writer::sections::attribute_columns(m).len() ==> (
        #[trigger] crate::gltf_writer::sections::attribute_columns(m)[k]).0 != name
}

proof fn lemma_places_of_others(columns: Seq<(Seq<char>, AttrType)>, name: Seq<char>)
    requires
        forall|k: int| 0 <= k < columns.len() ==> (#[trigger] columns[k]).0 != name,
    ensures
        ({
            let all = crate::gltf_writer::document::places(columns);
            let first = crate::gltf_writer::document::places(Seq::empty());
            &&& all.contains_key(name) == first.contains_key(name)
            &&& first.contains_key(name) ==> all[name] == first[name]
        }),
    decreases columns.len(),
{
    if columns.len() > 0 {
        let head = columns.drop_last();
        assert forall|k: int| 0 <= k < head.len() implies (#[trigger] head[k]).0 != name by {
            assert(head[k] == columns[k]);
        }
        lemma_places_of_others(head, name);
        assert(columns[columns.len() - 1].0 != name);
    } else {
        assert(columns =~= Seq::<(Seq<char>, AttrType)>::empty());
    }
}

proof fn lemma_place_of_column(columns: Seq<(Seq<char>, AttrType)>, k: int)
    requires
        0 <= k < columns.len(),
        forall|i: int, j: int|
            0 <= i < j < columns.len() ==> (#[trigger] columns[i]).0 != (#[trigger] columns[j]).0,
    ensures
        ({
            let all = crate::gltf_writer::document::places(columns);
            &&& all.contains_key(columns[k].0)
            &&& all[columns[k].0] == crate::gltf_writer::document::column_place(
                columns[k].1,
                14 + crate::gltf_writer::document::columns_views(columns.take(k)),
            )
        }),
    decreases columns.len(),
{
    let head = columns.drop_last();
    if k == head.len() {
        assert(columns.take(k) =~= head);
    } else {
        assert forall|i: int, j: int| 0 <= i < j < head.len() implies (#[trigger] head[i]).0 != (
        #[trigger] head[j]).0 by {
            assert(head[i] == columns[i] && head[j] == columns[j]);
        }
        lemma_place_of_column(head, k);
        assert(head.take(k) =~= columns.take(k));
        assert(columns[k].0 != columns[columns.len() - 1].0);
    }
}

proof fn lemma_table_fields(m: MeshBuilder, splats: Seq<SplatVertex>)
    requires
        m.has_mesh(),
    ensures
        ({
            let doc = crate::gltf_writer::writer::tile_document(m, TilesVersion::V1_1, splats);
            let columns = crate::gltf_writer::sections::attribute_columns(m);
            &&& crate::json::field_of(table_of(doc), "properties"@) == Json::Obj(
                crate::gltf_writer::document::places(columns),
            )
            &&& crate::json::field_of(table_of(doc), "count"@) == Json::Int(
                m.batch_id_to_cityobject_id@.len() as int,
            )
        }),
{
    lemma_document_keys();
    lemma_table_keys();
}

/// Following the number of a view leads to it.
proof fn lemma_view_start(
    m: MeshBuilder,
    version: TilesVersion,
    splats: Seq<SplatVertex>,
    v: int,
)
    requires
        0 <= v < crate::gltf_writer::sections::tile_laid(m, version, splats).views.len(),
    ensures
        view_start(crate::gltf_writer::writer::tile_document(m, version, splats), v)
            == crate::gltf_writer::sections::tile_laid(m, version, splats).views[v].offset,
{
    let laid = crate::gltf_writer::sections::tile_laid(m, version, splats);
    lemma_document_fields(m, version, splats, laid.views, laid.bytes.len() as int);
    lemma_view_fields(laid.views[v]);
}

/// Whether a text stands in a string table, as text `i`: the offset of the text
/// and the next one lead to its characters, which a zero ends.
pub open spec fn text_stands(
    bytes: Seq<u8>,
    values: int,
    offsets: int,
    i: int,
    text: Seq<char>,
) -> bool {
    exists|from: u32, to: u32|
        {
            &&& #[trigger] crate::bytes::spells_word(bytes, offsets + 4 * i, from as int)
            &&& #[trigger] crate::bytes::spells_word(bytes, offsets + 4 * (i + 1), to as int)
            &&& 0 <= values
            &&& from <= to
            &&& values + to <= bytes.len()
            &&& bytes.subrange(values + from, values + to) == vstd::utf8::encode_utf8(text)
                + seq![0u8]
        }
}

proof fn lemma_text_stands(
    bytes: Seq<u8>,
    values: int,
    offsets: int,
    texts: Seq<Seq<char>>,
    i: int,
)
    requires
        0 <= i < texts.len(),
        crate::gltf_writer::sections::table_fits(texts),
        0 <= values,
        0 <= offsets,
        ({
            let data = crate::gltf_writer::sections::table_pieces(texts)[0].bytes;
            let list = crate::gltf_writer::sections::table_pieces(texts)[1].bytes;
            &&& values + data.len() <= bytes.len()
            &&& offsets + list.len() <= bytes.len()
            &&& bytes.subrange(values, values + data.len()) == data
            &&& bytes.subrange(offsets, offsets + list.len()) == list
        }),
    ensures
        text_stands(bytes, values, offsets, i, texts[i]),
{
    let data = crate::gltf_writer::sections::table_data(texts);
    let numbers = crate::gltf_writer::sections::table_offsets(texts);
    let list = crate::gltf_writer::sections::words(numbers);
    let from = numbers[i];
    let to = numbers[i + 1];
    crate::gltf_writer::sections::law_table_gives_back_its_texts(texts, i);
    crate::gltf_writer::sections::law_words_are_spelled(numbers, i);
    crate::gltf_writer::sections::law_words_are_spelled(numbers, i + 1);
    crate::gltf_writer::sections::lemma_spelled_within(bytes, list, offsets, 4 * i, from as int);
    crate::gltf_writer::sections::lemma_spelled_within(
        bytes,
        list,
        offsets,
        4 * (i + 1),
        to as int,
    );
    assert(bytes.subrange(values + from, values + to) =~= data.subrange(from as int, to as int));
}

/// What is computed of a surface can be read from the file: following the table
/// of the document leads to its area, its azimuth and its elevation.
pub proof fn law_measures_can_be_read(m: MeshBuilder, splats: Seq<SplatVertex>, i: int)
    requires
        m.has_mesh(),
        crate::gltf_writer::sections::tile_laid(m, TilesVersion::V1_1, splats).bytes.len()
            <= usize::MAX,
    ensures
        ({
            let bytes = crate::gltf_writer::sections::tile_laid(
                m,
                TilesVersion::V1_1,
                splats,
            ).bytes;
            let doc = crate::gltf_writer::writer::tile_document(m, TilesVersion::V1_1, splats);
            &&& no_column_named(m, "SurfaceArea"@) && 0 <= i < m.batch_id_to_area@.len()
                ==> crate::bytes::spells_word(
                bytes,
                values_start(doc, "SurfaceArea"@) + 4 * i,
                m.batch_id_to_area@[i] as int,
            )
            &&& no_column_named(m, "SurfaceAzimuth"@) && 0 <= i < m.batch_id_to_azimuth@.len()
                ==> crate::bytes::spells_word(
                bytes,
                values_start(doc, "SurfaceAzimuth"@) + 4 * i,
                m.batch_id_to_azimuth@[i] as int,
            )
            &&& no_column_named(m, "SurfaceElevation"@) && 0 <= i < m.batch_id_to_elevation@.len()
                ==> crate::bytes::spells_word(
                bytes,
                values_start(doc, "SurfaceElevation"@) + 4 * i,
                m.batch_id_to_elevation@[i] as int,
            )
        }),
{
    let version = TilesVersion::V1_1;
    let bytes = crate::gltf_writer::sections::tile_laid(m, version, splats).bytes;
    let doc = crate::gltf_writer::writer::tile_document(m, version, splats);
    let columns = crate::gltf_writer::sections::attribute_columns(m);
    lemma_table_fields(m, splats);
    lemma_table_keys();
    if no_column_named(m, "SurfaceArea"@) && 0 <= i < m.batch_id_to_area@.len() {
        lemma_places_of_others(columns, "SurfaceArea"@);
        lemma_fixed_word(m, splats, 11, m.batch_id_to_area@, i);
    }
    if no_column_named(m, "SurfaceAzimuth"@) && 0 <= i < m.batch_id_to_azimuth@.len() {
        lemma_places_of_others(columns, "SurfaceAzimuth"@);
        lemma_fixed_word(m, splats, 12, m.batch_id_to_azimuth@, i);
    }
    if no_column_named(m, "SurfaceElevation"@) && 0 <= i < m.batch_id_to_elevation@.len() {
        lemma_places_of_others(columns, "SurfaceElevation"@);
        lemma_fixed_word(m, splats, 13, m.batch_id_to_elevation@, i);
    }
}

proof fn lemma_fixed_word(m: MeshBuilder, splats: Seq<SplatVertex>, k: int, list: Seq<u32>, i: int)
    requires
        m.has_mesh(),
        5 <= k < 14,
        0 <= i < list.len(),
        crate::gltf_writer::document::fixed_pieces(m)[k].bytes
            == crate::gltf_writer::sections::words(list),
        crate::gltf_writer::sections::tile_laid(m, TilesVersion::V1_1, splats).bytes.len()
            <= usize::MAX,
    ensures
        crate::bytes::spells_word(
            crate::gltf_writer::sections::tile_laid(m, TilesVersion::V1_1, splats).bytes,
            view_start(
                crate::gltf_writer::writer::tile_document(m, TilesVersion::V1_1, splats),
                k,
            ) + 4 * i,
            list[i] as int,
        ),
{
    let version = TilesVersion::V1_1;
    let laid = crate::gltf_writer::sections::tile_laid(m, version, splats);
    crate::gltf_writer::document::law_fixed_views_hold_their_pieces(m, version, splats, k);
    lemma_view_start(m, version, splats, k);
    crate::gltf_writer::sections::law_words_are_spelled(list, i);
    let part = crate::gltf_writer::sections::words(list);
    let view = laid.views[k];
    assert(laid.bytes.subrange(view.offset as int, view.offset + view.length).len()
        == view.length);
    crate::gltf_writer::sections::lemma_spelled_within(
        laid.bytes,
        part,
        view.offset as int,
        4 * i,
        list[i] as int,
    );
}

/// The id, the object type and the surface type of a surface can be read from
/// the file by following the table of the document.
pub proof fn law_texts_can_be_read(m: MeshBuilder, splats: Seq<SplatVertex>, i: int)
    requires
        m.has_mesh(),
        crate::gltf_writer::sections::metadata_fits(m),
        crate::gltf_writer::sections::tile_laid(m, TilesVersion::V1_1, splats).bytes.len()
            <= usize::MAX,
    ensures
        ({
            let bytes = crate::gltf_writer::sections::tile_laid(
                m,
                TilesVersion::V1_1,
                splats,
            ).bytes;
            let doc = crate::gltf_writer::writer::tile_document(m, TilesVersion::V1_1, splats);
            &&& crate::json::field_of(table_of(doc), "count"@) == Json::Int(
                m.batch_id_to_cityobject_id@.len() as int,
            )
            &&& no_column_named(m, "BuildingId"@) && 0 <= i < m.batch_id_to_cityobject_id@.len()
                ==> text_stands(
                bytes,
                values_start(doc, "BuildingId"@),
                offsets_start(doc, "BuildingId"@),
                i,
                m.batch_id_to_cityobject_id@[i]@,
            )
            &&& no_column_named(m, "CityObjectType"@) && 0 <= i
                < m.batch_id_to_cityobject_type@.len() ==> text_stands(
                bytes,
                values_start(doc, "CityObjectType"@),
                offsets_start(doc, "CityObjectType"@),
                i,
                m.batch_id_to_cityobject_type@[i]@,
            )
            &&& no_column_named(m, "SurfaceType"@) && 0 <= i < m.batch_id_to_surface_type@.len()
                ==> text_stands(
                bytes,
                values_start(doc, "SurfaceType"@),
                offsets_start(doc, "SurfaceType"@),
                i,
                m.batch_id_to_surface_type@[i]@,
            )
        }),
{
    let columns = crate::gltf_writer::sections::attribute_columns(m);
    lemma_table_fields(m, splats);
    lemma_table_keys();
    if no_column_named(m, "BuildingId"@) && 0 <= i < m.batch_id_to_cityobject_id@.len() {
        lemma_places_of_others(columns, "BuildingId"@);
        lemma_fixed_text(m, splats, 5, m.batch_id_to_cityobject_id@, i);
    }
    if no_column_named(m, "CityObjectType"@) && 0 <= i < m.batch_id_to_cityobject_type@.len() {
        lemma_places_of_others(columns, "CityObjectType"@);
        lemma_fixed_text(m, splats, 7, m.batch_id_to_cityobject_type@, i);
    }
    if no_column_named(m, "SurfaceType"@) && 0 <= i < m.batch_id_to_surface_type@.len() {
        lemma_places_of_others(columns, "SurfaceType"@);
        lemma_fixed_text(m, splats, 9, m.batch_id_to_surface_type@, i);
    }
}

proof fn lemma_fixed_text(
    m: MeshBuilder,
    splats: Seq<SplatVertex>,
    k: int,
    list: Seq<String>,
    i: int,
)
    requires
        m.has_mesh(),
        5 <= k < 13,
        0 <= i < list.len(),
        crate::gltf_writer::sections::table_fits(crate::json::texts_of(list)),
        crate::gltf_writer::document::fixed_pieces(m)[k]
            == crate::gltf_writer::sections::table_pieces(crate::json::texts_of(list))[0],
        crate::gltf_writer::document::fixed_pieces(m)[k + 1]
            == crate::gltf_writer::sections::table_pieces(crate::json::texts_of(list))[1],
        crate::gltf_writer::sections::tile_laid(m, TilesVersion::V1_1, splats).bytes.len()
            <= usize::MAX,
    ensures
        ({
            let doc = crate::gltf_writer::writer::tile_document(m, TilesVersion::V1_1, splats);
            text_stands(
                crate::gltf_writer::sections::tile_laid(m, TilesVersion::V1_1, splats).bytes,
                view_start(doc, k),
                view_start(doc, k + 1),
                i,
                list[i]@,
            )
        }),
{
    let version = TilesVersion::V1_1;
    let laid = crate::gltf_writer::sections::tile_laid(m, version, splats);
    crate::gltf_writer::document::law_fixed_views_hold_their_pieces(m, version, splats, k);
    crate::gltf_writer::document::law_fixed_views_hold_their_pieces(m, version, splats, k + 1);
    lemma_view_start(m, version, splats, k);
    lemma_view_start(m, version, splats, k + 1);
    let a = laid.views[k];
    let b = laid.views[k + 1];
    assert(laid.bytes.subrange(a.offset as int, a.offset + a.length).len() == a.length);
    assert(laid.bytes.subrange(b.offset as int, b.offset + b.length).len() == b.length);
    lemma_text_stands(
        laid.bytes,
        a.offset as int,
        b.offset as int,
        crate::json::texts_of(list),
        i,
    );
}

/// The second view of a column of texts holds the offsets.
proof fn lemma_column_offsets_view(m: MeshBuilder, splats: Seq<SplatVertex>, k: int)
    requires
        m.has_mesh(),
        0 <= k < crate::gltf_writer::sections::attribute_columns(m).len(),
        crate::gltf_writer::sections::attribute_columns(m)[k].1 == AttrType::String,
        crate::gltf_writer::sections::tile_laid(m, TilesVersion::V1_1, splats).bytes.len()
            <= usize::MAX,
    ensures
        ({
            let laid = crate::gltf_writer::sections::tile_laid(m, TilesVersion::V1_1, splats);
            let columns = crate::gltf_writer::sections::attribute_columns(m);
            let number = 15 + crate::gltf_writer::document::columns_views(columns.take(k));
            let view = laid.views[number];
            &&& 0 <= number < laid.views.len()
            &&& view.offset + view.length <= laid.bytes.len()
            &&& laid.bytes.subrange(view.offset as int, view.offset + view.length)
                == crate::gltf_writer::sections::column_pieces(m.rows(), columns[k])[1].bytes
        }),
{
    let rows = m.rows();
    let columns = crate::gltf_writer::sections::attribute_columns(m);
    let pieces = crate::gltf_writer::sections::tile_pieces(m, TilesVersion::V1_1, splats);
    let fixed = crate::gltf_writer::document::fixed_pieces(m);
    let before = crate::gltf_writer::sections::columns_pieces(rows, columns.take(k));
    let own = crate::gltf_writer::sections::column_pieces(rows, columns[k]);
    let at = (fixed.len() + before.len() + 1) as int;
    crate::gltf_writer::document::lemma_columns_split(rows, columns, k);
    let all = crate::gltf_writer::sections::columns_pieces(rows, columns);
    let split = all.subrange(before.len() as int, (before.len() + own.len()) as int);
    assert(split[0] == own[0] && split[1] == own[1]);
    assert(pieces.take(at) =~= fixed + before + own.take(1));
    assert(pieces[at] == own[1]);
    crate::gltf_writer::document::lemma_fixed_view_count(m);
    crate::gltf_writer::document::lemma_columns_view_count(rows, columns.take(k));
    crate::gltf_writer::document::lemma_view_count_add(fixed, before);
    crate::gltf_writer::document::lemma_view_count_add(fixed + before, own.take(1));
    assert forall|j: int| 0 <= j < own.take(1).len() implies !((#[trigger] own.take(
        1,
    )[j]).purpose is Alignment) by {
        assert(own.take(1)[j] == own[0]);
    }
    crate::gltf_writer::document::lemma_view_count_all(own.take(1));
    crate::gltf_writer::layout::law_view_gives_back_its_piece(
        crate::gltf_writer::layout::nothing_laid(),
        pieces,
        at,
    );
}

/// The attributes of a row can be read from the file: following the table of the
/// document under the name of a column leads to the value that the row has
/// there, or to the one that stands for none.
#[verifier::rlimit(40)]
pub proof fn law_attributes_can_be_read(m: MeshBuilder, splats: Seq<SplatVertex>, k: int, i: int)
    requires
        m.has_mesh(),
        crate::gltf_writer::sections::metadata_fits(m),
        crate::gltf_writer::attributes::lists(
            crate::gltf_writer::sections::attribute_columns(m),
            crate::gltf_writer::attributes::column_kinds(m.rows()),
        ),
        0 <= k < crate::gltf_writer::sections::attribute_columns(m).len(),
        0 <= i < m.rows().len(),
        crate::gltf_writer::sections::tile_laid(m, TilesVersion::V1_1, splats).bytes.len()
            <= usize::MAX,
    ensures
        ({
            let bytes = crate::gltf_writer::sections::tile_laid(
                m,
                TilesVersion::V1_1,
                splats,
            ).bytes;
            let doc = crate::gltf_writer::writer::tile_document(m, TilesVersion::V1_1, splats);
            let (name, kind) = crate::gltf_writer::sections::attribute_columns(m)[k];
            let row = m.rows()[i];
            let start = values_start(doc, name);
            match kind {
                AttrType::String => text_stands(
                    bytes,
                    start,
                    offsets_start(doc, name),
                    i,
                    crate::gltf_writer::sections::text_in(row, name),
                ),
                AttrType::Float32 => crate::bytes::spells_word(
                    bytes,
                    start + 4 * i,
                    crate::gltf_writer::sections::single_in(row, name) as int,
                ),
                AttrType::Int32 => crate::bytes::spells_word(
                    bytes,
                    start + 4 * i,
                    crate::gltf_writer::sections::integer_in(row, name) as int,
                ),
                AttrType::Boolean => 0 <= start && start + i < bytes.len() && bytes[start + i]
                    == crate::gltf_writer::sections::flag_in(row, name),
            }
        }),
{
    let version = TilesVersion::V1_1;
    let laid = crate::gltf_writer::sections::tile_laid(m, version, splats);
    let bytes = laid.bytes;
    let doc = crate::gltf_writer::writer::tile_document(m, version, splats);
    let rows = m.rows();
    let columns = crate::gltf_writer::sections::attribute_columns(m);
    let (name, kind) = columns[k];
    assert forall|a: int, b: int| 0 <= a < b < columns.len() implies (#[trigger] columns[a]).0 != (
    #[trigger] columns[b]).0 by {
        assert(crate::text::text_before(columns[a].0, columns[b].0));
        crate::text::lemma_before_irreflexive(columns[a].0);
    }
    lemma_table_fields(m, splats);
    lemma_table_keys();
    lemma_place_of_column(columns, k);
    crate::gltf_writer::document::law_column_view_holds_the_column(m, splats, k);
    let number = 14 + crate::gltf_writer::document::columns_views(columns.take(k));
    lemma_view_start(m, version, splats, number);
    let view = laid.views[number];
    let start = view.offset as int;
    assert(bytes.subrange(start, start + view.length).len() == view.length);
    assert(values_start(doc, name) == start);
    match kind {
        AttrType::String => {
            lemma_column_offsets_view(m, splats, k);
            lemma_view_start(m, version, splats, number + 1);
            let other = laid.views[number + 1];
            assert(bytes.subrange(other.offset as int, other.offset + other.length).len()
                == other.length);
            let texts = crate::gltf_writer::sections::column_texts(rows, name);
            assert(columns[k].1 == AttrType::String);
            assert(crate::gltf_writer::sections::table_fits(texts));
            lemma_text_stands(bytes, start, other.offset as int, texts, i);
        },
        AttrType::Float32 => {
            let list = crate::gltf_writer::sections::column_singles(rows, name);
            crate::gltf_writer::sections::law_words_are_spelled(list, i);
            crate::gltf_writer::sections::lemma_spelled_within(
                bytes,
                crate::gltf_writer::sections::words(list),
                start,
                4 * i,
                list[i] as int,
            );
        },
        AttrType::Int32 => {
            let list = crate::gltf_writer::sections::column_integers(rows, name);
            crate::gltf_writer::sections::law_words_are_spelled(list, i);
            crate::gltf_writer::sections::lemma_spelled_within(
                bytes,
                crate::gltf_writer::sections::words(list),
                start,
                4 * i,
                list[i] as int,
            );
        },
        AttrType::Boolean => {
            let list = crate::gltf_writer::sections::column_flags(rows, name);
            assert(bytes.subrange(start, start + list.len())[i] == bytes[start + i]);
        },
    }
}

/// What is written for an attribute is its value: a text itself, a number in
/// single precision, a whole number, as far as it fits in 32 bits, and a flag as
/// one or zero.
pub proof fn law_attributes_keep_their_values(
    row: Map<Seq<char>, crate::gltf_writer::attributes::Attr>,
    name: Seq<char>,
)
    requires
        row.contains_key(name),
    ensures
        match row[name] {
            crate::gltf_writer::attributes::Attr::Text(text) => {
                crate::gltf_writer::sections::text_in(row, name) == text
            },
            crate::gltf_writer::attributes::Attr::Flag(b) => {
                &&& b ==> crate::gltf_writer::sections::flag_in(row, name) == 1
                &&& !b ==> crate::gltf_writer::sections::flag_in(row, name) == 0
            },
            crate::gltf_writer::attributes::Attr::Integer { value, single } => {
                &&& crate::gltf_writer::sections::single_in(row, name) == single
                &&& value matches Some(n) ==> (i32::MIN <= n <= i32::MAX
                    ==> crate::bytes::as_signed_32(
                    crate::gltf_writer::sections::integer_in(row, name) as nat,
                ) == n)
                &&& value matches Some(n) ==> (crate::gltf_writer::sections::integer_in(row, name)
                    - n) % 0x1_0000_0000 == 0
            },
            crate::gltf_writer::attributes::Attr::Real { single } => {
                crate::gltf_writer::sections::single_in(row, name) == single
            },
            crate::gltf_writer::attributes::Attr::Other => true,
        },
{
    match row[name] {
        crate::gltf_writer::attributes::Attr::Integer { value: Some(n), .. } => {
            let low = n as int % 0x1_0000_0000;
            assert((low - n) % 0x1_0000_0000 == 0) by {
                vstd::arithmetic::div_mod::lemma_fundamental_div_mod(n as int, 0x1_0000_0000);
            }
        },
        _ => {},
    }
}

proof fn lemma_property_keys()
    ensures
        "type"@ != "stringOffsetType"@,
        "type"@ != "noData"@,
        "stringOffsetType"@ != "noData"@,
        "type"@ != "componentType"@,
        "componentType"@ != "noData"@,
{
    reveal_strlit("type");
    reveal_strlit("stringOffsetType");
    reveal_strlit("noData");
    reveal_strlit("componentType");
    assert("type"@.len() == 4);
    assert("stringOffsetType"@.len() == 16);
    assert("noData"@.len() == 6);
    assert("componentType"@.len() == 13);
}

/// What is written for a row without the attribute is what the document says
/// stands for no data: an empty text, the smallest 32-bit number, 255 for a
/// flag. For a single precision number it is a NaN, which has no place in JSON.
pub proof fn law_missing_values_are_no_data(
    row: Map<Seq<char>, crate::gltf_writer::attributes::Attr>,
    name: Seq<char>,
)
    requires
        !row.contains_key(name) || row[name] is Other,
    ensures
        ({
            let no_data = |kind: AttrType|
                crate::json::field_of(
                    crate::gltf_writer::document::column_property(kind),
                    "noData"@,
                );
            &&& no_data(AttrType::String) == Json::Str(
                crate::gltf_writer::sections::text_in(row, name),
            )
            &&& no_data(AttrType::Int32) == Json::Int(
                crate::bytes::as_signed_32(
                    crate::gltf_writer::sections::integer_in(row, name) as nat,
                ),
            )
            &&& no_data(AttrType::Int32) == Json::Int(i32::MIN as int)
            &&& no_data(AttrType::Boolean) == Json::Int(
                crate::gltf_writer::sections::flag_in(row, name) as int,
            )
            &&& crate::gltf_writer::sections::flag_in(row, name) == 255
            &&& no_data(AttrType::Float32) == crate::json::float_json(
                crate::gltf_writer::sections::single_in(row, name),
            )
            &&& crate::float_bits::f32_is_nan(crate::gltf_writer::sections::single_in(row, name))
        }),
{
    lemma_property_keys();
    reveal_strlit("");
    assert(""@ =~= Seq::<char>::empty());
}

/// The surface numbers of vertices refer to the rows of the table: the document
/// tells how many there are, and which number stands for no row. That is the
/// number that is written for a vertex without a row.
pub proof fn law_numbers_refer_to_the_table(m: MeshBuilder, splats: Seq<SplatVertex>)
    requires
        m.has_mesh(),
    ensures
        ({
            let doc = crate::gltf_writer::writer::tile_document(m, TilesVersion::V1_1, splats);
            let numbers = item_of(
                crate::json::field_of(
                    crate::json::field_of(
                        crate::json::field_of(primitive_of(doc, 0), "extensions"@),
                        "EXT_mesh_features"@,
                    ),
                    "featureIds"@,
                ),
                0,
            );
            &&& crate::json::field_of(numbers, "featureCount"@) == Json::Int(
                m.next_batch_index as int,
            )
            &&& crate::json::field_of(numbers, "nullFeatureId"@) == Json::Int(
                crate::gltf_writer::feature::NO_ROW as int % 0x1_0000,
            )
            &&& crate::json::field_of(numbers, "attribute"@) == Json::Int(0)
            &&& crate::json::field_of(numbers, "propertyTable"@) == Json::Int(0)
        }),
{
    let version = TilesVersion::V1_1;
    let laid = crate::gltf_writer::sections::tile_laid(m, version, splats);
    lemma_document_fields(m, version, splats, laid.views, laid.bytes.len() as int);
    lemma_primitive_keys();
    lemma_table_keys();
    let all = crate::gltf_writer::document::primitives(m, version, splats);
    assert(all[0] == crate::gltf_writer::document::mesh_primitive(m, version));
}

/// The matrix of the node, written column by column, takes a point with z up to
/// one with y up: what was up stays up, and what was north is now to the back.
pub proof fn law_z_becomes_up(x: int, y: int, z: int)
    ensures
        ({
            let a = crate::gltf_writer::document::y_up_matrix();
            &&& a.len() == 16
            &&& a[0] * x + a[4] * y + a[8] * z + a[12] == x
            &&& a[1] * x + a[5] * y + a[9] * z + a[13] == z
            &&& a[2] * x + a[6] * y + a[10] * z + a[14] == -y
            &&& a[3] * x + a[7] * y + a[11] * z + a[15] == 1
        }),
{
    let a = crate::gltf_writer::document::y_up_matrix();
    assert(a[0] == 1 && a[1] == 0 && a[2] == 0 && a[3] == 0);
    assert(a[4] == 0 && a[5] == 0 && a[6] == -1 && a[7] == 0);
    assert(a[8] == 0 && a[9] == 1 && a[10] == 0 && a[11] == 0);
    assert(a[12] == 0 && a[13] == 0 && a[14] == 0 && a[15] == 1);
}

// -------------------------------------------------------------------- files

/// Whether a file is a GLB file that holds a text and a buffer.
pub open spec fn is_glb(glb: Seq<u8>, json: Seq<u8>, bin: Seq<u8>) -> bool {
    let j = crate::gltf_writer::container::word_at(glb, 12) as int;
    &&& glb.take(4) == seq![0x67u8, 0x6cu8, 0x54u8, 0x46u8]
    &&& glb.subrange(16, 20) == seq![0x4au8, 0x53u8, 0x4fu8, 0x4eu8]
    &&& glb.subrange(24 + j, 28 + j) == seq![0x42u8, 0x49u8, 0x4eu8, 0u8]
    &&& glb.subrange(20, 20int + json.len()) == json
    &&& glb.subrange(28 + j, 28 + j + bin.len()) == bin
}

proof fn lemma_is_glb(glb: Seq<u8>, json: Seq<u8>, bin: Seq<u8>)
    requires
        ({
            let j = crate::gltf_writer::container::word_at(glb, 12) as int;
            &&& glb.take(4) == crate::gltf_writer::container::glb_magic()
            &&& glb.subrange(16, 20) == seq![0x4au8, 0x53u8, 0x4fu8, 0x4eu8]
            &&& glb.subrange(24 + j, 28 + j) == seq![0x42u8, 0x49u8, 0x4eu8, 0u8]
            &&& glb.subrange(20, 20int + json.len()) == json
            &&& glb.subrange(28 + j, 28 + j + bin.len()) == bin
        }),
    ensures
        is_glb(glb, json, bin),
{
}

/// The GLB file in a B3DM file: what follows the header and the two tables.
pub open spec fn unwrapped(file: Seq<u8>) -> Seq<u8> {
    file.skip(
        28int + crate::gltf_writer::container::word_at(file, 12)
            + crate::gltf_writer::container::word_at(file, 20),
    )
}

proof fn lemma_unwrapped(features: Seq<u8>, batches: Seq<u8>, glb: Seq<u8>)
    requires
        crate::gltf_writer::container::b3dm_of(features, batches, glb).len() < 0x1_0000_0000,
    ensures
        ({
            let file = crate::gltf_writer::container::b3dm_of(features, batches, glb);
            &&& file.take(4) == seq![0x62u8, 0x33u8, 0x64u8, 0x6du8]
            &&& unwrapped(file) == glb
            &&& glb.len() <= file.len()
        }),
{
    crate::gltf_writer::container::law_b3dm_gives_back_its_glb(features, batches, glb);
}

/// The file of a tile can be taken apart: it is a GLB file, or in version 1.0,
/// where there is a mesh, a B3DM file that ends with one. The GLB file holds the
/// text of the document and the buffer.
#[verifier::rlimit(80)]
pub proof fn law_file_can_be_taken_apart(
    m: MeshBuilder,
    version: TilesVersion,
    splats: Seq<SplatVertex>,
    file: Seq<u8>,
)
    requires
        m.has_mesh() || splats.len() > 0,
        crate::gltf_writer::writer::tile_outcome(m, version, splats) == Ok::<
            Seq<u8>,
            crate::gltf_writer::writer::GlbError,
        >(file),
        file.len() < 0x1_0000_0000,
    ensures
        ({
            let bin = crate::gltf_writer::sections::tile_laid(m, version, splats).bytes;
            &&& crate::gltf_writer::writer::tile_text(m, version, splats) matches Some(text)
            &&& if m.has_mesh() && version == TilesVersion::V1_0 {
                &&& file.take(4) == seq![0x62u8, 0x33u8, 0x64u8, 0x6du8]
                &&& is_glb(unwrapped(file), vstd::utf8::encode_utf8(text), bin)
            } else {
                is_glb(file, vstd::utf8::encode_utf8(text), bin)
            }
        }),
{
    let bin = crate::gltf_writer::sections::tile_laid(m, version, splats).bytes;
    let text = crate::gltf_writer::writer::tile_text(m, version, splats)->0;
    let json = vstd::utf8::encode_utf8(text);
    let glb = crate::gltf_writer::container::glb_of(json, bin);
    if m.has_mesh() && version == TilesVersion::V1_0 {
        let features = crate::json::json_text(
            crate::gltf_writer::container::feature_table(
                m.batch_id_to_cityobject_id@.len() as int,
            ),
        );
        let batches = crate::json::json_text(
            crate::gltf_writer::container::batch_table(
                crate::json::texts_of(m.batch_id_to_cityobject_id@),
                crate::json::texts_of(m.batch_id_to_cityobject_type@),
                crate::json::texts_of(m.batch_id_to_surface_type@),
            ),
        );
        assert(file == crate::gltf_writer::container::b3dm_of(features, batches, glb));
        lemma_unwrapped(features, batches, glb);
        crate::gltf_writer::container::law_glb_can_be_taken_apart(json, bin);
        crate::gltf_writer::container::law_glb_parts_are_tagged(json, bin);
        lemma_is_glb(unwrapped(file), json, bin);
    } else {
        assert(file == glb);
        crate::gltf_writer::container::law_glb_can_be_taken_apart(json, bin);
        crate::gltf_writer::container::law_glb_parts_are_tagged(json, bin);
        lemma_is_glb(file, json, bin);
    }
}

/// A tile with a mesh is refused for its rows if and only if it has more than
/// 65535 of them. So in a file every row has a 16-bit number of its own, which is
/// not the one that stands for no row.
pub proof fn law_rows_have_their_own_numbers(
    m: MeshBuilder,
    version: TilesVersion,
    splats: Seq<SplatVertex>,
    row: u32,
)
    requires
        m.has_mesh(),
    ensures
        ({
            let outcome = crate::gltf_writer::writer::tile_outcome(m, version, splats);
            &&& outcome == Err::<Seq<u8>, crate::gltf_writer::writer::GlbError>(
                crate::gltf_writer::writer::GlbError::TooManyFeatures(m.next_batch_index),
            ) <==> m.next_batch_index > 65535
            &&& outcome is Ok && row < m.next_batch_index ==> row as int % 0x1_0000 == row && row
                as int % 0x1_0000 != crate::gltf_writer::feature::NO_ROW as int % 0x1_0000
        }),
{
}

// -------------------------------------------------------------------- frame

proof fn lemma_frame_keys()
    ensures
        "version"@ != "generator"@,
        "byteLength"@ != "name"@,
        "mesh"@ != "matrix"@,
{
    reveal_strlit("version");
    reveal_strlit("generator");
    reveal_strlit("byteLength");
    reveal_strlit("name");
    reveal_strlit("mesh");
    reveal_strlit("matrix");
    assert("version"@.len() == 7);
    assert("generator"@.len() == 9);
    assert("byteLength"@.len() == 10);
    assert("name"@.len() == 4);
    assert("mesh"@.len() == 4);
    assert("matrix"@.len() == 6);
}

proof fn lemma_material_keys()
    ensures
        "pbrMetallicRoughness"@ != "emissiveFactor"@,
        "pbrMetallicRoughness"@ != "alphaMode"@,
        "pbrMetallicRoughness"@ != "doubleSided"@,
        "pbrMetallicRoughness"@ != "extensions"@,
        "emissiveFactor"@ != "alphaMode"@,
        "emissiveFactor"@ != "doubleSided"@,
        "emissiveFactor"@ != "extensions"@,
        "alphaMode"@ != "doubleSided"@,
        "alphaMode"@ != "extensions"@,
        "doubleSided"@ != "extensions"@,
        "baseColorFactor"@ != "metallicFactor"@,
        "baseColorFactor"@ != "roughnessFactor"@,
        "metallicFactor"@ != "roughnessFactor"@,
{
    reveal_strlit("pbrMetallicRoughness");
    reveal_strlit("emissiveFactor");
    reveal_strlit("alphaMode");
    reveal_strlit("doubleSided");
    reveal_strlit("extensions");
    reveal_strlit("baseColorFactor");
    reveal_strlit("metallicFactor");
    reveal_strlit("roughnessFactor");
    assert("pbrMetallicRoughness"@.len() == 20);
    assert("emissiveFactor"@.len() == 14);
    assert("alphaMode"@.len() == 9);
    assert("doubleSided"@.len() == 11);
    assert("extensions"@.len() == 10);
    assert("baseColorFactor"@.len() == 15);
    assert("metallicFactor"@.len() == 14);
    assert("roughnessFactor"@.len() == 15);
    assert("baseColorFactor"@[0] == 'b');
    assert("roughnessFactor"@[0] == 'r');
}

/// The node that the scene shows.
pub open spec fn shown_node(doc: Json) -> Json {
    let scene = item_of(
        crate::json::field_of(doc, "scenes"@),
        number_of(crate::json::field_of(doc, "scene"@)),
    );
    item_of(
        crate::json::field_of(doc, "nodes"@),
        number_of(item_of(crate::json::field_of(scene, "nodes"@), 0)),
    )
}

/// An item of the matrix of the node that the scene shows.
pub open spec fn turn_of(doc: Json, i: int) -> int {
    number_of(item_of(crate::json::field_of(shown_node(doc), "matrix"@), i))
}

/// The document is a glTF 2.0 document with one buffer, whose length it tells.
/// The scene shows the only mesh, turned so that a point with z up becomes one
/// with y up.
pub proof fn law_scene_shows_the_mesh(
    m: MeshBuilder,
    version: TilesVersion,
    splats: Seq<SplatVertex>,
    x: int,
    y: int,
    z: int,
)
    ensures
        ({
            let doc = crate::gltf_writer::writer::tile_document(m, version, splats);
            let bytes = crate::gltf_writer::sections::tile_laid(m, version, splats).bytes;
            &&& crate::json::field_of(crate::json::field_of(doc, "asset"@), "version"@)
                == Json::Str("2.0"@)
            &&& crate::json::field_of(
                item_of(crate::json::field_of(doc, "buffers"@), 0),
                "byteLength"@,
            ) == Json::Int(bytes.len() as int)
            &&& crate::json::field_of(shown_node(doc), "mesh"@) == Json::Int(0)
            &&& turn_of(doc, 0) * x + turn_of(doc, 4) * y + turn_of(doc, 8) * z + turn_of(doc, 12)
                == x
            &&& turn_of(doc, 1) * x + turn_of(doc, 5) * y + turn_of(doc, 9) * z + turn_of(doc, 13)
                == z
            &&& turn_of(doc, 2) * x + turn_of(doc, 6) * y + turn_of(doc, 10) * z + turn_of(doc, 14)
                == -y
            &&& turn_of(doc, 3) * x + turn_of(doc, 7) * y + turn_of(doc, 11) * z + turn_of(doc, 15)
                == 1
        }),
{
    lemma_document_keys();
    lemma_frame_keys();
    let doc = crate::gltf_writer::writer::tile_document(m, version, splats);
    let a = crate::gltf_writer::document::y_up_matrix();
    assert(crate::json::field_of(shown_node(doc), "matrix"@)
        == crate::gltf_writer::document::whole_json(a));
    assert forall|i: int| 0 <= i < 16 implies #[trigger] turn_of(doc, i) == a[i] by {}
    law_z_becomes_up(x, y, z);
}

/// The material of a primitive.
pub open spec fn material_of(doc: Json, p: int) -> Json {
    item_of(
        crate::json::field_of(doc, "materials"@),
        number_of(crate::json::field_of(primitive_of(doc, p), "material"@)),
    )
}

/// Whether a material is white, opaque and seen from both sides.
pub open spec fn is_white(material: Json) -> bool {
    let look = crate::json::field_of(material, "pbrMetallicRoughness"@);
    let color = crate::json::field_of(look, "baseColorFactor"@);
    &&& item_of(color, 0) == Json::Int(1)
    &&& item_of(color, 1) == Json::Int(1)
    &&& item_of(color, 2) == Json::Int(1)
    &&& item_of(color, 3) == Json::Int(1)
    &&& crate::json::field_of(material, "alphaMode"@) == Json::Str("OPAQUE"@)
    &&& crate::json::field_of(material, "doubleSided"@) == Json::Bool(true)
}

/// The mesh and the splats have materials of their own, which are white, opaque
/// and seen from both sides, so that the vertices bring the colors. That of the
/// splats is unlit, and the extension is named.
pub proof fn law_materials_are_white(
    m: MeshBuilder,
    version: TilesVersion,
    splats: Seq<SplatVertex>,
)
    ensures
        ({
            let doc = crate::gltf_writer::writer::tile_document(m, version, splats);
            let unlit = material_of(doc, splat_place(m));
            let used = crate::json::field_of(doc, "extensionsUsed"@);
            &&& m.has_mesh() ==> is_white(material_of(doc, 0))
            &&& m.has_mesh() ==> crate::json::field_of(material_of(doc, 0), "extensions"@)
                == Json::Null
            &&& splats.len() > 0 ==> is_white(unlit)
            &&& splats.len() > 0 ==> crate::json::field_of(
                crate::json::field_of(unlit, "extensions"@),
                "KHR_materials_unlit"@,
            ) is Obj
            &&& splats.len() > 0 ==> (used matches Json::Arr(names) && names.contains(
                Json::Str("KHR_gaussian_splatting"@),
            ) && names.contains(Json::Str("KHR_materials_unlit"@)))
            &&& m.has_mesh() && version == TilesVersion::V1_1 ==> (used matches Json::Arr(names)
                && names.contains(Json::Str("EXT_mesh_features"@)) && names.contains(
                Json::Str("EXT_structural_metadata"@),
            ))
        }),
{
    lemma_document_keys();
    lemma_primitive_keys();
    lemma_material_keys();
    let laid = crate::gltf_writer::sections::tile_laid(m, version, splats);
    lemma_document_fields(m, version, splats, laid.views, laid.bytes.len() as int);
    let all = crate::gltf_writer::document::primitives(m, version, splats);
    let materials = crate::gltf_writer::document::materials(m, splats);
    let used = crate::gltf_writer::document::extensions_used(m, version, splats);
    let p = splat_place(m);
    if m.has_mesh() {
        assert(all[0] == crate::gltf_writer::document::mesh_primitive(m, version));
        assert(materials[0] == crate::gltf_writer::document::mesh_material());
        if version == TilesVersion::V1_1 {
            assert(used[0] == Json::Str("EXT_mesh_features"@));
            assert(used[1] == Json::Str("EXT_structural_metadata"@));
        }
    }
    if splats.len() > 0 {
        assert(all[p] == crate::gltf_writer::document::splat_primitive(5 * p, p));
        assert(materials[p] == crate::gltf_writer::document::splat_material());
        let n = used.len() as int;
        assert(used[n - 2] == Json::Str("KHR_gaussian_splatting"@));
        assert(used[n - 1] == Json::Str("KHR_materials_unlit"@));
    }
}

/// Setting the factors of a document sets those of its first material, and leaves
/// its other materials and all else.
pub proof fn law_factors_are_set(doc: Json, metallic: u32, roughness: u32, name: Seq<char>)
    requires
        crate::json::materials_in(doc).len() > 0,
        crate::json::materials_in(doc)[0] is Obj,
        crate::json::field_of(
            crate::json::materials_in(doc)[0],
            "pbrMetallicRoughness"@,
        ) is Obj,
    ensures
        ({
            let after = crate::json::with_factors(doc, metallic, roughness);
            let before = crate::json::materials_in(doc)[0];
            let material = item_of(crate::json::field_of(after, "materials"@), 0);
            let look = crate::json::field_of(material, "pbrMetallicRoughness"@);
            &&& crate::json::field_of(look, "metallicFactor"@) == crate::json::float_json(metallic)
            &&& crate::json::field_of(look, "roughnessFactor"@) == crate::json::float_json(
                roughness,
            )
            &&& crate::json::field_of(look, "baseColorFactor"@) == crate::json::field_of(
                crate::json::field_of(before, "pbrMetallicRoughness"@),
                "baseColorFactor"@,
            )
            &&& name != "materials"@ ==> crate::json::field_of(after, name)
                == crate::json::field_of(doc, name)
            &&& name != "pbrMetallicRoughness"@ ==> crate::json::field_of(material, name)
                == crate::json::field_of(before, name)
        }),
{
    lemma_material_keys();
}

/// A tile with a mesh has the factors of its mesh in the document that is
/// written.
pub proof fn law_factors_are_those_of_the_mesh(
    m: MeshBuilder,
    version: TilesVersion,
    splats: Seq<SplatVertex>,
)
    ensures
        ({
            let read = crate::json::root_read(
                crate::gltf_writer::writer::tile_document(m, version, splats),
            );
            let written = crate::gltf_writer::writer::tile_root(m, version, splats);
            &&& read is None <==> written is None
            &&& m.has_mesh() && read is Some ==> {
                &&& written == Some(
                    crate::json::with_factors(read->0, m.metallic_factor, m.roughness_factor),
                )
            }
            &&& !m.has_mesh() ==> written == read
        }),
{
}

// ------------------------------------------------------------- descriptions

/// The view of an accessor.
pub open spec fn view_of(doc: Json, a: int) -> Json {
    item_of(
        crate::json::field_of(doc, "bufferViews"@),
        number_of(crate::json::field_of(accessor_of(doc, a), "bufferView"@)),
    )
}

/// The views of the mesh are as long as their elements, and tell what buffer they
/// are for: 34962 stands for vertices and 34963 for indices. Only the surface
/// numbers, of which each takes up four bytes, have a stride.
#[verifier::rlimit(80)]
pub proof fn law_views_of_the_mesh_are_told(
    m: MeshBuilder,
    version: TilesVersion,
    splats: Seq<SplatVertex>,
)
    requires
        m.has_mesh(),
        crate::gltf_writer::sections::tile_laid(m, version, splats).bytes.len() <= usize::MAX,
    ensures
        ({
            let doc = crate::gltf_writer::writer::tile_document(m, version, splats);
            let length = |a: int| crate::json::field_of(view_of(doc, a), "byteLength"@);
            let target = |a: int| crate::json::field_of(view_of(doc, a), "target"@);
            let stride = |a: int| crate::json::field_of(view_of(doc, a), "byteStride"@);
            let positions = attribute_of(doc, 0, "POSITION"@);
            let normals = attribute_of(doc, 0, "NORMAL"@);
            let colors = attribute_of(doc, 0, "COLOR_0"@);
            let numbers = attribute_of(
                doc,
                0,
                if version == TilesVersion::V1_1 {
                    "_FEATURE_ID_0"@
                } else {
                    "_BATCHID"@
                },
            );
            let corners = number_of(crate::json::field_of(primitive_of(doc, 0), "indices"@));
            &&& length(positions) == Json::Int(12int * m.positions@.len())
            &&& length(normals) == Json::Int(12int * m.normals@.len())
            &&& length(colors) == Json::Int(16int * m.colors@.len())
            &&& length(numbers) == Json::Int(4int * m.batch_ids@.len())
            &&& length(corners) == Json::Int(4int * m.indices@.len())
            &&& target(positions) == Json::Int(34962)
            &&& target(normals) == Json::Int(34962)
            &&& target(colors) == Json::Int(34962)
            &&& target(numbers) == Json::Int(34962)
            &&& target(corners) == Json::Int(34963)
            &&& stride(positions) == Json::Null
            &&& stride(normals) == Json::Null
            &&& stride(colors) == Json::Null
            &&& stride(numbers) == Json::Int(4)
            &&& stride(corners) == Json::Null
        }),
{
    let laid = crate::gltf_writer::sections::tile_laid(m, version, splats);
    let doc = crate::gltf_writer::writer::tile_document(m, version, splats);
    let pieces = crate::gltf_writer::sections::mesh_pieces(m);
    lemma_document_fields(m, version, splats, laid.views, laid.bytes.len() as int);
    lemma_mesh_attributes(m, version, splats);
    lemma_accessor_keys();
    lemma_view_keys();
    assert forall|k: int| 0 <= k < 5 implies #[trigger] view_of(doc, k)
        == crate::gltf_writer::document::view_json(laid.views[k]) && laid.views[k].length
        == pieces[k].bytes.len() && laid.views[k].purpose == pieces[k].purpose by {
        lemma_mesh_accessor(m, version, splats, k);
        crate::gltf_writer::document::law_fixed_views_hold_their_pieces(m, version, splats, k);
        assert(crate::gltf_writer::document::fixed_pieces(m)[k] == pieces[k]);
        assert(crate::json::field_of(
            crate::gltf_writer::document::mesh_accessors(m)[k],
            "bufferView"@,
        ) == Json::Int(k));
    }
    assert(view_of(doc, 0) == crate::gltf_writer::document::view_json(laid.views[0]));
    assert(view_of(doc, 1) == crate::gltf_writer::document::view_json(laid.views[1]));
    assert(view_of(doc, 2) == crate::gltf_writer::document::view_json(laid.views[2]));
    assert(view_of(doc, 3) == crate::gltf_writer::document::view_json(laid.views[3]));
    assert(view_of(doc, 4) == crate::gltf_writer::document::view_json(laid.views[4]));
    crate::gltf_writer::sections::lemma_sizes(m.batch_ids@, m.positions@, m.colors@);
    crate::gltf_writer::sections::lemma_sizes(m.indices@, m.normals@, m.colors@);
}

/// The type of the properties of a column in the description of the table.
pub open spec fn property_of(doc: Json, name: Seq<char>) -> Json {
    crate::json::field_of(
        crate::json::field_of(
            crate::json::field_of(
                crate::json::field_of(
                    crate::json::field_of(
                        crate::json::field_of(
                            crate::json::field_of(doc, "extensions"@),
                            "EXT_structural_metadata"@,
                        ),
                        "schema"@,
                    ),
                    "classes"@,
                ),
                "Feature"@,
            ),
            "properties"@,
        ),
        name,
    )
}

proof fn lemma_property_of_column(columns: Seq<(Seq<char>, AttrType)>, k: int)
    requires
        0 <= k < columns.len(),
        forall|i: int, j: int|
            0 <= i < j < columns.len() ==> (#[trigger] columns[i]).0 != (#[trigger] columns[j]).0,
    ensures
        ({
            let all = crate::gltf_writer::document::properties(columns);
            &&& all.contains_key(columns[k].0)
            &&& all[columns[k].0] == crate::gltf_writer::document::column_property(columns[k].1)
        }),
    decreases columns.len(),
{
    let head = columns.drop_last();
    if k < head.len() {
        assert forall|i: int, j: int| 0 <= i < j < head.len() implies (#[trigger] head[i]).0 != (
        #[trigger] head[j]).0 by {
            assert(head[i] == columns[i] && head[j] == columns[j]);
        }
        lemma_property_of_column(head, k);
        assert(head[k] == columns[k]);
        assert(columns[k].0 != columns[columns.len() - 1].0);
    }
}

/// The description of the table tells the type of each column: texts with 32-bit
/// offsets, single precision numbers, signed 32-bit numbers or flags.
pub proof fn law_types_of_columns_are_told(m: MeshBuilder, splats: Seq<SplatVertex>, k: int)
    requires
        m.has_mesh(),
        crate::gltf_writer::attributes::lists(
            crate::gltf_writer::sections::attribute_columns(m),
            crate::gltf_writer::attributes::column_kinds(m.rows()),
        ),
        0 <= k < crate::gltf_writer::sections::attribute_columns(m).len(),
    ensures
        ({
            let doc = crate::gltf_writer::writer::tile_document(m, TilesVersion::V1_1, splats);
            let (name, kind) = crate::gltf_writer::sections::attribute_columns(m)[k];
            let told = |field: Seq<char>| crate::json::field_of(property_of(doc, name), field);
            match kind {
                AttrType::String => told("type"@) == Json::Str("STRING"@) && told(
                    "stringOffsetType"@,
                ) == Json::Str("UINT32"@),
                AttrType::Float32 => told("type"@) == Json::Str("SCALAR"@) && told(
                    "componentType"@,
                ) == Json::Str("FLOAT32"@),
                AttrType::Int32 => told("type"@) == Json::Str("SCALAR"@) && told("componentType"@)
                    == Json::Str("INT32"@),
                AttrType::Boolean => told("type"@) == Json::Str("BOOLEAN"@),
            }
        }),
{
    lemma_document_keys();
    lemma_table_keys();
    lemma_property_keys();
    let columns = crate::gltf_writer::sections::attribute_columns(m);
    assert forall|i: int, j: int| 0 <= i < j < columns.len() implies (#[trigger] columns[i]).0 != (
    #[trigger] columns[j]).0 by {
        if columns[i].0 == columns[j].0 {
            crate::text::lemma_before_irreflexive(columns[i].0);
        }
    }
    lemma_property_of_column(columns, k);
    let doc = crate::gltf_writer::writer::tile_document(m, TilesVersion::V1_1, splats);
    assert(property_of(doc, columns[k].0) == crate::gltf_writer::document::properties(
        columns,
    )[columns[k].0]);
}

/// The tables of a B3DM file are those of the rows of the tile: the first tells
/// how many rows there are, and the second their ids and types.
pub proof fn law_wrapped_file_has_the_tables(
    m: MeshBuilder,
    splats: Seq<SplatVertex>,
    file: Seq<u8>,
)
    requires
        m.has_mesh(),
        crate::gltf_writer::writer::tile_outcome(m, TilesVersion::V1_0, splats) == Ok::<
            Seq<u8>,
            crate::gltf_writer::writer::GlbError,
        >(file),
        file.len() < 0x1_0000_0000,
    ensures
        ({
            let features = crate::json::json_text(
                Json::Obj(
                    map!["BATCH_LENGTH"@ => Json::Int(m.batch_id_to_cityobject_id@.len() as int)],
                ),
            );
            let batches = crate::json::json_text(
                Json::Obj(map![
                    "BuildingId"@ => crate::json::texts_json(
                        crate::json::texts_of(m.batch_id_to_cityobject_id@),
                    ),
                    "CityObjectType"@ => crate::json::texts_json(
                        crate::json::texts_of(m.batch_id_to_cityobject_type@),
                    ),
                    "SurfaceType"@ => crate::json::texts_json(
                        crate::json::texts_of(m.batch_id_to_surface_type@),
                    ),
                ]),
            );
            let f = 28int + crate::gltf_writer::container::word_at(file, 12);
            &&& file.subrange(28, 28int + features.len()) == features
            &&& file.subrange(f, f + batches.len()) == batches
        }),
{
    let text = crate::gltf_writer::writer::tile_text(m, TilesVersion::V1_0, splats)->0;
    let bin = crate::gltf_writer::sections::tile_laid(m, TilesVersion::V1_0, splats).bytes;
    crate::gltf_writer::container::law_b3dm_gives_back_its_glb(
        crate::json::json_text(
            crate::gltf_writer::container::feature_table(
                m.batch_id_to_cityobject_id@.len() as int,
            ),
        ),
        crate::json::json_text(
            crate::gltf_writer::container::batch_table(
                crate::json::texts_of(m.batch_id_to_cityobject_id@),
                crate::json::texts_of(m.batch_id_to_cityobject_type@),
                crate::json::texts_of(m.batch_id_to_surface_type@),
            ),
        ),
        crate::gltf_writer::container::glb_of(vstd::utf8::encode_utf8(text), bin),
    );
}

proof fn lemma_properties_of_others(columns: Seq<(Seq<char>, AttrType)>, name: Seq<char>)
    requires
        forall|k: int| 0 <= k < columns.len() ==> (#[trigger] columns[k]).0 != name,
    ensures
        ({
            let all = crate::gltf_writer::document::properties(columns);
            let first = crate::gltf_writer::document::properties(Seq::empty());
            &&& all.contains_key(name) == first.contains_key(name)
            &&& first.contains_key(name) ==> all[name] == first[name]
        }),
    decreases columns.len(),
{
    if columns.len() > 0 {
        let head = columns.drop_last();
        assert forall|k: int| 0 <= k < head.len() implies (#[trigger] head[k]).0 != name by {
            assert(head[k] == columns[k]);
        }
        lemma_properties_of_others(head, name);
        assert(columns[columns.len() - 1].0 != name);
    } else {
        assert(columns =~= Seq::<(Seq<char>, AttrType)>::empty());
    }
}

/// The description of the table tells that ids and types are texts with 32-bit
/// offsets, and that the measures are single precision numbers.
pub proof fn law_types_of_entries_are_told(m: MeshBuilder, splats: Seq<SplatVertex>, name: Seq<char>)
    requires
        m.has_mesh(),
        no_column_named(m, name),
    ensures
        ({
            let doc = crate::gltf_writer::writer::tile_document(m, TilesVersion::V1_1, splats);
            let told = |field: Seq<char>| crate::json::field_of(property_of(doc, name), field);
            &&& name == "BuildingId"@ || name == "CityObjectType"@ || name == "SurfaceType"@
                ==> told("type"@) == Json::Str("STRING"@) && told("stringOffsetType"@) == Json::Str(
                "UINT32"@,
            )
            &&& name == "SurfaceArea"@ || name == "SurfaceAzimuth"@ || name == "SurfaceElevation"@
                ==> told("type"@) == Json::Str("SCALAR"@) && told("componentType"@) == Json::Str(
                "FLOAT32"@,
            )
        }),
{
    lemma_document_keys();
    lemma_table_keys();
    lemma_property_keys();
    let columns = crate::gltf_writer::sections::attribute_columns(m);
    lemma_properties_of_others(columns, name);
    let doc = crate::gltf_writer::writer::tile_document(m, TilesVersion::V1_1, splats);
    let first = crate::gltf_writer::document::properties(Seq::empty());
    if first.contains_key(name) {
        assert(property_of(doc, name) == first[name]);
    }
}

} // verus!

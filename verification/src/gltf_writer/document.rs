//! The glTF document of a tile.

use crate::gltf_writer::attributes::{Attr, AttrType, Column};
use crate::gltf_writer::extents::{extent, finite_extent, word_extent};
use crate::gltf_writer::layout::{BufferView, Piece, PieceUse};
use crate::gltf_writer::mesh::{MeshBuilder, SplatVertex, TilesVersion, Vec3};
use crate::json::{
    json_array, json_bool, json_field, json_float, json_i64, json_null, json_object, json_one,
    json_str, json_u64, no_fields, put, Json,
};
use serde_json::Value;
use vstd::prelude::*;

verus! {

broadcast use crate::json::lemma_jsons_push;

// ------------------------------------------------------ views and accessors

/// A view, as it is written. Vertex data and indices name the kind of buffer
/// they are for; only strided data has a stride.
pub open spec fn view_json(view: BufferView) -> Json {
    let plain = map![
        "buffer"@ => Json::Int(0),
        "byteLength"@ => Json::Int(view.length as int),
        "byteOffset"@ => Json::Int(view.offset as int),
    ];
    match view.purpose {
        PieceUse::Vertices => Json::Obj(plain.insert("target"@, Json::Int(34962))),
        PieceUse::StridedVertices => Json::Obj(
            plain.insert("byteStride"@, Json::Int(4)).insert("target"@, Json::Int(34962)),
        ),
        PieceUse::Indices => Json::Obj(plain.insert("target"@, Json::Int(34963))),
        _ => Json::Obj(plain),
    }
}

/// Some views.
pub open spec fn views_json(views: Seq<BufferView>) -> Json {
    Json::Arr(Seq::new(views.len(), |i: int| view_json(views[i])))
}

fn json_view(view: &BufferView) -> (r: Value)
    ensures
        crate::json::json_of(r) == view_json(*view),
{
    let mut fields = no_fields();
    put(&mut fields, "buffer", json_u64(0));
    put(&mut fields, "byteLength", json_u64(view.length as u64));
    put(&mut fields, "byteOffset", json_u64(view.offset as u64));
    match view.purpose {
        PieceUse::Vertices => {
            put(&mut fields, "target", json_u64(34962));
        },
        PieceUse::StridedVertices => {
            put(&mut fields, "byteStride", json_u64(4));
            put(&mut fields, "target", json_u64(34962));
        },
        PieceUse::Indices => {
            put(&mut fields, "target", json_u64(34963));
        },
        _ => {},
    }
    json_object(fields)
}

fn json_views(views: &[BufferView]) -> (r: Value)
    ensures
        crate::json::json_of(r) == views_json(views@),
{
    let mut items: Vec<Value> = Vec::new();
    let n: usize = views.len();
    let mut i: usize = 0;
    while i < n
        invariant
            i <= n,
            n == views@.len(),
            crate::json::jsons_of(items@) =~= Seq::new(i as nat, |k: int| view_json(views@[k])),
        decreases n - i,
    {
        items.push(json_view(&views[i]));
        i += 1;
    }
    json_array(items)
}

/// An array of three numbers.
pub open spec fn floats_json(a: u32, b: u32, c: u32) -> Json {
    Json::Arr(
        seq![
            crate::json::float_json(a),
            crate::json::float_json(b),
            crate::json::float_json(c),
        ],
    )
}

fn json_floats(a: u32, b: u32, c: u32) -> (r: Value)
    ensures
        crate::json::json_of(r) == floats_json(a, b, c),
{
    let mut items: Vec<Value> = Vec::new();
    items.push(json_float(a));
    items.push(json_float(b));
    items.push(json_float(c));
    proof {
        assert(crate::json::jsons_of(items@) =~= seq![
            crate::json::float_json(a),
            crate::json::float_json(b),
            crate::json::float_json(c),
        ]);
    }
    json_array(items)
}

/// An accessor to the elements in a view.
pub open spec fn accessor_json(view: int, count: int, component: int, shape: Seq<char>) -> Map<
    Seq<char>,
    Json,
> {
    map![
        "bufferView"@ => Json::Int(view),
        "byteOffset"@ => Json::Int(0),
        "count"@ => Json::Int(count),
        "componentType"@ => Json::Int(component),
        "type"@ => Json::Str(shape),
    ]
}

/// An accessor that tells the extent of its elements.
pub open spec fn bounded_accessor_json(
    view: int,
    count: int,
    component: int,
    shape: Seq<char>,
    min: Json,
    max: Json,
) -> Json {
    Json::Obj(
        accessor_json(view, count, component, shape).insert("min"@, min).insert("max"@, max),
    )
}

/// Single precision numbers.
pub const COMPONENT_FLOAT: u64 = 5126;

/// Unsigned 16-bit numbers.
pub const COMPONENT_U16: u64 = 5123;

/// Unsigned 32-bit numbers.
pub const COMPONENT_U32: u64 = 5125;

fn json_accessor(view: u64, count: usize, component: u64, shape: &str) -> (r: serde_json::Map<
    String,
    Value,
>)
    ensures
        crate::json::fields_of(r) == accessor_json(
            view as int,
            count as int,
            component as int,
            shape@,
        ),
{
    let mut fields = no_fields();
    put(&mut fields, "bufferView", json_u64(view));
    put(&mut fields, "byteOffset", json_u64(0));
    put(&mut fields, "count", json_u64(count as u64));
    put(&mut fields, "componentType", json_u64(component));
    put(&mut fields, "type", json_str(shape));
    fields
}

fn json_bounded_accessor(
    view: u64,
    count: usize,
    component: u64,
    shape: &str,
    min: Value,
    max: Value,
) -> (r: Value)
    ensures
        crate::json::json_of(r) == bounded_accessor_json(
            view as int,
            count as int,
            component as int,
            shape@,
            crate::json::json_of(min),
            crate::json::json_of(max),
        ),
{
    let mut fields = json_accessor(view, count, component, shape);
    put(&mut fields, "min", min);
    put(&mut fields, "max", max);
    json_object(fields)
}

/// The accessors of the mesh: positions, normals, colors, surface numbers and
/// indices.
pub open spec fn mesh_accessors(m: MeshBuilder) -> Seq<Json> {
    let p = m.positions@;
    seq![
        bounded_accessor_json(
            0,
            p.len() as int,
            COMPONENT_FLOAT as int,
            "VEC3"@,
            floats_json(crate::gltf_writer::extents::lowest(crate::gltf_writer::extents::along(p, 0)), crate::gltf_writer::extents::lowest(crate::gltf_writer::extents::along(p, 1)), crate::gltf_writer::extents::lowest(crate::gltf_writer::extents::along(p, 2))),
            floats_json(crate::gltf_writer::extents::highest(crate::gltf_writer::extents::along(p, 0)), crate::gltf_writer::extents::highest(crate::gltf_writer::extents::along(p, 1)), crate::gltf_writer::extents::highest(crate::gltf_writer::extents::along(p, 2))),
        ),
        Json::Obj(accessor_json(1, m.normals@.len() as int, COMPONENT_FLOAT as int, "VEC3"@)),
        Json::Obj(accessor_json(2, m.colors@.len() as int, COMPONENT_FLOAT as int, "VEC4"@)),
        bounded_accessor_json(
            3,
            m.batch_ids@.len() as int,
            COMPONENT_U16 as int,
            "SCALAR"@,
            Json::Arr(seq![Json::Int(crate::gltf_writer::extents::smallest(m.batch_ids@) as int)]),
            Json::Arr(seq![Json::Int(crate::gltf_writer::extents::largest(m.batch_ids@) as int)]),
        ),
        bounded_accessor_json(
            4,
            m.indices@.len() as int,
            COMPONENT_U32 as int,
            "SCALAR"@,
            Json::Arr(seq![Json::Int(0)]),
            Json::Arr(seq![Json::Int(crate::gltf_writer::extents::largest(m.indices@) as int)]),
        ),
    ]
}

/// The positions of splats.
pub open spec fn splat_positions(splats: Seq<SplatVertex>) -> Seq<Vec3> {
    Seq::new(splats.len(), |i: int| splats[i].position)
}

/// The positions of splats.
pub(crate) fn positions_of(splats: &[SplatVertex]) -> (r: Vec<Vec3>)
    ensures
        r@ == splat_positions(splats@),
{
    let mut r: Vec<Vec3> = Vec::new();
    let n: usize = splats.len();
    let mut i: usize = 0;
    while i < n
        invariant
            i <= n,
            n == splats@.len(),
            r@ =~= splat_positions(splats@).take(i as int),
        decreases n - i,
    {
        r.push(splats[i].position);
        i += 1;
    }
    r
}

/// The accessors of the splats, whose views begin at `base`: positions,
/// colors, rotations, scales, opacities and color coefficients.
pub open spec fn splat_accessors(splats: Seq<SplatVertex>, base: int) -> Seq<Json> {
    let n = splats.len() as int;
    seq![
        bounded_accessor_json(
            base,
            n,
            COMPONENT_FLOAT as int,
            "VEC3"@,
            floats_json(
                crate::gltf_writer::extents::lowest_finite(crate::gltf_writer::extents::along(splat_positions(splats), 0)),
                crate::gltf_writer::extents::lowest_finite(crate::gltf_writer::extents::along(splat_positions(splats), 1)),
                crate::gltf_writer::extents::lowest_finite(crate::gltf_writer::extents::along(splat_positions(splats), 2)),
            ),
            floats_json(
                crate::gltf_writer::extents::highest_finite(crate::gltf_writer::extents::along(splat_positions(splats), 0)),
                crate::gltf_writer::extents::highest_finite(crate::gltf_writer::extents::along(splat_positions(splats), 1)),
                crate::gltf_writer::extents::highest_finite(crate::gltf_writer::extents::along(splat_positions(splats), 2)),
            ),
        ),
        Json::Obj(accessor_json(base + 1, n, COMPONENT_FLOAT as int, "VEC4"@)),
        Json::Obj(accessor_json(base + 2, n, COMPONENT_FLOAT as int, "VEC4"@)),
        Json::Obj(accessor_json(base + 3, n, COMPONENT_FLOAT as int, "VEC3"@)),
        Json::Obj(accessor_json(base + 4, n, COMPONENT_FLOAT as int, "SCALAR"@)),
        Json::Obj(accessor_json(base + 5, n, COMPONENT_FLOAT as int, "VEC3"@)),
    ]
}

fn push_mesh_accessors(items: &mut Vec<Value>, m: &MeshBuilder)
    ensures
        crate::json::jsons_of(final(items)@) == crate::json::jsons_of(old(items)@)
            + mesh_accessors(*m),
{
    let positions = m.positions.as_slice();
    let (x0, x1) = extent(positions, 0);
    let (y0, y1) = extent(positions, 1);
    let (z0, z1) = extent(positions, 2);
    let ghost before = crate::json::jsons_of(items@);
    items.push(
        json_bounded_accessor(
            0,
            m.positions.len(),
            COMPONENT_FLOAT,
            "VEC3",
            json_floats(x0, y0, z0),
            json_floats(x1, y1, z1),
        ),
    );
    items.push(json_object(json_accessor(1, m.normals.len(), COMPONENT_FLOAT, "VEC3")));
    items.push(json_object(json_accessor(2, m.colors.len(), COMPONENT_FLOAT, "VEC4")));
    let (b0, b1) = word_extent(m.batch_ids.as_slice());
    items.push(
        json_bounded_accessor(
            3,
            m.batch_ids.len(),
            COMPONENT_U16,
            "SCALAR",
            json_one(json_u64(b0 as u64)),
            json_one(json_u64(b1 as u64)),
        ),
    );
    let (i0, i1) = word_extent(m.indices.as_slice());
    items.push(
        json_bounded_accessor(
            4,
            m.indices.len(),
            COMPONENT_U32,
            "SCALAR",
            json_one(json_u64(0)),
            json_one(json_u64(i1 as u64)),
        ),
    );
    assert(crate::json::jsons_of(items@) =~= before + mesh_accessors(*m));
}

fn push_splat_accessors(items: &mut Vec<Value>, splats: &[SplatVertex], base: u64)
    requires
        base <= u64::MAX - 5,
    ensures
        crate::json::jsons_of(final(items)@) == crate::json::jsons_of(old(items)@)
            + splat_accessors(splats@, base as int),
{
    let positions = positions_of(splats);
    let (x0, x1) = finite_extent(positions.as_slice(), 0);
    let (y0, y1) = finite_extent(positions.as_slice(), 1);
    let (z0, z1) = finite_extent(positions.as_slice(), 2);
    let n: usize = splats.len();
    let ghost before = crate::json::jsons_of(items@);
    items.push(
        json_bounded_accessor(
            base,
            n,
            COMPONENT_FLOAT,
            "VEC3",
            json_floats(x0, y0, z0),
            json_floats(x1, y1, z1),
        ),
    );
    items.push(json_object(json_accessor(base + 1, n, COMPONENT_FLOAT, "VEC4")));
    items.push(json_object(json_accessor(base + 2, n, COMPONENT_FLOAT, "VEC4")));
    items.push(json_object(json_accessor(base + 3, n, COMPONENT_FLOAT, "VEC3")));
    items.push(json_object(json_accessor(base + 4, n, COMPONENT_FLOAT, "SCALAR")));
    items.push(json_object(json_accessor(base + 5, n, COMPONENT_FLOAT, "VEC3")));
    assert(crate::json::jsons_of(items@) =~= before + splat_accessors(splats@, base as int));
}

// ------------------------------------------------------------- primitives

/// The name of the vertex attribute that holds the number of a surface.
pub open spec fn surface_attribute(version: TilesVersion) -> Seq<char> {
    match version {
        TilesVersion::V1_1 => "_FEATURE_ID_0"@,
        TilesVersion::V1_0 => "_BATCHID"@,
    }
}

/// The triangles of the mesh. In version 1.1 the numbers of the surfaces refer
/// to the rows of a property table; 65535 stands for no row.
pub open spec fn mesh_primitive(m: MeshBuilder, version: TilesVersion) -> Json {
    let plain = map![
        "attributes"@ => Json::Obj(map![
            "POSITION"@ => Json::Int(0),
            "NORMAL"@ => Json::Int(1),
            "COLOR_0"@ => Json::Int(2),
            surface_attribute(version) => Json::Int(3),
        ]),
        "indices"@ => Json::Int(4),
        "material"@ => Json::Int(0),
        "mode"@ => Json::Int(4),
    ];
    match version {
        TilesVersion::V1_1 => Json::Obj(
            plain.insert(
                "extensions"@,
                Json::Obj(map![
                    "EXT_mesh_features"@ => Json::Obj(map![
                        "featureIds"@ => Json::Arr(seq![
                            Json::Obj(map![
                                "attribute"@ => Json::Int(0),
                                "featureCount"@ => Json::Int(m.next_batch_index as int),
                                "nullFeatureId"@ => Json::Int(65535),
                                "propertyTable"@ => Json::Int(0),
                            ]),
                        ]),
                    ]),
                ]),
            ),
        ),
        TilesVersion::V1_0 => Json::Obj(plain),
    }
}

fn json_mesh_primitive(m: &MeshBuilder, version: TilesVersion) -> (r: Value)
    ensures
        crate::json::json_of(r) == mesh_primitive(*m, version),
{
    let mut attributes = no_fields();
    put(&mut attributes, "POSITION", json_u64(0));
    put(&mut attributes, "NORMAL", json_u64(1));
    put(&mut attributes, "COLOR_0", json_u64(2));
    match version {
        TilesVersion::V1_1 => {
            put(&mut attributes, "_FEATURE_ID_0", json_u64(3));
        },
        TilesVersion::V1_0 => {
            put(&mut attributes, "_BATCHID", json_u64(3));
        },
    }
    let mut primitive = no_fields();
    put(&mut primitive, "attributes", json_object(attributes));
    put(&mut primitive, "indices", json_u64(4));
    put(&mut primitive, "material", json_u64(0));
    put(&mut primitive, "mode", json_u64(4));
    match version {
        TilesVersion::V1_1 => {
            let mut ids = no_fields();
            put(&mut ids, "attribute", json_u64(0));
            put(&mut ids, "featureCount", json_u64(m.next_batch_index as u64));
            put(&mut ids, "nullFeatureId", json_u64(65535));
            put(&mut ids, "propertyTable", json_u64(0));
            let features = json_field("featureIds", json_one(json_object(ids)));
            put(&mut primitive, "extensions", json_field("EXT_mesh_features", features));
        },
        TilesVersion::V1_0 => {},
    }
    json_object(primitive)
}

/// The points of the splats. `accessor` is the number of their first accessor,
/// `material` that of their material.
pub open spec fn splat_primitive(accessor: int, material: int) -> Json {
    Json::Obj(map![
        "attributes"@ => Json::Obj(map![
            "POSITION"@ => Json::Int(accessor),
            "COLOR_0"@ => Json::Int(accessor + 1),
        ]),
        "material"@ => Json::Int(material),
        "mode"@ => Json::Int(0),
        "extensions"@ => Json::Obj(map![
            "KHR_gaussian_splatting"@ => Json::Obj(map![
                "kernel"@ => Json::Str("ellipse"@),
                "colorSpace"@ => Json::Str("sh"@),
                "attributes"@ => Json::Obj(map![
                    "ROTATION"@ => Json::Int(accessor + 2),
                    "SCALE"@ => Json::Int(accessor + 3),
                    "OPACITY"@ => Json::Int(accessor + 4),
                    "SH_DEGREE_0_COEF_0"@ => Json::Int(accessor + 5),
                ]),
            ]),
        ]),
    ])
}

fn json_splat_primitive(accessor: u64, material: u64) -> (r: Value)
    requires
        accessor <= u64::MAX - 5,
    ensures
        crate::json::json_of(r) == splat_primitive(accessor as int, material as int),
{
    let mut attributes = no_fields();
    put(&mut attributes, "POSITION", json_u64(accessor));
    put(&mut attributes, "COLOR_0", json_u64(accessor + 1));
    let mut more = no_fields();
    put(&mut more, "ROTATION", json_u64(accessor + 2));
    put(&mut more, "SCALE", json_u64(accessor + 3));
    put(&mut more, "OPACITY", json_u64(accessor + 4));
    put(&mut more, "SH_DEGREE_0_COEF_0", json_u64(accessor + 5));
    let mut splatting = no_fields();
    put(&mut splatting, "kernel", json_str("ellipse"));
    put(&mut splatting, "colorSpace", json_str("sh"));
    put(&mut splatting, "attributes", json_object(more));
    let mut primitive = no_fields();
    put(&mut primitive, "attributes", json_object(attributes));
    put(&mut primitive, "material", json_u64(material));
    put(&mut primitive, "mode", json_u64(0));
    put(
        &mut primitive,
        "extensions",
        json_field("KHR_gaussian_splatting", json_object(splatting)),
    );
    json_object(primitive)
}

// -------------------------------------------------------------- materials

/// An array of small whole numbers.
pub open spec fn whole_json(numbers: Seq<i64>) -> Json {
    Json::Arr(Seq::new(numbers.len(), |i: int| Json::Int(numbers[i] as int)))
}

fn json_whole(numbers: &[i64]) -> (r: Value)
    ensures
        crate::json::json_of(r) == whole_json(numbers@),
{
    let mut items: Vec<Value> = Vec::new();
    let n: usize = numbers.len();
    let mut i: usize = 0;
    while i < n
        invariant
            i <= n,
            n == numbers@.len(),
            crate::json::jsons_of(items@) =~= Seq::new(
                i as nat,
                |k: int| Json::Int(numbers@[k] as int),
            ),
        decreases n - i,
    {
        items.push(json_i64(numbers[i]));
        i += 1;
    }
    json_array(items)
}

/// The white material of the mesh, before its factors are set; the vertices
/// bring the colors.
pub open spec fn mesh_material() -> Json {
    Json::Obj(map![
        "pbrMetallicRoughness"@ => Json::Obj(map![
            "baseColorFactor"@ => whole_json(seq![1i64, 1i64, 1i64, 1i64]),
        ]),
        "emissiveFactor"@ => whole_json(seq![0i64, 0i64, 0i64]),
        "alphaMode"@ => Json::Str("OPAQUE"@),
        "doubleSided"@ => Json::Bool(true),
    ])
}

/// Creates the material of the mesh.
fn create_material() -> (r: Value)
    ensures
        crate::json::json_of(r) == mesh_material(),
{
    let white: Vec<i64> = vec![1, 1, 1, 1];
    let black: Vec<i64> = vec![0, 0, 0];
    assert(white@ =~= seq![1i64, 1i64, 1i64, 1i64]);
    assert(black@ =~= seq![0i64, 0i64, 0i64]);
    let mut pbr = no_fields();
    put(&mut pbr, "baseColorFactor", json_whole(white.as_slice()));
    let mut material = no_fields();
    put(&mut material, "pbrMetallicRoughness", json_object(pbr));
    put(&mut material, "emissiveFactor", json_whole(black.as_slice()));
    put(&mut material, "alphaMode", json_str("OPAQUE"));
    put(&mut material, "doubleSided", json_bool(true));
    json_object(material)
}

/// The unlit material of the splats.
pub open spec fn splat_material() -> Json {
    Json::Obj(map![
        "pbrMetallicRoughness"@ => Json::Obj(map![
            "baseColorFactor"@ => whole_json(seq![1i64, 1i64, 1i64, 1i64]),
            "metallicFactor"@ => Json::Int(0),
            "roughnessFactor"@ => Json::Int(1),
        ]),
        "alphaMode"@ => Json::Str("OPAQUE"@),
        "doubleSided"@ => Json::Bool(true),
        "extensions"@ => Json::Obj(map![
            "KHR_materials_unlit"@ => Json::Obj(crate::json::empty_fields()),
        ]),
    ])
}

fn json_splat_material() -> (r: Value)
    ensures
        crate::json::json_of(r) == splat_material(),
{
    let white: Vec<i64> = vec![1, 1, 1, 1];
    assert(white@ =~= seq![1i64, 1i64, 1i64, 1i64]);
    let mut pbr = no_fields();
    put(&mut pbr, "baseColorFactor", json_whole(white.as_slice()));
    put(&mut pbr, "metallicFactor", json_u64(0));
    put(&mut pbr, "roughnessFactor", json_u64(1));
    let mut material = no_fields();
    put(&mut material, "pbrMetallicRoughness", json_object(pbr));
    put(&mut material, "alphaMode", json_str("OPAQUE"));
    put(&mut material, "doubleSided", json_bool(true));
    put(&mut material, "extensions", json_field("KHR_materials_unlit", json_object(no_fields())));
    json_object(material)
}

// --------------------------------------------------------------- metadata

/// A property of texts.
pub open spec fn text_property() -> Json {
    Json::Obj(map![
        "type"@ => Json::Str("STRING"@),
        "stringOffsetType"@ => Json::Str("UINT32"@),
    ])
}

/// A property of single precision numbers.
pub open spec fn measure_property() -> Json {
    Json::Obj(map![
        "type"@ => Json::Str("SCALAR"@),
        "componentType"@ => Json::Str("FLOAT32"@),
    ])
}

/// The property of an attribute column, with the value that stands for no
/// data. NaN has no place in JSON and becomes null.
pub open spec fn column_property(kind: AttrType) -> Json {
    match kind {
        AttrType::String => Json::Obj(map![
            "type"@ => Json::Str("STRING"@),
            "stringOffsetType"@ => Json::Str("UINT32"@),
            "noData"@ => Json::Str(""@),
        ]),
        AttrType::Float32 => Json::Obj(map![
            "type"@ => Json::Str("SCALAR"@),
            "componentType"@ => Json::Str("FLOAT32"@),
            "noData"@ => Json::Null,
        ]),
        AttrType::Int32 => Json::Obj(map![
            "type"@ => Json::Str("SCALAR"@),
            "componentType"@ => Json::Str("INT32"@),
            "noData"@ => Json::Int(i32::MIN as int),
        ]),
        AttrType::Boolean => Json::Obj(map![
            "type"@ => Json::Str("BOOLEAN"@),
            "noData"@ => Json::Int(255),
        ]),
    }
}

/// Where the values of a text property are: in view `values`, with their
/// offsets in the next.
pub open spec fn text_place(values: int) -> Json {
    Json::Obj(map![
        "values"@ => Json::Int(values),
        "stringOffsets"@ => Json::Int(values + 1),
    ])
}

/// Where the values of another property are.
pub open spec fn plain_place(values: int) -> Json {
    Json::Obj(map!["values"@ => Json::Int(values)])
}

/// Where the values of an attribute column are.
pub open spec fn column_place(kind: AttrType, values: int) -> Json {
    match kind {
        AttrType::String => text_place(values),
        _ => plain_place(values),
    }
}

/// How many views some columns take up.
pub open spec fn columns_views(columns: Seq<(Seq<char>, AttrType)>) -> int
    decreases columns.len(),
{
    if columns.len() == 0 {
        0
    } else {
        columns_views(columns.drop_last()) + if columns.last().1 == AttrType::String {
            2int
        } else {
            1int
        }
    }
}

/// The properties that every surface has, and those of the columns. A column
/// takes the place of a property of the same name.
pub open spec fn properties(columns: Seq<(Seq<char>, AttrType)>) -> Map<Seq<char>, Json>
    decreases columns.len(),
{
    if columns.len() == 0 {
        map![
            "BuildingId"@ => text_property(),
            "CityObjectType"@ => text_property(),
            "SurfaceType"@ => text_property(),
            "SurfaceArea"@ => measure_property(),
            "SurfaceAzimuth"@ => measure_property(),
            "SurfaceElevation"@ => measure_property(),
        ]
    } else {
        properties(columns.drop_last()).insert(columns.last().0, column_property(columns.last().1))
    }
}

/// Where the values of the properties are. The first five views are those of
/// the mesh; those of the columns begin at 14.
pub open spec fn places(columns: Seq<(Seq<char>, AttrType)>) -> Map<Seq<char>, Json>
    decreases columns.len(),
{
    if columns.len() == 0 {
        map![
            "BuildingId"@ => text_place(5),
            "CityObjectType"@ => text_place(7),
            "SurfaceType"@ => text_place(9),
            "SurfaceArea"@ => plain_place(11),
            "SurfaceAzimuth"@ => plain_place(12),
            "SurfaceElevation"@ => plain_place(13),
        ]
    } else {
        places(columns.drop_last()).insert(
            columns.last().0,
            column_place(columns.last().1, 14 + columns_views(columns.drop_last())),
        )
    }
}

/// The extension that describes the table of surfaces.
pub open spec fn metadata_json(count: int, columns: Seq<(Seq<char>, AttrType)>) -> Json {
    Json::Obj(map![
        "EXT_structural_metadata"@ => Json::Obj(map![
            "schema"@ => Json::Obj(map![
                "classes"@ => Json::Obj(map![
                    "Feature"@ => Json::Obj(map!["properties"@ => Json::Obj(properties(columns))]),
                ]),
            ]),
            "propertyTables"@ => Json::Arr(seq![
                Json::Obj(map![
                    "class"@ => Json::Str("Feature"@),
                    "count"@ => Json::Int(count),
                    "properties"@ => Json::Obj(places(columns)),
                ]),
            ]),
        ]),
    ])
}

fn json_text_property() -> (r: Value)
    ensures
        crate::json::json_of(r) == text_property(),
{
    let mut fields = no_fields();
    put(&mut fields, "type", json_str("STRING"));
    put(&mut fields, "stringOffsetType", json_str("UINT32"));
    json_object(fields)
}

fn json_measure_property() -> (r: Value)
    ensures
        crate::json::json_of(r) == measure_property(),
{
    let mut fields = no_fields();
    put(&mut fields, "type", json_str("SCALAR"));
    put(&mut fields, "componentType", json_str("FLOAT32"));
    json_object(fields)
}

fn json_column_property(kind: AttrType) -> (r: Value)
    ensures
        crate::json::json_of(r) == column_property(kind),
{
    let mut fields = no_fields();
    match kind {
        AttrType::String => {
            put(&mut fields, "type", json_str("STRING"));
            put(&mut fields, "stringOffsetType", json_str("UINT32"));
            put(&mut fields, "noData", json_str(""));
        },
        AttrType::Float32 => {
            put(&mut fields, "type", json_str("SCALAR"));
            put(&mut fields, "componentType", json_str("FLOAT32"));
            put(&mut fields, "noData", json_null());
        },
        AttrType::Int32 => {
            put(&mut fields, "type", json_str("SCALAR"));
            put(&mut fields, "componentType", json_str("INT32"));
            put(&mut fields, "noData", json_i64(i32::MIN as i64));
        },
        AttrType::Boolean => {
            put(&mut fields, "type", json_str("BOOLEAN"));
            put(&mut fields, "noData", json_u64(255));
        },
    }
    json_object(fields)
}

fn json_text_place(values: u64) -> (r: Value)
    requires
        values < u64::MAX,
    ensures
        crate::json::json_of(r) == text_place(values as int),
{
    let mut fields = no_fields();
    put(&mut fields, "values", json_u64(values));
    put(&mut fields, "stringOffsets", json_u64(values + 1));
    json_object(fields)
}

/// Fewer columns take up fewer views.
pub proof fn lemma_columns_views_grow(columns: Seq<(Seq<char>, AttrType)>, n: int)
    requires
        0 <= n <= columns.len(),
    ensures
        0 <= columns_views(columns.take(n)) <= columns_views(columns),
    decreases columns.len(),
{
    if n == columns.len() {
        assert(columns.take(n) =~= columns);
        if n > 0 {
            lemma_columns_views_grow(columns.drop_last(), n - 1);
        }
    } else {
        assert(columns.drop_last().take(n) =~= columns.take(n));
        lemma_columns_views_grow(columns.drop_last(), n);
    }
}

fn json_metadata(count: usize, columns: &[Column]) -> (r: Value)
    requires
        14 + columns_views(crate::gltf_writer::attributes::columns_of(columns@)) <= u64::MAX,
    ensures
        crate::json::json_of(r) == metadata_json(
            count as int,
            crate::gltf_writer::attributes::columns_of(columns@),
        ),
{
    let ghost list = crate::gltf_writer::attributes::columns_of(columns@);
    let mut props = no_fields();
    put(&mut props, "BuildingId", json_text_property());
    put(&mut props, "CityObjectType", json_text_property());
    put(&mut props, "SurfaceType", json_text_property());
    put(&mut props, "SurfaceArea", json_measure_property());
    put(&mut props, "SurfaceAzimuth", json_measure_property());
    put(&mut props, "SurfaceElevation", json_measure_property());
    let mut table = no_fields();
    put(&mut table, "BuildingId", json_text_place(5));
    put(&mut table, "CityObjectType", json_text_place(7));
    put(&mut table, "SurfaceType", json_text_place(9));
    put(&mut table, "SurfaceArea", json_field("values", json_u64(11)));
    put(&mut table, "SurfaceAzimuth", json_field("values", json_u64(12)));
    put(&mut table, "SurfaceElevation", json_field("values", json_u64(13)));
    let n: usize = columns.len();
    let mut next: u64 = 14;
    let mut i: usize = 0;
    while i < n
        invariant
            i <= n,
            n == columns@.len(),
            14 + columns_views(list) <= u64::MAX,
            list == crate::gltf_writer::attributes::columns_of(columns@),
            next == 14 + columns_views(list.take(i as int)),
            crate::json::fields_of(props) == properties(list.take(i as int)),
            crate::json::fields_of(table) == places(list.take(i as int)),
        decreases n - i,
    {
        proof {
            assert(list.take(i + 1).drop_last() =~= list.take(i as int));
            assert(list.take(i + 1).last() == columns@[i as int]@);
            lemma_columns_views_grow(list, i + 1);
        }
        let column = &columns[i];
        let kind = column.kind();
        put(&mut props, column.name(), json_column_property(kind));
        match kind {
            AttrType::String => {
                put(&mut table, column.name(), json_text_place(next));
                next += 2;
            },
            _ => {
                put(&mut table, column.name(), json_field("values", json_u64(next)));
                next += 1;
            },
        }
        i += 1;
    }
    assert(list.take(n as int) =~= list);
    let class = json_field("properties", json_object(props));
    let mut rows = no_fields();
    put(&mut rows, "class", json_str("Feature"));
    put(&mut rows, "count", json_u64(count as u64));
    put(&mut rows, "properties", json_object(table));
    let mut metadata = no_fields();
    put(&mut metadata, "schema", json_field("classes", json_field("Feature", class)));
    put(&mut metadata, "propertyTables", json_one(json_object(rows)));
    json_field("EXT_structural_metadata", json_object(metadata))
}

// -------------------------------------------------------------- documents

/// What the document is made of besides the views: the mesh comes before the
/// splats in every list.
pub open spec fn accessors(m: MeshBuilder, splats: Seq<SplatVertex>, view_count: int) -> Seq<Json> {
    (if m.has_mesh() {
        mesh_accessors(m)
    } else {
        Seq::empty()
    }) + (if splats.len() > 0 {
        splat_accessors(splats, view_count - 6)
    } else {
        Seq::empty()
    })
}

/// The primitives of the only mesh.
pub open spec fn primitives(m: MeshBuilder, version: TilesVersion, splats: Seq<SplatVertex>) -> Seq<
    Json,
> {
    (if m.has_mesh() {
        seq![mesh_primitive(m, version)]
    } else {
        Seq::empty()
    }) + (if splats.len() > 0 {
        if m.has_mesh() {
            seq![splat_primitive(5, 1)]
        } else {
            seq![splat_primitive(0, 0)]
        }
    } else {
        Seq::empty()
    })
}

/// The materials of the primitives.
pub open spec fn materials(m: MeshBuilder, splats: Seq<SplatVertex>) -> Seq<Json> {
    (if m.has_mesh() {
        seq![mesh_material()]
    } else {
        Seq::empty()
    }) + (if splats.len() > 0 {
        seq![splat_material()]
    } else {
        Seq::empty()
    })
}

/// The extensions that the document uses.
pub open spec fn extensions_used(
    m: MeshBuilder,
    version: TilesVersion,
    splats: Seq<SplatVertex>,
) -> Seq<Json> {
    (if m.has_mesh() && version == TilesVersion::V1_1 {
        seq![Json::Str("EXT_mesh_features"@), Json::Str("EXT_structural_metadata"@)]
    } else {
        Seq::empty()
    }) + (if splats.len() > 0 {
        seq![Json::Str("KHR_gaussian_splatting"@), Json::Str("KHR_materials_unlit"@)]
    } else {
        Seq::empty()
    })
}

/// The turn from z up to y up, column by column.
pub open spec fn y_up_matrix() -> Seq<i64> {
    seq![
        1i64, 0i64, 0i64, 0i64,
        0i64, 0i64, -1i64, 0i64,
        0i64, 1i64, 0i64, 0i64,
        0i64, 0i64, 0i64, 1i64,
    ]
}

/// The document of a tile whose buffer has `size` bytes.
pub open spec fn document(
    m: MeshBuilder,
    version: TilesVersion,
    splats: Seq<SplatVertex>,
    views: Seq<BufferView>,
    size: int,
) -> Json {
    let plain = map![
        "asset"@ => Json::Obj(map![
            "version"@ => Json::Str("2.0"@),
            "generator"@ => Json::Str("tyler"@),
        ]),
        "accessors"@ => Json::Arr(accessors(m, splats, views.len() as int)),
        "buffers"@ => Json::Arr(seq![
            Json::Obj(map![
                "byteLength"@ => Json::Int(size),
                "name"@ => Json::Str("buffer0"@),
            ]),
        ]),
        "bufferViews"@ => views_json(views),
        "materials"@ => Json::Arr(materials(m, splats)),
        "meshes"@ => Json::Arr(seq![
            Json::Obj(map!["primitives"@ => Json::Arr(primitives(m, version, splats))]),
        ]),
        "nodes"@ => Json::Arr(seq![
            Json::Obj(map![
                "mesh"@ => Json::Int(0),
                "matrix"@ => whole_json(y_up_matrix()),
            ]),
        ]),
        "scenes"@ => Json::Arr(seq![
            Json::Obj(map!["nodes"@ => Json::Arr(seq![Json::Int(0)])]),
        ]),
        "scene"@ => Json::Int(0),
        "extensionsUsed"@ => Json::Arr(extensions_used(m, version, splats)),
    ];
    if m.has_mesh() && version == TilesVersion::V1_1 {
        Json::Obj(
            plain.insert(
                "extensions"@,
                metadata_json(
                    m.batch_id_to_cityobject_id@.len() as int,
                    crate::gltf_writer::sections::attribute_columns(m),
                ),
            ),
        )
    } else {
        Json::Obj(plain)
    }
}

/// The materials of the document of a tile.
pub(crate) proof fn lemma_document_materials(
    m: MeshBuilder,
    version: TilesVersion,
    splats: Seq<SplatVertex>,
    views: Seq<BufferView>,
    size: int,
)
    ensures
        crate::json::materials_in(document(m, version, splats, views, size)) == materials(m, splats),
{
    reveal_strlit("materials");
    reveal_strlit("meshes");
    reveal_strlit("nodes");
    reveal_strlit("scenes");
    reveal_strlit("scene");
    reveal_strlit("extensionsUsed");
    reveal_strlit("extensions");
    assert("materials"@.len() == 9);
    assert("meshes"@.len() == 6 && "nodes"@.len() == 5 && "scenes"@.len() == 6);
    assert("scene"@.len() == 5 && "extensionsUsed"@.len() == 14 && "extensions"@.len() == 10);
}

fn json_matrix() -> (r: Value)
    ensures
        crate::json::json_of(r) == whole_json(y_up_matrix()),
{
    let matrix: Vec<i64> = vec![1, 0, 0, 0, 0, 0, -1, 0, 0, 1, 0, 0, 0, 0, 0, 1];
    assert(matrix@ =~= y_up_matrix());
    json_whole(matrix.as_slice())
}

/// Builds the document of a tile.
pub(crate) fn build_document(
    m: &MeshBuilder,
    version: TilesVersion,
    splats: &[SplatVertex],
    views: &[BufferView],
    size: usize,
    columns: &[Column],
) -> (r: Value)
    requires
        splats@.len() > 0 ==> views@.len() >= 6,
        m.has_mesh() && version == TilesVersion::V1_1 ==> {
            let list = crate::gltf_writer::attributes::columns_of(columns@);
            &&& list == crate::gltf_writer::sections::attribute_columns(*m)
            &&& 14 + columns_views(list) <= views@.len()
        },
    ensures
        crate::json::json_of(r) == document(*m, version, splats@, views@, size as int),
{
    let has_mesh = m.positions.len() > 0;
    let has_splats = splats.len() > 0;
    let mut accessor_list: Vec<Value> = Vec::new();
    let mut primitive_list: Vec<Value> = Vec::new();
    let mut material_list: Vec<Value> = Vec::new();
    let mut used: Vec<Value> = Vec::new();
    assert(crate::json::jsons_of(accessor_list@) =~= Seq::<Json>::empty());
    if has_mesh {
        push_mesh_accessors(&mut accessor_list, m);
        primitive_list.push(json_mesh_primitive(m, version));
        material_list.push(create_material());
        if version == TilesVersion::V1_1 {
            used.push(json_str("EXT_mesh_features"));
            used.push(json_str("EXT_structural_metadata"));
        }
    }
    if has_splats {
        push_splat_accessors(&mut accessor_list, splats, (views.len() - 6) as u64);
        if has_mesh {
            primitive_list.push(json_splat_primitive(5, 1));
        } else {
            primitive_list.push(json_splat_primitive(0, 0));
        }
        material_list.push(json_splat_material());
        used.push(json_str("KHR_gaussian_splatting"));
        used.push(json_str("KHR_materials_unlit"));
    }
    proof {
        assert(crate::json::jsons_of(accessor_list@) =~= accessors(
            *m,
            splats@,
            views@.len() as int,
        ));
        assert(crate::json::jsons_of(primitive_list@) =~= primitives(*m, version, splats@));
        assert(crate::json::jsons_of(material_list@) =~= materials(*m, splats@));
        assert(crate::json::jsons_of(used@) =~= extensions_used(*m, version, splats@));
    }
    let mut asset = no_fields();
    put(&mut asset, "version", json_str("2.0"));
    put(&mut asset, "generator", json_str("tyler"));
    let mut buffer = no_fields();
    put(&mut buffer, "byteLength", json_u64(size as u64));
    put(&mut buffer, "name", json_str("buffer0"));
    let mut node = no_fields();
    put(&mut node, "mesh", json_u64(0));
    put(&mut node, "matrix", json_matrix());
    let mut root = no_fields();
    put(&mut root, "asset", json_object(asset));
    put(&mut root, "accessors", json_array(accessor_list));
    put(&mut root, "buffers", json_one(json_object(buffer)));
    put(&mut root, "bufferViews", json_views(views));
    put(&mut root, "materials", json_array(material_list));
    put(&mut root, "meshes", json_one(json_field("primitives", json_array(primitive_list))));
    put(&mut root, "nodes", json_one(json_object(node)));
    put(&mut root, "scenes", json_one(json_field("nodes", json_one(json_u64(0)))));
    put(&mut root, "scene", json_u64(0));
    put(&mut root, "extensionsUsed", json_array(used));
    if has_mesh && version == TilesVersion::V1_1 {
        assert(views.len() <= usize::MAX);
        put(
            &mut root,
            "extensions",
            json_metadata(m.batch_id_to_cityobject_id.len(), columns),
        );
    }
    json_object(root)
}

// -------------------------------------------------------------------- laws

pub(crate) proof fn lemma_view_count_add(a: Seq<Piece>, b: Seq<Piece>)
    ensures
        crate::gltf_writer::layout::view_count(a + b) == crate::gltf_writer::layout::view_count(a)
            + crate::gltf_writer::layout::view_count(b),
    decreases b.len(),
{
    if b.len() == 0 {
        assert(a + b =~= a);
    } else {
        assert((a + b).drop_last() =~= a + b.drop_last());
        lemma_view_count_add(a, b.drop_last());
    }
}

pub(crate) proof fn lemma_columns_view_count(
    rows: Seq<Map<Seq<char>, Attr>>,
    columns: Seq<(Seq<char>, AttrType)>,
)
    ensures
        crate::gltf_writer::layout::view_count(
            crate::gltf_writer::sections::columns_pieces(rows, columns),
        ) == columns_views(columns),
    decreases columns.len(),
{
    reveal_with_fuel(crate::gltf_writer::layout::view_count, 3);
    if columns.len() > 0 {
        lemma_columns_view_count(rows, columns.drop_last());
        lemma_view_count_add(
            crate::gltf_writer::sections::columns_pieces(rows, columns.drop_last()),
            crate::gltf_writer::sections::column_pieces(rows, columns.last()),
        );
    }
}

/// The pieces before those of the attribute columns: of the mesh, of the three
/// string tables and of the three measures.
pub open spec fn fixed_pieces(m: MeshBuilder) -> Seq<Piece> {
    crate::gltf_writer::sections::mesh_pieces(m) + (
    crate::gltf_writer::sections::table_pieces(
        crate::json::texts_of(m.batch_id_to_cityobject_id@),
    ) + crate::gltf_writer::sections::table_pieces(
        crate::json::texts_of(m.batch_id_to_cityobject_type@),
    ) + crate::gltf_writer::sections::table_pieces(
        crate::json::texts_of(m.batch_id_to_surface_type@),
    ) + crate::gltf_writer::sections::measure_pieces(m))
}

/// Where every piece has a use, each gets a view.
pub(crate) proof fn lemma_view_count_all(pieces: Seq<Piece>)
    requires
        forall|k: int| 0 <= k < pieces.len() ==> !((#[trigger] pieces[k]).purpose is Alignment),
    ensures
        crate::gltf_writer::layout::view_count(pieces) == pieces.len(),
    decreases pieces.len(),
{
    if pieces.len() > 0 {
        assert(pieces[pieces.len() - 1] == pieces.last());
        assert forall|k: int| 0 <= k < pieces.drop_last().len() implies !((
        #[trigger] pieces.drop_last()[k]).purpose is Alignment) by {
            assert(pieces.drop_last()[k] == pieces[k]);
        }
        lemma_view_count_all(pieces.drop_last());
    }
}

pub(crate) proof fn lemma_fixed_view_count(m: MeshBuilder)
    ensures
        crate::gltf_writer::layout::view_count(crate::gltf_writer::sections::mesh_pieces(m)) == 5,
        crate::gltf_writer::layout::view_count(fixed_pieces(m)) == 14,
        fixed_pieces(m).len() == 14,
{
    lemma_view_count_all(crate::gltf_writer::sections::mesh_pieces(m));
    lemma_view_count_all(fixed_pieces(m));
}

/// How many views a tile has: five for a mesh; in version 1.1 nine more, and
/// those of the attribute columns; six for splats.
pub proof fn law_view_numbers(m: MeshBuilder, version: TilesVersion, splats: Seq<SplatVertex>)
    ensures
        crate::gltf_writer::sections::tile_laid(m, version, splats).views.len() == (
        if m.has_mesh() {
            5int
        } else {
            0int
        }) + (if m.has_mesh() && version == TilesVersion::V1_1 {
            9 + columns_views(crate::gltf_writer::sections::attribute_columns(m))
        } else {
            0int
        }) + (if splats.len() > 0 {
            6int
        } else {
            0int
        }),
{
    let none = Seq::<Piece>::empty();
    let a = if m.has_mesh() {
        crate::gltf_writer::sections::mesh_pieces(m)
    } else {
        none
    };
    let b = if m.has_mesh() && version == TilesVersion::V1_1 {
        crate::gltf_writer::sections::metadata_pieces(m)
    } else {
        none
    };
    let c = if splats.len() > 0 {
        crate::gltf_writer::sections::splat_pieces(splats)
    } else {
        none
    };
    let columns = crate::gltf_writer::sections::attribute_columns(m);
    let e = crate::gltf_writer::sections::columns_pieces(m.rows(), columns);
    lemma_fixed_view_count(m);
    lemma_columns_view_count(m.rows(), columns);
    lemma_view_count_add(fixed_pieces(m), e);
    assert(crate::gltf_writer::sections::mesh_pieces(m)
        + crate::gltf_writer::sections::metadata_pieces(m) =~= fixed_pieces(m) + e);
    lemma_view_count_add(
        crate::gltf_writer::sections::mesh_pieces(m),
        crate::gltf_writer::sections::metadata_pieces(m),
    );
    lemma_view_count_add(a, b);
    lemma_view_count_add(a + b, c);
    lemma_view_count_all(c);
    crate::gltf_writer::layout::law_laying_keeps_what_was_there(
        crate::gltf_writer::layout::nothing_laid(),
        a + b + c,
    );
}

/// The view that the document names for an attribute column holds the values
/// of that column.
pub proof fn law_column_view_holds_the_column(
    m: MeshBuilder,
    splats: Seq<SplatVertex>,
    i: int,
)
    requires
        m.has_mesh(),
        0 <= i < crate::gltf_writer::sections::attribute_columns(m).len(),
        crate::gltf_writer::sections::tile_laid(m, TilesVersion::V1_1, splats).bytes.len()
            <= usize::MAX,
    ensures
        ({
            let laid = crate::gltf_writer::sections::tile_laid(m, TilesVersion::V1_1, splats);
            let columns = crate::gltf_writer::sections::attribute_columns(m);
            let number = 14 + columns_views(columns.take(i));
            let view = laid.views[number];
            &&& 0 <= number < laid.views.len()
            &&& view.offset + view.length <= laid.bytes.len()
            &&& laid.bytes.subrange(view.offset as int, view.offset + view.length)
                == crate::gltf_writer::sections::column_pieces(m.rows(), columns[i])[0].bytes
        }),
{
    let rows = m.rows();
    let columns = crate::gltf_writer::sections::attribute_columns(m);
    let pieces = crate::gltf_writer::sections::tile_pieces(m, TilesVersion::V1_1, splats);
    let fixed = fixed_pieces(m);
    let before = crate::gltf_writer::sections::columns_pieces(rows, columns.take(i));
    let own = crate::gltf_writer::sections::column_pieces(rows, columns[i]);
    let k = (fixed.len() + before.len()) as int;
    lemma_columns_split(rows, columns, i);
    let all = crate::gltf_writer::sections::columns_pieces(rows, columns);
    assert(pieces.take(k) =~= fixed + before);
    assert(pieces[k] == own[0]);
    lemma_fixed_view_count(m);
    lemma_columns_view_count(rows, columns.take(i));
    lemma_view_count_add(fixed, before);
    crate::gltf_writer::layout::law_view_gives_back_its_piece(
        crate::gltf_writer::layout::nothing_laid(),
        pieces,
        k,
    );
}

/// The pieces of a column stand behind those of the columns before it.
pub(crate) proof fn lemma_columns_split(
    rows: Seq<Map<Seq<char>, Attr>>,
    columns: Seq<(Seq<char>, AttrType)>,
    i: int,
)
    requires
        0 <= i < columns.len(),
    ensures
        ({
            let all = crate::gltf_writer::sections::columns_pieces(rows, columns);
            let before = crate::gltf_writer::sections::columns_pieces(rows, columns.take(i));
            let own = crate::gltf_writer::sections::column_pieces(rows, columns[i]);
            &&& before.len() + own.len() <= all.len()
            &&& all.take(before.len() as int) == before
            &&& all.subrange(before.len() as int, (before.len() + own.len()) as int) == own
        }),
    decreases columns.len(),
{
    let all = crate::gltf_writer::sections::columns_pieces(rows, columns);
    let before = crate::gltf_writer::sections::columns_pieces(rows, columns.take(i));
    let own = crate::gltf_writer::sections::column_pieces(rows, columns[i]);
    if i == columns.len() - 1 {
        assert(columns.drop_last() =~= columns.take(i));
        assert(all.take(before.len() as int) =~= before);
        assert(all.subrange(before.len() as int, (before.len() + own.len()) as int) =~= own);
    } else {
        let rest = columns.drop_last();
        lemma_columns_split(rows, rest, i);
        assert(rest.take(i) =~= columns.take(i));
        let part = crate::gltf_writer::sections::columns_pieces(rows, rest);
        assert(all.take(before.len() as int) =~= part.take(before.len() as int));
        assert(all.subrange(before.len() as int, (before.len() + own.len()) as int)
            =~= part.subrange(before.len() as int, (before.len() + own.len()) as int));
    }
}

/// The views that every tile with a mesh has hold what they are for: the first
/// five the positions, normals, colors, surface numbers and corners, and in
/// version 1.1 nine more the table of surfaces.
pub proof fn law_fixed_views_hold_their_pieces(
    m: MeshBuilder,
    version: TilesVersion,
    splats: Seq<SplatVertex>,
    k: int,
)
    requires
        m.has_mesh(),
        0 <= k < (if version == TilesVersion::V1_1 {
            14int
        } else {
            5int
        }),
        crate::gltf_writer::sections::tile_laid(m, version, splats).bytes.len() <= usize::MAX,
    ensures
        ({
            let laid = crate::gltf_writer::sections::tile_laid(m, version, splats);
            let view = laid.views[k];
            &&& k < laid.views.len()
            &&& view.offset + view.length <= laid.bytes.len()
            &&& laid.bytes.subrange(view.offset as int, view.offset + view.length)
                == fixed_pieces(m)[k].bytes
            &&& view.length == fixed_pieces(m)[k].bytes.len()
            &&& view.purpose == fixed_pieces(m)[k].purpose
        }),
{
    let pieces = crate::gltf_writer::sections::tile_pieces(m, version, splats);
    let fixed = fixed_pieces(m);
    lemma_fixed_view_count(m);
    assert(pieces[k] == fixed[k]);
    assert(pieces.take(k) =~= fixed.take(k));
    assert forall|i: int| 0 <= i < fixed.take(k).len() implies (#[trigger] fixed.take(
        k,
    )[i]).purpose != PieceUse::Alignment by {
        assert(fixed.take(k)[i] == fixed[i]);
    }
    lemma_view_count_all(fixed.take(k));
    crate::gltf_writer::layout::law_view_gives_back_its_piece(
        crate::gltf_writer::layout::nothing_laid(),
        pieces,
        k,
    );
}

/// A view that has a stride has one of four bytes.
pub proof fn law_strides_are_whole_words(view: BufferView)
    ensures
        match view_json(view) {
            Json::Obj(fields) => fields.contains_key("byteStride"@) ==> fields["byteStride"@]
                == Json::Int(4),
            _ => false,
        },
{
    reveal_strlit("buffer");
    reveal_strlit("byteLength");
    reveal_strlit("byteOffset");
    reveal_strlit("byteStride");
    reveal_strlit("target");
    assert("byteStride"@[4] == 'S');
    assert("byteLength"@[4] == 'L');
    assert("byteOffset"@[4] == 'O');
    assert("buffer"@.len() == 6);
    assert("target"@.len() == 6);
    assert("byteStride"@.len() == 10);
}

} // verus!

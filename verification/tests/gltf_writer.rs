//! The files that tiles are written to.

use tyler::gltf_writer::attributes::{AttrValue, AttributeSet};
use tyler::gltf_writer::mesh::{MeshBuilder, TilesVersion, Vec3, Vec4};

fn vec3(x: f32, y: f32, z: f32) -> Vec3 {
    Vec3 { x: x.to_bits(), y: y.to_bits(), z: z.to_bits() }
}

fn word(bytes: &[u8], at: usize) -> usize {
    u32::from_le_bytes(bytes[at..at + 4].try_into().unwrap()) as usize
}

/// A mesh with synthetic data, as the file of a tile. Returns the GLB file and
/// the whole file: the former lies inside the latter for version 1.0.
fn build_test_glb(
    n_vertices: usize,
    n_features: usize,
    tiles_version: TilesVersion,
) -> (Vec<u8>, Vec<u8>) {
    assert!(n_vertices % 3 == 0, "n_vertices must be a multiple of 3");
    assert!(n_features >= 1, "need at least 1 feature");

    let mut builder = MeshBuilder::new(0.0f32.to_bits(), 1.0f32.to_bits());
    for i in 0..n_vertices {
        let f = i as f32;
        builder.positions.push(vec3(f, f + 1.0, f + 2.0));
        builder.normals.push(vec3(0.0, 1.0, 0.0));
        builder.colors.push(Vec4 {
            x: 1.0f32.to_bits(),
            y: 0.0f32.to_bits(),
            z: 0.0f32.to_bits(),
            w: 1.0f32.to_bits(),
        });
        builder.batch_ids.push((i % n_features) as u32);
    }
    for i in 0..n_vertices as u32 {
        builder.indices.push(i);
    }
    builder.next_batch_index = n_features as u32;

    // Lengths that differ exercise the alignment.
    let id_patterns = ["A", "AB", "ABC"];
    let type_patterns = ["Building", "WaterBody", "Bridge"];
    let surface_type_patterns = ["RoofSurface", "WallSurface", "GroundSurface"];
    for i in 0..n_features {
        builder.batch_id_to_cityobject_id.push(id_patterns[i % 3].to_string());
        builder.batch_id_to_cityobject_type.push(type_patterns[i % 3].to_string());
        builder.batch_id_to_surface_type.push(surface_type_patterns[i % 3].to_string());
        let mut attrs = AttributeSet::new();
        attrs.insert("slope", AttrValue::Real { single: (30.0f32 + i as f32).to_bits() });
        attrs.insert(
            "azimuth",
            AttrValue::Integer {
                value: Some(180 + i as i64),
                single: (180.0f32 + i as f32).to_bits(),
            },
        );
        attrs.insert("material", AttrValue::Text(format!("mat_{i}")));
        if i % 2 == 0 {
            attrs.insert("is_roof", AttrValue::Flag(true));
        }
        builder.attribute_sets.push(attrs);
        builder.batch_id_to_attributes.push(Some(i));
        builder.batch_id_to_area.push((10.0f32 + i as f32).to_bits());
        builder.batch_id_to_azimuth.push(0.0f32.to_bits());
        builder.batch_id_to_elevation.push(90.0f32.to_bits());
    }

    let file_bytes = builder.write_glb(tiles_version, &[]).expect("write_glb failed");
    let glb_bytes = match tiles_version {
        TilesVersion::V1_1 => file_bytes.clone(),
        TilesVersion::V1_0 => {
            let glb_start = 28 + word(&file_bytes, 12) + word(&file_bytes, 20);
            file_bytes[glb_start..].to_vec()
        }
    };
    (glb_bytes, file_bytes)
}

#[test]
fn glb_no_invalid_byte_stride() {
    for &n in &[3, 6, 9, 12, 99, 102] {
        for &version in &[TilesVersion::V1_0, TilesVersion::V1_1] {
            let (glb_bytes, _) = build_test_glb(n, 2, version);
            let gltf = gltf::Gltf::from_slice(&glb_bytes)
                .unwrap_or_else(|e| panic!("Failed to parse GLB (n={n}, v={version:?}): {e}"));

            for bv in gltf.document.views() {
                if let Some(stride) = bv.stride() {
                    assert!(
                        stride >= 4,
                        "byteStride {} < 4 on BV {} (n={n}, v={version:?})",
                        stride,
                        bv.index()
                    );
                    assert!(
                        stride % 4 == 0,
                        "byteStride {} not multiple of 4 on BV {} (n={n}, v={version:?})",
                        stride,
                        bv.index()
                    );
                }
            }
        }
    }
}

#[test]
fn glb_buffer_view_offsets_aligned() {
    for &n in &[3, 6, 9, 12, 102] {
        for &version in &[TilesVersion::V1_0, TilesVersion::V1_1] {
            let (glb_bytes, _) = build_test_glb(n, 2, version);
            let gltf = gltf::Gltf::from_slice(&glb_bytes)
                .unwrap_or_else(|e| panic!("Failed to parse GLB (n={n}, v={version:?}): {e}"));

            for accessor in gltf.document.accessors() {
                let bv = accessor.view().unwrap();
                let comp_size = match accessor.data_type() {
                    gltf::accessor::DataType::U8 | gltf::accessor::DataType::I8 => 1,
                    gltf::accessor::DataType::U16 | gltf::accessor::DataType::I16 => 2,
                    gltf::accessor::DataType::U32 | gltf::accessor::DataType::F32 => 4,
                };
                let total_offset = accessor.offset() + bv.offset();
                assert!(
                    total_offset % comp_size == 0,
                    "Accessor {} (BV {}): offset {} not aligned to component size {} (n={n}, v={version:?})",
                    accessor.index(),
                    bv.index(),
                    total_offset,
                    comp_size
                );
            }
        }
    }
}

#[test]
fn glb_buffer_view_bounds_valid() {
    for &n in &[3, 6, 99, 102] {
        for &version in &[TilesVersion::V1_0, TilesVersion::V1_1] {
            let n_features = if n >= 6 { 3 } else { 1 };
            let (glb_bytes, _) = build_test_glb(n, n_features, version);
            let gltf = gltf::Gltf::from_slice(&glb_bytes)
                .unwrap_or_else(|e| panic!("Failed to parse GLB (n={n}, v={version:?}): {e}"));

            let buffer_len = gltf.document.buffers().next().unwrap().length();
            for bv in gltf.document.views() {
                assert!(
                    bv.offset() + bv.length() <= buffer_len,
                    "BV {} exceeds buffer: offset {} + length {} > {} (n={n}, v={version:?})",
                    bv.index(),
                    bv.offset(),
                    bv.length(),
                    buffer_len
                );
            }
        }
    }
}

#[test]
fn glb_valid_structure() {
    for &version in &[TilesVersion::V1_0, TilesVersion::V1_1] {
        let (glb_bytes, _) = build_test_glb(6, 2, version);
        let gltf = gltf::Gltf::from_slice(&glb_bytes)
            .unwrap_or_else(|e| panic!("Failed to parse GLB (v={version:?}): {e}"));

        assert_eq!(gltf.document.meshes().count(), 1);
        assert_eq!(gltf.document.nodes().count(), 1);
        assert_eq!(gltf.document.scenes().count(), 1);
        assert_eq!(gltf.document.buffers().count(), 1);
        assert_eq!(gltf.document.accessors().count(), 5);

        let expected_bvs = match version {
            TilesVersion::V1_1 => 19, // 5 geometry + 6 string props + 3 computed + 5 attribute columns
            TilesVersion::V1_0 => 5,
        };
        assert_eq!(gltf.document.views().count(), expected_bvs, "Wrong BV count for {version:?}");

        // The asset, from the JSON chunk itself.
        let json_chunk_len = word(&glb_bytes, 12);
        let json_bytes = &glb_bytes[20..20 + json_chunk_len];
        let root: serde_json::Value = serde_json::from_slice(json_bytes).unwrap();
        assert_eq!(root["asset"]["version"], "2.0");
        assert_eq!(root["asset"]["generator"], "tyler");

        // The attribute of EXT_mesh_features is a set index, not an accessor.
        if version == TilesVersion::V1_1 {
            let prim = &root["meshes"][0]["primitives"][0];
            let ext_mf = &prim["extensions"]["EXT_mesh_features"];
            assert_eq!(
                ext_mf["featureIds"][0]["attribute"], 0,
                "EXT_mesh_features attribute must be 0 (the set index in _FEATURE_ID_0)"
            );
            assert_eq!(ext_mf["featureIds"][0]["propertyTable"], 0);
        }

        let accessors: Vec<_> = gltf.document.accessors().collect();
        // Accessor 0: POSITION (Vec3/F32, count=6)
        assert_eq!(accessors[0].count(), 6);
        assert_eq!(accessors[0].data_type(), gltf::accessor::DataType::F32);
        assert_eq!(accessors[0].dimensions(), gltf::accessor::Dimensions::Vec3);
        // Accessor 1: NORMAL (Vec3/F32)
        assert_eq!(accessors[1].data_type(), gltf::accessor::DataType::F32);
        assert_eq!(accessors[1].dimensions(), gltf::accessor::Dimensions::Vec3);
        // Accessor 2: COLOR_0 (Vec4/F32)
        assert_eq!(accessors[2].data_type(), gltf::accessor::DataType::F32);
        assert_eq!(accessors[2].dimensions(), gltf::accessor::Dimensions::Vec4);
        // Accessor 3: BATCHID/FEATURE_ID (Scalar/U16)
        assert_eq!(accessors[3].data_type(), gltf::accessor::DataType::U16);
        assert_eq!(accessors[3].dimensions(), gltf::accessor::Dimensions::Scalar);
        // Accessor 4: indices (Scalar/U32)
        assert_eq!(accessors[4].data_type(), gltf::accessor::DataType::U32);
        assert_eq!(accessors[4].dimensions(), gltf::accessor::Dimensions::Scalar);
        assert_eq!(accessors[4].count(), 6);
    }
}

#[test]
fn glb_chunk_alignment() {
    for &n in &[3, 6] {
        let (glb_bytes, _) = build_test_glb(n, 1, TilesVersion::V1_1);

        // GLB header
        assert_eq!(&glb_bytes[0..4], b"glTF");
        let version = u32::from_le_bytes(glb_bytes[4..8].try_into().unwrap());
        assert_eq!(version, 2);
        let total_len = u32::from_le_bytes(glb_bytes[8..12].try_into().unwrap()) as usize;
        assert_eq!(total_len, glb_bytes.len());

        // JSON chunk alignment
        let json_chunk_len = u32::from_le_bytes(glb_bytes[12..16].try_into().unwrap()) as usize;
        assert!(
            json_chunk_len % 4 == 0,
            "JSON chunk length {} not 4-byte aligned (n={n})",
            json_chunk_len
        );

        // BIN chunk alignment
        let bin_chunk_start = 12 + 8 + json_chunk_len;
        let bin_chunk_len =
            u32::from_le_bytes(glb_bytes[bin_chunk_start..bin_chunk_start + 4].try_into().unwrap())
                as usize;
        assert!(
            bin_chunk_len % 4 == 0,
            "BIN chunk length {} not 4-byte aligned (n={n})",
            bin_chunk_len
        );
    }
}

#[test]
fn b3dm_wrapping_preserves_valid_glb() {
    let (glb_bytes, file_bytes) = build_test_glb(6, 2, TilesVersion::V1_0);

    // B3DM header
    assert_eq!(&file_bytes[0..4], b"b3dm");
    let b3dm_version = u32::from_le_bytes(file_bytes[4..8].try_into().unwrap());
    assert_eq!(b3dm_version, 1);
    let b3dm_total = u32::from_le_bytes(file_bytes[8..12].try_into().unwrap()) as usize;
    assert_eq!(b3dm_total, file_bytes.len());

    // The GLB file inside is valid and aligned.
    let gltf = gltf::Gltf::from_slice(&glb_bytes)
        .expect("B3DM embedded GLB should be valid glTF 2.0");

    for bv in gltf.document.views() {
        if let Some(stride) = bv.stride() {
            assert!(stride >= 4, "byteStride {} < 4 in B3DM GLB", stride);
            assert!(stride % 4 == 0, "byteStride {} not multiple of 4 in B3DM GLB", stride);
        }
    }

    for accessor in gltf.document.accessors() {
        let bv = accessor.view().unwrap();
        let comp_size = match accessor.data_type() {
            gltf::accessor::DataType::U8 | gltf::accessor::DataType::I8 => 1,
            gltf::accessor::DataType::U16 | gltf::accessor::DataType::I16 => 2,
            gltf::accessor::DataType::U32 | gltf::accessor::DataType::F32 => 4,
        };
        let total_offset = accessor.offset() + bv.offset();
        assert!(
            total_offset % comp_size == 0,
            "B3DM GLB: accessor {} offset {} not aligned to {}",
            accessor.index(),
            total_offset,
            comp_size
        );
    }
}

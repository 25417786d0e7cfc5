//! Features in the mesh of a tile.

use tyler::gltf_writer::assembly::SurfaceShape;
use tyler::gltf_writer::attributes::{infer_schema, AttrType, AttrValue, AttributeSet};
use tyler::gltf_writer::container::{pack_b3dm, pack_glb};
use tyler::gltf_writer::feature::{
    object_color, plan_surfaces, tile_features, CityObject, Feature, Geometry, Lod, Surface,
    NO_ROW,
};
use tyler::gltf_writer::layout::{BinWriter, PieceUse};
use tyler::gltf_writer::mesh::{MeshBuilder, SplatVertex, TilesVersion, Vec3, Vec4};
use tyler::gltf_writer::surface::{
    drop_axis, faces_of, find_simple_triangles, flatten, outline_extent, trace_outline,
    SurfaceError, SurfaceStep, VertexCache,
};
use tyler::gltf_writer::tile::TileFeature;
use tyler::gltf_writer::writer::GlbError;

fn v3(x: f32, y: f32, z: f32) -> Vec3 {
    Vec3 { x: x.to_bits(), y: y.to_bits(), z: z.to_bits() }
}

fn white() -> Vec4 {
    let one = 1.0f32.to_bits();
    Vec4 { x: one, y: one, z: one, w: one }
}

fn builder() -> MeshBuilder {
    MeshBuilder::new(0.0f32.to_bits(), 1.0f32.to_bits())
}

fn positions(n: usize) -> Vec<Option<Vec3>> {
    (0..n).map(|i| Some(v3(i as f32, 0.5, -(i as f32)))).collect()
}

fn surface(rings: Vec<Vec<usize>>, kind: Option<&str>) -> Surface {
    Surface { rings, kind: kind.map(|k| k.to_string()) }
}

fn geometry(lod: Option<&str>, shells: Vec<Vec<Surface>>) -> Geometry {
    Geometry {
        lod: lod.map(|name| Lod {
            name: name.to_string(),
            value: name.parse::<f64>().unwrap_or(0.0).to_bits(),
        }),
        shells,
    }
}

fn object(id: &str, cotype: &str, geometry: Option<Vec<Geometry>>) -> CityObject {
    CityObject {
        id: id.to_string(),
        cotype: cotype.to_string(),
        attributes: None,
        geometry,
        color: None,
    }
}

fn shape(triangles: Vec<usize>, area: f32) -> SurfaceShape {
    SurfaceShape {
        triangles,
        area: area.to_bits(),
        azimuth: 90.0f32.to_bits(),
        elevation: 45.0f32.to_bits(),
    }
}

#[test]
fn outlines_skip_degenerate_rings() {
    let rings = vec![vec![4, 5, 6], vec![1, 2], vec![7, 8, 9, 10], vec![0, 1, 2]];
    assert_eq!(trace_outline(&rings), (vec![4, 5, 6, 7, 8, 9, 10, 0, 1, 2], vec![3, 7]));
    assert_eq!(trace_outline(&[]), (vec![], vec![]));
    assert_eq!(find_simple_triangles(&[vec![9, 8, 7]]), Some(vec![0, 1, 2]));
    assert_eq!(find_simple_triangles(&[vec![9, 8, 7, 6]]), Some(vec![0, 1, 2, 0, 2, 3]));
    assert_eq!(find_simple_triangles(&[vec![9, 8, 7, 6, 5]]), None);
    assert_eq!(find_simple_triangles(&[vec![9, 8, 7], vec![1, 2, 3]]), None);
}

#[test]
fn vertices_are_shared_through_the_cache() {
    let mut mesh = builder();
    let mut cache = VertexCache::new();
    let p = positions(6);
    let step = mesh.add_surface_cached(&[vec![5, 1, 3]], &p, 0, white(), &mut cache).unwrap();
    assert!(matches!(&step, SurfaceStep::Faces { vertices, faces }
        if vertices == &vec![0, 1, 2] && faces == &vec![0, 1, 2]));
    let step = mesh.add_surface_cached(&[vec![1, 2, 5, 3]], &p, 1, white(), &mut cache).unwrap();
    assert!(matches!(&step, SurfaceStep::Faces { vertices, faces }
        if vertices == &vec![1, 3, 0, 2] && faces == &vec![1, 3, 0, 1, 0, 2]));
    assert_eq!(mesh.positions.len(), 4);
    assert_eq!(mesh.positions[0], p[5].unwrap());
    assert_eq!(mesh.positions[3], p[2].unwrap());
    assert_eq!(mesh.batch_ids, vec![0, 0, 0, 1]);
    assert_eq!(mesh.normals[3], v3(0.0, 0.0, 0.0));
    // Without a shared cache the vertices come again.
    mesh.add_surface(&[vec![1, 2, 5]], &p, 2, white()).unwrap();
    assert_eq!(mesh.positions.len(), 7);
}

#[test]
fn surfaces_that_need_dividing() {
    let mut mesh = builder();
    let p = positions(9);
    let rings = vec![vec![0, 1, 2, 3, 4], vec![5, 6, 7]];
    let step = mesh.add_surface(&rings, &p, 0, white()).unwrap();
    assert!(matches!(&step, SurfaceStep::Outline { vertices, holes }
        if vertices.len() == 8 && holes == &vec![5]));
    assert!(matches!(mesh.add_surface(&[], &p, 0, white()), Ok(SurfaceStep::Nothing)));
    assert!(matches!(mesh.add_surface(&[vec![1, 2]], &p, 0, white()), Ok(SurfaceStep::Nothing)));
}

#[test]
fn surfaces_need_positions() {
    let mut p = positions(3);
    assert!(matches!(
        builder().add_surface(&[vec![0, 1, 7]], &p, 0, white()),
        Err(SurfaceError::NoSuchVertex(7))
    ));
    p[1] = None;
    assert!(matches!(
        builder().add_surface(&[vec![0, 1, 7]], &p, 0, white()),
        Err(SurfaceError::Transform(1))
    ));
}

#[test]
fn flattening_along_the_shortest_axis() {
    let points = [v3(0.0, 1.0, 2.0), v3(10.0, 1.5, 4.0)];
    let (low, high) = outline_extent(&points);
    assert_eq!(low, v3(0.0, 1.0, 2.0));
    assert_eq!(high, v3(10.0, 1.5, 4.0));
    assert_eq!(drop_axis(&v3(10.0, 0.5, 2.0)), 1);
    assert_eq!(drop_axis(&v3(1.0, 1.0, 1.0)), 0);
    assert_eq!(drop_axis(&v3(2.0, 1.0, 1.0)), 1);
    assert_eq!(drop_axis(&v3(2.0, 3.0, 1.0)), 2);
    let f = |x: f32| x.to_bits();
    assert_eq!(flatten(&points, 0)[1], (f(1.5), f(4.0)));
    assert_eq!(flatten(&points, 1)[1], (f(10.0), f(4.0)));
    assert_eq!(flatten(&points, 2)[1], (f(10.0), f(1.5)));
    assert_eq!(faces_of(&[7, 8, 9, 10], &[3, 0, 1]), vec![10, 7, 8]);
    assert!(faces_of(&[7, 8, 9, 10], &[3, 0]).is_empty());
}

#[test]
fn leftover_corners_are_ignored() {
    let mut mesh = builder();
    mesh.add_surface(&[vec![0, 1, 2, 3]], &positions(4), 0, white()).unwrap();
    mesh.emit_triangles(&[0, 1, 2, 3, 0]);
    assert_eq!(mesh.indices, vec![0, 1, 2]);
}

fn house() -> Feature {
    let mut building = object("b", "Building", None);
    let mut set = AttributeSet::new();
    set.insert("height", AttrValue::Real { single: 9.0f32.to_bits() });
    set.insert("secret", AttrValue::Flag(true));
    building.attributes = Some(set);
    let coarse = geometry(Some("1.2"), vec![vec![surface(vec![vec![0, 1, 2]], None)]]);
    let fine = geometry(
        Some("2.2"),
        vec![
            vec![
                surface(vec![vec![0, 1, 2]], Some("GroundSurface")),
                surface(vec![vec![1, 2, 3, 4, 5]], Some("RoofSurface")),
            ],
            vec![surface(vec![vec![0, 1]], None)],
        ],
    );
    let mut part = object("b-0", "BuildingPart", Some(vec![coarse, fine]));
    part.color = Some(white());
    Feature { id: None, objects: vec![part, building] }
}

#[test]
fn plans_take_the_finest_level() {
    let f = house();
    let jobs = plan_surfaces(&f.objects, None);
    let places: Vec<(usize, usize, usize, usize)> =
        jobs.iter().map(|j| (j.object, j.geometry, j.shell, j.surface)).collect();
    assert_eq!(places, vec![(0, 1, 0, 0), (0, 1, 0, 1), (0, 1, 1, 0)]);
    assert_eq!(plan_surfaces(&f.objects, Some("1.2")).len(), 1);
    assert_eq!(plan_surfaces(&f.objects, Some("3")).len(), 0);
    // Of equal levels the later one names the level; both are written.
    let same = vec![object(
        "x",
        "Bridge",
        Some(vec![
            geometry(Some("2"), vec![vec![surface(vec![], None)]]),
            geometry(Some("2.0"), vec![vec![surface(vec![], None)]]),
            geometry(None, vec![vec![surface(vec![], None)]]),
        ]),
    )];
    let jobs = plan_surfaces(&same, None);
    assert_eq!(jobs.len(), 1);
    assert_eq!(jobs[0].geometry, 1);
}

#[test]
fn features_fill_mesh_and_table() {
    let mut mesh = builder();
    let shapes = vec![
        shape(vec![], 2.0),
        shape(vec![0, 1, 2, 2, 3, 4], 3.0),
        shape(vec![], 4.0),
    ];
    let whitelist = vec!["height".to_string()];
    let plan = mesh
        .add_feature(&house(), &positions(6), &shapes, None, Some(&whitelist))
        .unwrap();
    assert_eq!(plan.building_id, "b");
    assert_eq!(plan.cotype, "Building");
    assert_eq!(mesh.next_batch_index, 3);
    assert_eq!(mesh.batch_id_to_cityobject_id, vec!["b", "b", "b"]);
    assert_eq!(mesh.batch_id_to_surface_type, vec!["GroundSurface", "RoofSurface", "Unknown"]);
    assert_eq!(mesh.batch_id_to_attributes, vec![Some(0), Some(0), Some(0)]);
    assert!(mesh.attribute_sets[0].get("height").is_some());
    assert!(mesh.attribute_sets[0].get("secret").is_none());
    // A surface without triangles measures nothing.
    let areas: Vec<f32> = mesh.batch_id_to_area.iter().map(|b| f32::from_bits(*b)).collect();
    assert_eq!(areas, vec![2.0, 3.0, 0.0]);
    let slopes: Vec<f32> = mesh.batch_id_to_elevation.iter().map(|b| f32::from_bits(*b)).collect();
    assert_eq!(slopes, vec![45.0, 45.0, 0.0]);
    // Vertices 1 and 2 are shared by the two surfaces.
    assert_eq!(mesh.positions.len(), 6);
    assert_eq!(mesh.indices, vec![0, 1, 2, 1, 2, 3, 3, 4, 5]);
    assert_eq!(mesh.batch_ids, vec![0, 0, 0, 1, 1, 1]);
    assert_eq!(mesh.colors[0], white());
    assert_eq!(mesh.positions[3], positions(6)[3].unwrap());
}

#[test]
fn without_a_list_no_attributes_are_written() {
    let mut mesh = builder();
    let shapes = vec![shape(vec![], 2.0), shape(vec![], 3.0), shape(vec![], 4.0)];
    mesh.add_feature(&house(), &positions(6), &shapes, None, None).unwrap();
    assert_eq!(mesh.batch_id_to_attributes, vec![None, None, None]);
    assert_eq!(mesh.indices, vec![0, 1, 2]);
}

#[test]
fn a_missing_position_stops_a_feature() {
    let mut mesh = builder();
    let shapes = vec![shape(vec![], 2.0), shape(vec![], 3.0), shape(vec![], 4.0)];
    let mut p = positions(6);
    p[4] = None;
    assert!(matches!(
        mesh.add_feature(&house(), &p, &shapes, None, None),
        Err(SurfaceError::Transform(4))
    ));
}

#[test]
fn what_comes_before_a_missing_position_stays() {
    let mut mesh = builder();
    let shapes = vec![shape(vec![], 2.0), shape(vec![0, 1, 2], 3.0), shape(vec![], 4.0)];
    let mut p = positions(6);
    p[4] = None;
    assert!(mesh.add_feature(&house(), &p, &shapes, None, None).is_err());
    // The first surface is whole; the second has its row and one new vertex.
    assert_eq!(mesh.indices, vec![0, 1, 2]);
    assert_eq!(mesh.next_batch_index, 2);
    assert_eq!(mesh.batch_id_to_area.len(), 1);
    assert_eq!(mesh.positions.len(), 4);
}

#[test]
fn a_surface_that_is_added_again_shares_its_vertices() {
    let mut mesh = builder();
    let mut cache = VertexCache::new();
    let rings = vec![vec![3, 1, 2, 0]];
    let first = mesh.add_surface_cached(&rings, &positions(4), 0, white(), &mut cache).unwrap();
    // The positions are no longer needed.
    let again = mesh.add_surface_cached(&rings, &[], 7, white(), &mut cache).unwrap();
    assert_eq!(format!("{first:?}"), format!("{again:?}"));
    assert_eq!(mesh.positions.len(), 4);
    assert_eq!(mesh.batch_ids, vec![0, 0, 0, 0]);
}

#[test]
fn geometries_of_other_levels_do_not_matter() {
    let leaf = |lod: &str, ring: Vec<usize>| {
        geometry(Some(lod), vec![vec![surface(vec![ring], Some("RoofSurface"))]])
    };
    let levels = |geometries: Vec<Geometry>| Feature {
        id: None,
        objects: vec![object("b", "Building", Some(geometries))],
    };
    let shapes = vec![shape(vec![], 2.0)];
    let all = levels(vec![
        leaf("1.2", vec![0, 1, 2]),
        leaf("2.2", vec![2, 3, 4]),
        leaf("1.3", vec![1, 2, 3]),
    ]);
    let one = levels(vec![leaf("2.2", vec![2, 3, 4])]);
    let mut a = builder();
    let mut b = builder();
    a.add_feature(&all, &positions(5), &shapes, None, None).unwrap();
    b.add_feature(&one, &positions(5), &shapes, None, None).unwrap();
    assert_eq!(a.positions, b.positions);
    assert_eq!(a.indices, b.indices);
    assert_eq!(a.batch_id_to_surface_type, b.batch_id_to_surface_type);
    assert_eq!(a.positions[0], positions(5)[2].unwrap());
    let mut c = builder();
    c.add_feature(&all, &positions(5), &shapes, Some("1.3"), None).unwrap();
    assert_eq!(c.positions[0], positions(5)[1].unwrap());
}

fn tree() -> Feature {
    let g = geometry(Some("2"), vec![vec![surface(vec![vec![0, 1, 2]], None)]]);
    Feature {
        id: Some("oak".to_string()),
        objects: vec![object("oak", "SolitaryVegetationObject", Some(vec![g]))],
    }
}

#[test]
fn lone_trees_get_no_rows() {
    let mut mesh = builder();
    let shapes = vec![shape(vec![], 2.0)];
    let plan = mesh
        .add_feature(&tree(), &positions(3), &shapes, None, None)
        .unwrap();
    assert!(plan.skip_metadata);
    assert_eq!(mesh.next_batch_index, 0);
    assert!(mesh.batch_id_to_area.is_empty());
    assert_eq!(mesh.batch_ids, vec![NO_ROW, NO_ROW, NO_ROW]);
    assert!(mesh.batch_id_to_cityobject_id.is_empty());
    assert_eq!(mesh.indices, vec![0, 1, 2]);
}

#[test]
fn features_of_cells_are_added_once() {
    let list = || {
        vec![
            TileFeature {
                feature: tree(),
                positions: positions(3),
                shapes: vec![shape(vec![], 2.0)],
            },
            TileFeature {
                feature: house(),
                positions: positions(6),
                shapes: vec![shape(vec![], 2.0), shape(vec![], 3.0), shape(vec![], 4.0)],
            },
        ]
    };
    let cells = vec![vec![1, 0], vec![1]];
    let mut mesh = builder();
    mesh.add_features(&list(), &cells, None, None).unwrap();
    assert_eq!(mesh.batch_id_to_cityobject_id, vec!["b", "b", "b"]);
    // Vertices are not shared between features.
    assert_eq!(mesh.positions.len(), 9);
    assert_eq!(mesh.indices, vec![0, 1, 2, 6, 7, 8]);
    let mut once = builder();
    once.add_features(&list(), &[vec![1, 0], vec![]], None, None).unwrap();
    assert_eq!(once.positions, mesh.positions);
    assert_eq!(once.indices, mesh.indices);
    assert_eq!(once.batch_ids, mesh.batch_ids);
    for version in [TilesVersion::V1_0, TilesVersion::V1_1] {
        let whitelist = vec!["height".to_string()];
        let mut often = builder();
        often.add_features(&list(), &[vec![1, 0, 1], vec![0, 1]], None, Some(&whitelist)).unwrap();
        let mut once = builder();
        once.add_features(&list(), &[vec![1, 0], vec![]], None, Some(&whitelist)).unwrap();
        assert_eq!(
            often.write_glb(version, &[splat(3.0)]).unwrap(),
            once.write_glb(version, &[splat(3.0)]).unwrap()
        );
    }
    let mut broken = list();
    broken[0].positions[2] = None;
    broken[1].positions.truncate(4);
    assert!(matches!(
        builder().add_features(&broken, &cells, None, None),
        Err(SurfaceError::NoSuchVertex(4))
    ));
}

#[test]
fn ids_of_features() {
    let id_of = |objects: Vec<CityObject>| {
        let f = Feature { id: None, objects };
        builder().begin_feature(&f, None, None).building_id
    };
    assert_eq!(id_of(vec![object("x-0", "BuildingPart", None)]), "x");
    assert_eq!(id_of(vec![object("x-1", "BuildingPart", None)]), "unknown");
    assert_eq!(id_of(vec![object("x", "Bridge", None)]), "unknown");
    assert_eq!(
        id_of(vec![object("x-0", "BuildingPart", None), object("y", "Building", None)]),
        "y"
    );
}

#[test]
fn colors_of_objects() {
    let mut o = object("x", "Bridge", None);
    let pink = object_color(&o);
    assert_eq!(f32::from_bits(pink.x), 1.0);
    assert_eq!(f32::from_bits(pink.y), 0.753);
    assert_eq!(f32::from_bits(pink.z), 0.796);
    assert_eq!(f32::from_bits(pink.w), 1.0);
    o.color = Some(white());
    assert_eq!(object_color(&o), white());
}

#[test]
fn features_of_a_tile_occur_once() {
    assert_eq!(tile_features(&[vec![3, 1, 3], vec![1, 2]]), vec![3, 1, 2]);
    assert!(tile_features(&[]).is_empty());
}

#[test]
fn columns_are_inferred_from_values() {
    let mut a = AttributeSet::new();
    a.insert("b", AttrValue::Integer { value: Some(1), single: 0 });
    a.insert("a", AttrValue::Text("x".to_string()));
    a.insert("n", AttrValue::Other);
    a.insert("f", AttrValue::Flag(true));
    let mut b = AttributeSet::new();
    b.insert("b", AttrValue::Real { single: 0 });
    b.insert("b", AttrValue::Real { single: 1 });
    let columns = infer_schema(&[a, b], &[Some(0), None, Some(1)]);
    let listed: Vec<&str> = columns.iter().map(|c| c.name()).collect();
    assert_eq!(listed, vec!["a", "b", "f"]);
    assert_eq!(columns[0].kind(), AttrType::String);
    assert_eq!(columns[2].kind(), AttrType::Boolean);
}

#[test]
fn pieces_are_aligned() {
    let mut w = BinWriter::new();
    w.add(vec![1, 2, 3], 4, PieceUse::Table);
    w.add(vec![4, 5], 8, PieceUse::Table);
    assert_eq!(w.bytes, vec![1, 2, 3, 0, 0, 0, 0, 0, 4, 5]);
    assert_eq!((w.views[1].offset, w.views[1].length), (8, 2));
}

#[test]
fn containers_are_padded() {
    let glb = pack_glb(b"{}".to_vec(), vec![7; 5]);
    assert_eq!(glb.len(), 12 + 8 + 4 + 8 + 8);
    assert_eq!(&glb[0..4], b"glTF");
    assert_eq!(&glb[20..24], b"{}  ");
    assert_eq!(&glb[glb.len() - 3..], &[0, 0, 0]);
    let b3dm = pack_b3dm(b"{}".to_vec(), b"[]".to_vec(), &glb);
    assert_eq!(&b3dm[0..4], b"b3dm");
    assert_eq!(u32::from_le_bytes(b3dm[8..12].try_into().unwrap()) as usize, b3dm.len());
    assert_eq!(&b3dm[b3dm.len() - glb.len()..], &glb[..]);
}

fn splat(x: f32) -> SplatVertex {
    SplatVertex {
        position: v3(x, 0.0, 0.0),
        rgb: v3(0.5, 0.5, 0.5),
        rotation: white(),
        scale: v3(1.0, 1.0, 1.0),
        opacity: 1.0f32.to_bits(),
        sh0: v3(0.1, 0.2, 0.3),
    }
}

#[test]
fn empty_tiles_are_empty_files() {
    assert_eq!(builder().write_glb(TilesVersion::V1_1, &[]).unwrap(), Vec::<u8>::new());
}

#[test]
fn splats_alone_make_a_tile() {
    for version in [TilesVersion::V1_0, TilesVersion::V1_1] {
        let file = builder().write_glb(version, &[splat(1.0), splat(-2.0)]).unwrap();
        assert_eq!(&file[0..4], b"glTF");
        let glb = gltf::Gltf::from_slice_without_validation(&file).unwrap();
        assert_eq!(glb.accessors().next().unwrap().count(), 2);
        assert_eq!(glb.meshes().count(), 1);
        let min = glb.accessors().next().unwrap().min().unwrap();
        assert_eq!(min.to_string(), "[-2.0,0.0,0.0]");
    }
}

#[test]
fn too_many_rows_are_refused() {
    let mut mesh = builder();
    mesh.add_surface(&[vec![0, 1, 2]], &positions(3), 0, white()).unwrap();
    mesh.next_batch_index = 65536;
    assert!(matches!(
        mesh.write_glb(TilesVersion::V1_1, &[]),
        Err(GlbError::TooManyFeatures(65536))
    ));
}

#[test]
fn a_factor_that_is_no_number_is_null() {
    let mut mesh = MeshBuilder::new(f32::NAN.to_bits(), 0.25f32.to_bits());
    mesh.add_surface(&[vec![0, 1, 2]], &positions(3), 0, white()).unwrap();
    mesh.emit_triangles(&[0, 1, 2]);
    let file = mesh.write_glb(TilesVersion::V1_1, &[splat(3.0)]).unwrap();
    let json = u32::from_le_bytes(file[12..16].try_into().unwrap()) as usize;
    let text = std::str::from_utf8(&file[20..20 + json]).unwrap();
    assert!(text.contains("\"metallicFactor\":null,\"roughnessFactor\":0.25"));
    // The splats have a material of their own.
    assert!(text.contains("\"metallicFactor\":0.0,\"roughnessFactor\":1.0"));
}

#[test]
fn features_and_splats_make_one_file() {
    let mut mesh = builder();
    let shapes = vec![shape(vec![], 2.0), shape(vec![0, 1, 2], 3.0), shape(vec![], 4.0)];
    let whitelist = vec!["height".to_string(), "secret".to_string()];
    mesh.add_feature(&house(), &positions(6), &shapes, None, Some(&whitelist))
        .unwrap();
    let file = mesh.write_glb(TilesVersion::V1_1, &[splat(3.0)]).unwrap();
    let again = mesh.write_glb(TilesVersion::V1_1, &[splat(3.0)]).unwrap();
    assert_eq!(file, again);
    let glb = gltf::Gltf::from_slice_without_validation(&file).unwrap();
    let json = u32::from_le_bytes(file[12..16].try_into().unwrap()) as usize;
    let text = std::str::from_utf8(&file[20..20 + json]).unwrap();
    let doc: serde_json::Value = serde_json::from_str(text).unwrap();
    let table = &doc["extensions"]["EXT_structural_metadata"]["propertyTables"][0];
    assert_eq!(table["count"], 3);
    assert!(table["properties"].get("height").is_some());
    assert!(glb.buffers().count() == 1);
}

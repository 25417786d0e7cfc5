//! City features as rows.

use tyler::geoparquet_writer::attributes::{
    filter_attributes, get_flag, get_number, get_text, get_whole, keeps_attribute, Attribute,
    Compression, GeoParquetConfig, Scalar,
};
use tyler::geoparquet_writer::columns::{
    fields, flag_column, list_column, number_column, outline_column, text_column, whole_column,
    written_rows, ColumnKind, Field,
};
use tyler::geoparquet_writer::feature::{
    find_detailed, find_ground, find_lod, find_main_object, ExtendedCityJSONFeature,
    ExtendedCityObject, ExtendedGeometry, NamedObject, SemanticSurface, Semantics,
};
use tyler::geoparquet_writer::footprint::{
    close_ring, footprint_bbox, footprint_ring, plan_footprint, Bbox, FootprintError,
    FootprintPlan, Point2,
};
use tyler::geoparquet_writer::roof::aggregate_semantic_surfaces;
use tyler::geoparquet_writer::rows::{
    collect_rows, extract_building_row, outline_is_writable, projjson, BuildingRow, FileOutcome,
    RowsError,
};

fn text(name: &str, value: &str) -> Attribute {
    Attribute { name: name.to_string(), value: Scalar::Text(value.to_string()) }
}

fn flag(name: &str, value: bool) -> Attribute {
    Attribute { name: name.to_string(), value: Scalar::Flag(value) }
}

fn number(name: &str, value: f64) -> Attribute {
    Attribute {
        name: name.to_string(),
        value: Scalar::Number { double: value.to_bits(), whole: None },
    }
}

fn whole(name: &str, value: i64) -> Attribute {
    Attribute {
        name: name.to_string(),
        value: Scalar::Number { double: (value as f64).to_bits(), whole: Some(value) },
    }
}

fn names(list: &[&str]) -> Vec<String> {
    list.iter().map(|s| s.to_string()).collect()
}

fn surface(surface_type: &str, attributes: Vec<Attribute>) -> SemanticSurface {
    SemanticSurface { surface_type: surface_type.to_string(), attributes }
}

fn geometry(lod: &str, boundaries: &str, surfaces: Option<Vec<SemanticSurface>>) -> ExtendedGeometry {
    ExtendedGeometry {
        geometry_type: "MultiSurface".to_string(),
        lod: lod.to_string(),
        boundaries: serde_json::from_str(boundaries).unwrap(),
        semantics: surfaces.map(|list| Semantics { surfaces: Some(list) }),
    }
}

fn object(
    cotype: &str,
    attributes: Option<Vec<Attribute>>,
    geometry: Option<Vec<ExtendedGeometry>>,
) -> ExtendedCityObject {
    ExtendedCityObject { cotype: cotype.to_string(), attributes, geometry }
}

#[test]
fn attributes_are_read_by_type() {
    let list = vec![
        text("t", "x"),
        flag("f", true),
        number("n", 2.5),
        whole("w", -3),
        Attribute { name: "o".to_string(), value: Scalar::Other },
    ];
    assert_eq!(get_text(&list, "t"), Some("x"));
    assert_eq!(get_text(&list, "n"), None);
    assert_eq!(get_flag(&list, "f"), Some(true));
    assert_eq!(get_flag(&list, "o"), None);
    assert_eq!(get_number(&list, "n"), Some(2.5f64.to_bits()));
    assert_eq!(get_number(&list, "w"), Some((-3.0f64).to_bits()));
    assert_eq!(get_whole(&list, "w"), Some(-3));
    assert_eq!(get_whole(&list, "n"), None);
    assert_eq!(get_number(&list, "missing"), None);
}

#[test]
fn default_configuration() {
    let config = GeoParquetConfig::default();
    assert_eq!(config.output_path, "buildings.parquet");
    assert_eq!(config.effective_compression(), Compression::Zstd);
    let none = GeoParquetConfig { compression: None, ..GeoParquetConfig::default() };
    assert_eq!(none.effective_compression(), Compression::Uncompressed);
}

#[test]
fn kept_attributes() {
    let config = GeoParquetConfig::default();
    assert!(keeps_attribute(&config, "bldgarea"));
    assert!(!keeps_attribute(&config, "something"));
    assert!(!keeps_attribute(&config, "rf_rmse_lod22"));
    let list = vec![number("other", 1.0), number("heightmax", 2.0), text("feature_id", "f")];
    assert_eq!(filter_attributes(&list, &config), vec![1, 2]);

    let chosen = GeoParquetConfig {
        include_attributes: Some(names(&["other", "acqtech_de", "mine_a"])),
        exclude_attributes: Some(names(&["mine"])),
        ..GeoParquetConfig::default()
    };
    assert!(keeps_attribute(&chosen, "other"));
    assert!(!keeps_attribute(&chosen, "heightmax"));
    // What is left out goes before what is kept, and goes by beginnings.
    assert!(!keeps_attribute(&chosen, "acqtech_de"));
    assert!(!keeps_attribute(&chosen, "mine_a"));
    assert_eq!(filter_attributes(&list, &chosen), vec![0]);
}

fn named(id: &str, cotype: &str) -> NamedObject {
    NamedObject { id: id.to_string(), object: object(cotype, None, None) }
}

#[test]
fn object_of_a_row() {
    let objects = vec![
        named("a", "BuildingPart"),
        named("b", "+GenericCityObject"),
        named("c", "Building"),
        named("d", "Bridge"),
    ];
    assert_eq!(find_main_object(&objects, None), Some(2));
    assert_eq!(find_main_object(&objects, Some(&names(&["Bridge", "Building"]))), Some(2));
    assert_eq!(find_main_object(&objects, Some(&names(&["Bridge"]))), Some(3));
    assert_eq!(find_main_object(&objects, Some(&names(&["GenericCityObject"]))), Some(1));
    assert_eq!(find_main_object(&objects, Some(&names(&["Road"]))), None);
    assert_eq!(find_main_object(&objects, Some(&[])), None);
    assert_eq!(find_main_object(&objects[..2], None), None);
}

#[test]
fn geometries_by_level_of_detail() {
    let list = vec![
        geometry("0", "[]", None),
        geometry("1.2", "[]", None),
        geometry("1.3", "[]", None),
        geometry("1.3", "[]", None),
    ];
    assert_eq!(find_lod(&list, "1.3"), Some(2));
    assert_eq!(find_lod(&list, "2.2"), None);
    assert_eq!(find_detailed(&list), Some(2));
    assert_eq!(find_detailed(&list[..2]), Some(1));
    assert_eq!(find_detailed(&list[..1]), None);
    assert_eq!(find_ground(&list), Some(2));
    assert_eq!(find_ground(&list[..1]), Some(0));
    let odd = vec![geometry("3", "[]", None), geometry("3", "[]", Some(vec![]))];
    assert_eq!(find_ground(&odd), Some(1));
    assert_eq!(find_ground(&odd[..1]), None);
}

#[test]
fn footprint_plans() {
    let none = object("Building", None, None);
    assert!(matches!(plan_footprint(&none), Err(FootprintError::NoGeometry)));
    let odd = object("Building", None, Some(vec![geometry("3", "[]", None)]));
    assert!(matches!(plan_footprint(&odd), Err(FootprintError::NoUsableGeometry)));
    for bad in ["{}", "[[[1.5]]]", "[[[-1]]]", "[[1]]", "[[[[1]]]]"] {
        let o = object("Building", None, Some(vec![geometry("2.2", bad, None)]));
        assert!(matches!(plan_footprint(&o), Err(FootprintError::BadBoundaries)));
    }
    let ground = vec![
        surface("WallSurface", vec![]),
        surface("GroundSurface", vec![]),
        surface("GroundSurface", vec![]),
    ];
    let boundaries = "[[[0,1,2]],[[3,4,5],[6,7,8]],[]]";
    let o = object("Building", None, Some(vec![geometry("2.2", boundaries, Some(ground))]));
    let plan = plan_footprint(&o).unwrap();
    assert_eq!(
        plan.boundaries,
        vec![vec![vec![0, 1, 2]], vec![vec![3, 4, 5], vec![6, 7, 8]], vec![]]
    );
    assert_eq!(plan.offered, vec![1, 2]);
    let walls = vec![surface("WallSurface", vec![]), surface("RoofSurface", vec![])];
    let o = object("Building", None, Some(vec![geometry("1", "[]", Some(walls))]));
    assert_eq!(plan_footprint(&o).unwrap().offered, Vec::<usize>::new());
    let o = object("Building", None, Some(vec![geometry("1", "[]", None)]));
    assert_eq!(plan_footprint(&o).unwrap().offered, Vec::<usize>::new());
}

fn bits(list: &[Option<f64>]) -> Vec<Option<u64>> {
    list.iter().map(|h| h.map(|f| f.to_bits())).collect()
}

#[test]
fn footprint_rings() {
    let boundaries = vec![vec![vec![0, 1, 2]], vec![], vec![vec![9, 3, 4, 5], vec![0]], vec![vec![0, 1]]];
    let plan = |offered: Vec<usize>| FootprintPlan { boundaries: boundaries.clone(), offered };
    assert_eq!(footprint_ring(&plan(vec![2]), &[], 6), Ok(vec![3, 4, 5]));
    assert_eq!(footprint_ring(&plan(vec![2]), &[], 5), Err(FootprintError::TooFewPoints(2)));
    assert_eq!(footprint_ring(&plan(vec![1]), &[], 6), Err(FootprintError::NoRings(1)));
    assert_eq!(
        footprint_ring(&plan(vec![4]), &[], 6),
        Err(FootprintError::OutOfBounds { index: 4, len: 4 })
    );
    let heights = bits(&[Some(2.0), None, Some(-1.0), Some(-1.0)]);
    assert_eq!(footprint_ring(&plan(vec![]), &heights, 10), Ok(vec![9, 3, 4, 5]));
    assert_eq!(
        footprint_ring(&plan(vec![]), &bits(&[None, None]), 10),
        Err(FootprintError::NoValidSurface)
    );
    let nan = bits(&[None, None, Some(f64::NAN), Some(f64::NAN)]);
    assert_eq!(footprint_ring(&plan(vec![]), &nan, 10), Ok(vec![9, 3, 4, 5]));
}

#[test]
fn without_a_ground_surface_the_lowest_is_the_footprint() {
    let surfaces = vec![surface("RoofSurface", vec![]), surface("WallSurface", vec![])];
    let g = geometry("2.2", "[[[3,4,5]],[[0,1,2]]]", Some(surfaces));
    let plan = plan_footprint(&object("Building", None, Some(vec![g]))).unwrap();
    let heights = bits(&[Some(9.0), Some(0.0)]);
    let ring = footprint_ring(&plan, &heights, 6).unwrap();
    assert_eq!(ring, vec![0, 1, 2]);
    let at = |x: f64, y: f64| Point2 { x: x.to_bits(), y: y.to_bits() };
    let outline = close_ring(vec![at(0.0, 0.0), at(1.0, 0.0), at(0.0, 1.0)]);
    assert_eq!(outline, vec![at(0.0, 0.0), at(1.0, 0.0), at(0.0, 1.0), at(0.0, 0.0)]);
    let zero = 0.0f64.to_bits();
    let bbox = footprint_bbox(&outline, &[zero, zero, zero]);
    assert_eq!((bbox.min_x, bbox.min_y, bbox.min_z), (zero, zero, zero));
    let one = 1.0f64.to_bits();
    assert_eq!((bbox.max_x, bbox.max_y, bbox.max_z), (one, one, zero));
}

fn point(x: f64, y: f64) -> Point2 {
    Point2 { x: x.to_bits(), y: y.to_bits() }
}

#[test]
fn rings_are_closed_once() {
    let open = vec![point(0.0, 0.0), point(1.0, 0.0), point(1.0, 1.0)];
    let closed = close_ring(open.clone());
    assert_eq!(closed.len(), 4);
    assert_eq!(closed[3], point(0.0, 0.0));
    assert_eq!(close_ring(closed.clone()), closed);
    // Zeros of both signs are the same place.
    let signed = vec![point(0.0, 0.0), point(1.0, 0.0), point(-0.0, 0.0)];
    assert_eq!(close_ring(signed).len(), 3);
    assert!(close_ring(vec![]).is_empty());
}

#[test]
fn reach_of_a_footprint() {
    let points = [point(3.0, -2.0), point(-1.0, 5.0)];
    let heights = [7.0f64.to_bits(), 6.5f64.to_bits()];
    let b = footprint_bbox(&points, &heights);
    assert_eq!(f64::from_bits(b.min_x), -1.0);
    assert_eq!(f64::from_bits(b.max_x), 3.0);
    assert_eq!(f64::from_bits(b.min_y), -2.0);
    assert_eq!(f64::from_bits(b.max_y), 5.0);
    assert_eq!(f64::from_bits(b.min_z), 6.5);
    assert_eq!(f64::from_bits(b.max_z), 7.0);
    assert_eq!(f64::from_bits(footprint_bbox(&points, &[]).min_z), f64::INFINITY);
}

fn roofed() -> ExtendedCityObject {
    let surfaces = vec![
        surface("GroundSurface", vec![]),
        surface("WallSurface", vec![number("rf_azimuth", 9.0)]),
        surface("WallSurface", vec![]),
        surface(
            "RoofSurface",
            vec![
                number("rf_azimuth", 90.0),
                number("rf_slope", 30.0),
                number("rf_roof_elevation_min", 4.0),
                number("rf_roof_elevation_max", 8.0),
                number("rf_roof_elevation_50p", 5.0),
                number("rf_roof_elevation_70p", 6.0),
            ],
        ),
        surface(
            "RoofSurface",
            vec![
                number("rf_azimuth", 270.0),
                number("rf_roof_elevation_min", 3.0),
                number("rf_roof_elevation_max", 9.0),
                number("rf_roof_elevation_50p", 7.0),
                flag("rf_is_glass_roof", true),
            ],
        ),
        surface("OuterFloorSurface", vec![]),
    ];
    object(
        "Building",
        Some(vec![
            whole("rf_roof_n_planes", (1 << 32) + 5),
            text("rf_roof_type", "slanted"),
            flag("rf_is_glass_roof", false),
            text("feature_id", "f7"),
            number("bldgarea", 120.5),
            whole("heightmax", 12),
            number("extra", 1.0),
        ]),
        Some(vec![
            geometry("1.2", "[]", Some(vec![surface("RoofSurface", vec![])])),
            geometry("2.2", "[]", Some(surfaces)),
        ]),
    )
}

#[test]
fn roofs_are_put_together() {
    let (roof, counts) = aggregate_semantic_surfaces(&roofed());
    assert_eq!((counts.n_ground, counts.n_wall, counts.n_roof), (1, 2, 2));
    assert_eq!(roof.n_planes, Some(5));
    assert_eq!(roof.roof_type.as_deref(), Some("slanted"));
    assert_eq!(roof.azimuths, vec![90.0f64.to_bits(), 270.0f64.to_bits()]);
    assert_eq!(roof.slopes, vec![30.0f64.to_bits()]);
    assert_eq!(roof.elevation_min, Some(3.0f64.to_bits()));
    assert_eq!(roof.elevation_max, Some(9.0f64.to_bits()));
    assert_eq!(roof.elevations_50p, vec![5.0f64.to_bits(), 7.0f64.to_bits()]);
    assert_eq!(roof.elevations_70p, vec![6.0f64.to_bits()]);
    assert!(roof.is_glass);
    let (roof, counts) = aggregate_semantic_surfaces(&object("Building", None, None));
    assert_eq!((counts.n_ground, counts.n_wall, counts.n_roof), (0, 0, 0));
    assert_eq!(roof.n_planes, None);
    assert!(!roof.is_glass);
}

fn bbox() -> Bbox {
    Bbox { min_x: 1, min_y: 2, min_z: 3, max_x: 4, max_y: 5, max_z: 6 }
}

fn square() -> Vec<Point2> {
    close_ring(vec![point(0.0, 0.0), point(1.0, 0.0), point(1.0, 1.0)])
}

fn rows() -> Vec<BuildingRow> {
    let config = GeoParquetConfig::default();
    let feature = ExtendedCityJSONFeature {
        id: "feature".to_string(),
        feature_type: "CityJSONFeature".to_string(),
        objects: vec![
            NamedObject { id: "part".to_string(), object: object("BuildingPart", None, None) },
            NamedObject { id: "house".to_string(), object: roofed() },
        ],
    };
    let bare = object("Building", None, None);
    let full = &feature.objects[1].object;
    vec![
        extract_building_row(&feature, full, &config, square(), bbox()),
        extract_building_row(&feature, full, &config, vec![point(0.0, 0.0)], bbox()),
        extract_building_row(&feature, &bare, &config, square(), bbox()),
    ]
}

#[test]
fn rows_of_buildings() {
    let rows = rows();
    assert_eq!(rows[0].feature_id, "f7");
    assert_eq!(rows[0].cityobject_id, "part");
    assert_eq!(rows[0].cityobject_type, "Building");
    assert_eq!(rows[0].outline, square());
    assert_eq!(rows[0].metrics.bldgarea, Some(120.5f64.to_bits()));
    assert_eq!(rows[0].metrics.heightmax, Some(12.0f64.to_bits()));
    assert_eq!(rows[0].metrics.elevmin, None);
    assert_eq!(rows[0].bbox, bbox());
    assert_eq!(rows[0].surface_counts.n_roof, 2);
    assert_eq!(rows[0].additional_attributes, vec![0, 1, 2, 3, 4, 5]);
    assert_eq!(rows[2].feature_id, "feature");
    let empty = ExtendedCityJSONFeature {
        id: "e".to_string(),
        feature_type: String::new(),
        objects: vec![],
    };
    let bare = object("Building", None, None);
    let row =
        extract_building_row(&empty, &bare, &GeoParquetConfig::default(), square(), bbox());
    assert_eq!(row.cityobject_id, "unknown");
    assert!(row.additional_attributes.is_empty());
}

#[test]
fn columns_hold_the_written_rows() {
    let rows = rows();
    let written = written_rows(&rows).unwrap();
    assert_eq!(written, vec![0, 2]);
    assert!(matches!(written_rows(&[]), Err(RowsError::NoRows)));
    assert_eq!(
        text_column(&rows, &written, Field::FeatureId),
        vec![Some("f7".to_string()), Some("feature".to_string())]
    );
    assert_eq!(
        text_column(&rows, &written, Field::RoofType),
        vec![Some("slanted".to_string()), None]
    );
    assert_eq!(
        number_column(&rows, &written, Field::Bldgarea),
        vec![Some(120.5f64.to_bits()), None]
    );
    assert_eq!(number_column(&rows, &written, Field::BboxMaxz), vec![Some(6), Some(6)]);
    assert_eq!(number_column(&rows, &written, Field::BboxMaxy), vec![Some(5), Some(5)]);
    assert_eq!(whole_column(&rows, &written, Field::RoofNPlanes), vec![Some(5), None]);
    assert_eq!(whole_column(&rows, &written, Field::NWallSurfaces), vec![Some(2), Some(0)]);
    assert_eq!(
        list_column(&rows, &written, Field::RoofSlopes),
        vec![Some(vec![30.0f64.to_bits()]), None]
    );
    assert_eq!(flag_column(&rows, &written), vec![true, false]);
    assert_eq!(outline_column(&rows, &written), vec![square(), square()]);
}

#[test]
fn columns_of_a_file() {
    let all = fields();
    assert_eq!(all.len(), 28);
    let listed: Vec<&str> = all.iter().map(|f| f.name()).collect();
    assert_eq!(
        listed,
        vec![
            "feature_id", "cityobject_id", "cityobject_type", "geometry", "bldgarea", "heightmax",
            "heightmin", "elevmax", "elevmin", "volume_lod22", "roof_n_planes", "roof_type",
            "roof_azimuths", "roof_slopes", "roof_elevation_min", "roof_elevation_max",
            "roof_elevation_50p", "roof_elevation_70p", "roof_is_glass", "n_ground_surfaces",
            "n_wall_surfaces", "n_roof_surfaces", "bbox_minx", "bbox_miny", "bbox_maxx",
            "bbox_maxy", "bbox_minz", "bbox_maxz",
        ]
    );
    let required: Vec<usize> = (0..28).filter(|&i| !all[i].nullable()).collect();
    assert_eq!(required, vec![0, 1, 2, 22, 23, 24, 25, 26, 27]);
    assert_eq!(Field::Geometry.kind(), ColumnKind::Polygon);
    assert_eq!(Field::RoofAzimuths.kind(), ColumnKind::List);
    assert_eq!(Field::RoofIsGlass.kind(), ColumnKind::Flag);
    assert_eq!(Field::NRoofSurfaces.kind(), ColumnKind::Whole);
    assert_eq!(Field::RoofElevation70p.kind(), ColumnKind::Average);
    assert_eq!(Field::BboxMinx.kind(), ColumnKind::Number);
}

#[test]
fn outlines_that_can_be_written() {
    assert!(outline_is_writable(&square()));
    assert!(!outline_is_writable(&square()[..3]));
    let mut bad = square();
    bad[1].y = f64::NAN.to_bits();
    assert!(!outline_is_writable(&bad));
    bad[1].y = f64::INFINITY.to_bits();
    assert!(!outline_is_writable(&bad));
}

#[test]
fn first_failure_ends_a_conversion() {
    let (row, skipped, failed) = (FileOutcome::Row, FileOutcome::Skipped, FileOutcome::Failed);
    assert_eq!(collect_rows(&[row, skipped, row]), Ok(vec![0, 2]));
    assert_eq!(collect_rows(&[]), Ok(vec![]));
    assert_eq!(collect_rows(&[row, failed, failed]), Err(1));
}

#[test]
fn describes_a_coordinate_system() {
    assert_eq!(
        projjson(2961).to_string(),
        "{\"conversion_accuracy\":\"unknown\",\"id\":{\"authority\":\"EPSG\",\"code\":2961},\
         \"type\":\"ProjectedCRS\"}"
    );
}

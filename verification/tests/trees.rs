//! Trees from well-known binary to CityJSON.

use tyler::trees::{
    build_cityjson_feature_bytes, build_tree_model, name_or_geometry, parse_wkb_3d,
    primary_geometry_column, tree_id, KeyValue, Quantized, WkbError,
};

fn polygon(le: bool, with_type: bool, code: u32, rings: &[Vec<[f64; 3]>], has_z: bool) -> Vec<u8> {
    let u32s = |n: u32| if le { n.to_le_bytes() } else { n.to_be_bytes() };
    let f64s = |f: f64| if le { f.to_le_bytes() } else { f.to_be_bytes() };
    let mut out = Vec::new();
    if with_type {
        out.push(if le { 1 } else { 0 });
        out.extend(u32s(code));
    }
    out.extend(u32s(rings.len() as u32));
    for ring in rings {
        out.extend(u32s(ring.len() as u32));
        for p in ring {
            out.extend(f64s(p[0]));
            out.extend(f64s(p[1]));
            if has_z {
                out.extend(f64s(p[2]));
            }
        }
    }
    out
}

fn ring() -> Vec<[f64; 3]> {
    vec![[0.0, 0.5, 1.0], [2.0, 0.0, 1.5], [2.0, 2.0, -3.0]]
}

#[test]
fn parses_polygons_of_both_orders() {
    for le in [true, false] {
        for code in [1003u32, 0x8000_0003] {
            let polygons = parse_wkb_3d(&polygon(le, true, code, &[ring(), ring()], true)).unwrap();
            assert_eq!(polygons.len(), 1);
            assert_eq!(polygons[0].len(), 2);
            let p = polygons[0][1][2];
            assert_eq!(f64::from_bits(p.x), 2.0);
            assert_eq!(f64::from_bits(p.y), 2.0);
            assert_eq!(f64::from_bits(p.z), -3.0);
        }
    }
}

#[test]
fn flat_polygons_lie_at_zero() {
    let polygons = parse_wkb_3d(&polygon(true, true, 3, &[ring()], false)).unwrap();
    assert_eq!(f64::from_bits(polygons[0][0][1].x), 2.0);
    assert_eq!(f64::from_bits(polygons[0][0][1].z), 0.0);
}

#[test]
fn parses_multi_polygons_of_mixed_order() {
    let mut wkb = vec![1u8];
    wkb.extend(1006u32.to_le_bytes());
    wkb.extend(2u32.to_le_bytes());
    wkb.extend(polygon(true, true, 1003, &[ring()], true));
    wkb.extend(polygon(false, true, 1003, &[ring(), ring()], true));
    let polygons = parse_wkb_3d(&wkb).unwrap();
    assert_eq!(polygons.len(), 2);
    assert_eq!(polygons[1].len(), 2);
    assert_eq!(f64::from_bits(polygons[1][0][0].y), 0.5);
    wkb.truncate(9);
    assert_eq!(parse_wkb_3d(&wkb), Err(WkbError::TruncatedMultiPolygon));
    wkb.truncate(8);
    assert_eq!(parse_wkb_3d(&wkb), Err(WkbError::CountMissing));
}

#[test]
fn refuses_broken_geometries() {
    assert_eq!(parse_wkb_3d(&[1, 2, 3, 4]), Err(WkbError::TooShort(4)));
    let whole = polygon(true, true, 1003, &[ring()], true);
    assert_eq!(parse_wkb_3d(&whole[..8]), Err(WkbError::CountMissing));
    assert_eq!(parse_wkb_3d(&whole[..12]), Err(WkbError::TruncatedCount));
    assert_eq!(parse_wkb_3d(&whole[..whole.len() - 1]), Err(WkbError::TruncatedVertex));
    let mut point = vec![1u8];
    point.extend(1001u32.to_le_bytes());
    assert_eq!(
        parse_wkb_3d(&point),
        Err(WkbError::Unsupported { geom_type: 1001, iso_type: 1 })
    );
}

#[test]
fn writes_a_feature_with_one_surface_for_each_ring() {
    let q = |x: i64, y: i64, z: i64| Quantized { x, y, z };
    let polygons = vec![
        vec![vec![q(0, 1, -2), q(3, 4, 5), q(6, 7, 8)]],
        vec![vec![q(9, 9, 9), q(1, 1, 1), q(2, 2, 2)], vec![q(5, 5, 5)]],
    ];
    let bytes = build_cityjson_feature_bytes("t\"1", &polygons, "SolitaryVegetationObject");
    let doc: serde_json::Value = serde_json::from_slice(&bytes).unwrap();
    assert_eq!(doc["type"], "CityJSONFeature");
    assert_eq!(doc["id"], "t\"1");
    let object = &doc["CityObjects"]["t\"1"];
    assert_eq!(object["type"], "SolitaryVegetationObject");
    let geometry = &object["geometry"][0];
    assert_eq!(geometry["type"], "MultiSurface");
    assert_eq!(geometry["lod"], "2");
    assert_eq!(geometry["boundaries"].to_string(), "[[[0,1,2]],[[3,4,5]],[[6]]]");
    assert_eq!(
        doc["vertices"].to_string(),
        "[[0,1,-2],[3,4,5],[6,7,8],[9,9,9],[1,1,1],[2,2,2],[5,5,5]]"
    );
    assert_eq!(
        String::from_utf8(build_cityjson_feature_bytes("a", &[], "X")).unwrap(),
        "{\"CityObjects\":{\"a\":{\"geometry\":[{\"boundaries\":[],\"lod\":\"2\",\
         \"type\":\"MultiSurface\"}],\"type\":\"X\"}},\"id\":\"a\",\
         \"type\":\"CityJSONFeature\",\"vertices\":[]}"
    );
}

#[test]
fn written_trees_are_city_models() {
    let q = |x: i64, y: i64, z: i64| Quantized { x, y, z };
    let polygons = vec![vec![vec![q(0, 1, 2), q(3, 4, 5), q(6, 7, 8)]]];
    let tree = build_tree_model("tree-1", &polygons, "SolitaryVegetationObject").unwrap();
    assert_eq!(tree.model.cityobjects().len(), 1);
    assert_eq!(tree.model.vertices().len(), 3);
    assert!(build_tree_model("tree-1", &polygons, "Pebble").is_none());
}

fn kv(key: &str, value: Option<&str>) -> KeyValue {
    KeyValue { key: key.to_string(), value: value.map(|v| v.to_string()) }
}

#[test]
fn names_the_geometry_column() {
    let named = |entries: Vec<KeyValue>| primary_geometry_column(&Some(entries));
    assert_eq!(primary_geometry_column(&None), None);
    assert_eq!(named(vec![]), None);
    assert_eq!(named(vec![kv("other", Some("{}"))]), None);
    assert_eq!(named(vec![kv("geo", None)]), None);
    assert_eq!(named(vec![kv("geo", Some("{"))]), None);
    assert_eq!(named(vec![kv("geo", Some("{}"))]).as_deref(), Some("geometry"));
    assert_eq!(named(vec![kv("geo", Some("[1]"))]).as_deref(), Some("geometry"));
    assert_eq!(
        named(vec![kv("geo", Some("{\"primary_column\": 3}"))]).as_deref(),
        Some("geometry")
    );
    assert_eq!(
        named(vec![kv("a", None), kv("geo", Some("{\"primary_column\": \"shape\"}"))]).as_deref(),
        Some("shape")
    );
    // The first entry counts, also where it has no value.
    assert_eq!(
        named(vec![kv("geo", None), kv("geo", Some("{\"primary_column\": \"shape\"}"))]),
        None
    );
    assert_eq!(name_or_geometry(None), "geometry");
    assert_eq!(name_or_geometry(Some("g")), "g");
}

#[test]
fn numbers_trees_without_an_id() {
    assert_eq!(tree_id(Some("oak".to_string()), 4), ("oak".to_string(), 4));
    assert_eq!(tree_id(None, 0), ("tree-1".to_string(), 1));
    assert_eq!(tree_id(None, 99), ("tree-100".to_string(), 100));
}

//! Point clouds as splats.

use tyler::copc_reader::reader::Vlr;
use tyler::gltf_writer::mesh::Vec3;
use tyler::las_source::{
    classify_point, epsg_text, extract_las_epsg, filter_features_by_las_bbox, gather_splats,
    geokey_epsg,
    plan_transformer, strided_tier, tier_max_level, tier_stride, tile_splats, wkt_epsg, CellId,
    CrsPlan, PointFate, SplatCloud, SplatError,
};

#[test]
fn codes_in_coordinate_system_texts() {
    assert_eq!(wkt_epsg(b"PROJCRS[\"x\",ID[\"EPSG\",28992]]"), Some(28992));
    assert_eq!(wkt_epsg(b"PROJCS[\"x\",AUTHORITY[\"EPSG\",7415]]"), Some(7415));
    // The authority is looked for first.
    assert_eq!(wkt_epsg(b"ID[\"EPSG\",1] AUTHORITY[\"EPSG\",2]"), Some(2));
    // Only the first occurrence counts.
    assert_eq!(wkt_epsg(b"ID[\"EPSG\",x] ID[\"EPSG\",5]"), None);
    assert_eq!(wkt_epsg(b"AUTHORITY[\"EPSG\",x] ID[\"EPSG\",5]"), Some(5));
    assert_eq!(wkt_epsg(b"ID[\"EPSG\",4294967296]"), None);
    assert_eq!(wkt_epsg(b"ID[\"EPSG\",4294967295]"), Some(4294967295));
    assert_eq!(wkt_epsg(b""), None);
    // A code may stand in quotes after the first mark, and only there.
    assert_eq!(wkt_epsg(b"PROJCS[\"x\",AUTHORITY[\"EPSG\",\"7415\"]]"), Some(7415));
    assert_eq!(wkt_epsg(b"ID[\"EPSG\",\"7415\"]"), None);
    assert_eq!(wkt_epsg(b"AUTHORITY[\"EPSG\",\"\"7415\"]"), None);
    assert_eq!(wkt_epsg(b"AUTHORITY[\"EPSG\",\""), None);
}

fn geokeys(keys: &[[u16; 4]]) -> Vec<u8> {
    let mut out = Vec::new();
    for n in [1u16, 1, 0, keys.len() as u16] {
        out.extend(n.to_le_bytes());
    }
    for k in keys {
        for n in k {
            out.extend(n.to_le_bytes());
        }
    }
    out
}

#[test]
fn codes_in_key_directories() {
    assert_eq!(geokey_epsg(&geokeys(&[[1024, 0, 1, 1], [3072, 0, 1, 28992]])), Some(28992));
    assert_eq!(geokey_epsg(&geokeys(&[[2048, 0, 1, 4326], [3072, 0, 1, 28992]])), Some(4326));
    assert_eq!(geokey_epsg(&geokeys(&[[3072, 34737, 1, 5], [2048, 0, 1, 0]])), None);
    assert_eq!(geokey_epsg(&geokeys(&[])), None);
    assert_eq!(geokey_epsg(&[0; 7]), None);
    // A key that is cut off ends the directory.
    let mut cut = geokeys(&[[1024, 0, 1, 1], [3072, 0, 1, 28992]]);
    cut.pop();
    assert_eq!(geokey_epsg(&cut), None);
}

fn vlr(record_id: u16, data: Vec<u8>) -> Vlr {
    Vlr { user_id: "LASF_Projection".to_string(), record_id, data }
}

#[test]
fn first_record_with_a_code_counts() {
    let keys = geokeys(&[[3072, 0, 1, 28992]]);
    let wkt = b"ID[\"EPSG\",7415]".to_vec();
    assert_eq!(extract_las_epsg(&[vlr(34735, keys.clone()), vlr(2112, wkt.clone())]), Some(28992));
    assert_eq!(extract_las_epsg(&[vlr(2112, wkt.clone()), vlr(34735, keys.clone())]), Some(7415));
    assert_eq!(extract_las_epsg(&[vlr(2112, vec![]), vlr(34735, keys)]), Some(28992));
    assert_eq!(extract_las_epsg(&[vlr(1, wkt)]), None);
    let quoted = b"PROJCS[\"x\",AUTHORITY[\"EPSG\",\"7415\"]]".to_vec();
    assert_eq!(extract_las_epsg(&[vlr(2112, quoted)]), Some(7415));
    assert_eq!(extract_las_epsg(&[]), None);
}

#[test]
fn plans_of_reprojection() {
    assert_eq!(epsg_text(7415), "EPSG:7415");
    assert_eq!(epsg_text(0), "EPSG:0");
    assert_eq!(plan_transformer(None, "EPSG:7415"), CrsPlan::Unknown);
    assert_eq!(plan_transformer(Some(7415), "EPSG:7415"), CrsPlan::Same);
    assert_eq!(plan_transformer(Some(28992), "EPSG:7415"), CrsPlan::Reproject(28992));
}

#[test]
fn points_that_are_kept() {
    let color = Some((0xff00, 0x1234, 0x00ff));
    let keep = PointFate::Keep { red: 0xff, green: 0x12, blue: 0 };
    assert_eq!(classify_point(2, color, true), keep);
    assert_eq!(classify_point(7, color, false), keep);
    assert_eq!(classify_point(7, color, true), PointFate::Noise);
    assert_eq!(classify_point(18, None, true), PointFate::Noise);
    assert_eq!(classify_point(2, None, true), PointFate::NoColor);
}

#[test]
fn tiers_of_points_by_number() {
    let tiers: Vec<u8> = (0..9).map(|n| strided_tier(3, n)).collect();
    assert_eq!(tiers, vec![0, 2, 1, 2, 0, 2, 1, 2, 0]);
    assert_eq!(strided_tier(1, 17), 0);
    assert_eq!(strided_tier(64, 1), 63);
    assert_eq!(strided_tier(64, 0), 0);
    assert_eq!(tier_stride(3, 0), 4);
    assert_eq!(tier_stride(3, 2), 1);
    assert_eq!(tier_stride(64, 0), 1 << 63);
}

#[test]
fn tiers_of_octree_levels() {
    assert_eq!(tier_max_level(0, 3, 7), 2);
    assert_eq!(tier_max_level(1, 3, 7), 4);
    assert_eq!(tier_max_level(2, 3, 7), 7);
    assert_eq!(tier_max_level(5, 3, 7), 7);
    assert_eq!(tier_max_level(0, 2, -3), -3);
}

fn rgb() -> Vec3 {
    Vec3 { x: 1, y: 2, z: 3 }
}

fn cell(column: usize, row: usize) -> CellId {
    CellId { column, row }
}

#[test]
fn splats_are_found_by_cell_and_tier() {
    let mut cloud = SplatCloud::new();
    cloud.add_point(1, 2, 3, rgb(), 0, &cell(0, 0));
    cloud.add_point(4, 5, 6, rgb(), 2, &cell(0, 1));
    cloud.add_point(7, 8, 9, rgb(), 2, &cell(0, 0));
    cloud.add_point(7, 8, 9, rgb(), 1, &cell(1, 0));
    let scales: Vec<u32> = [0.5f32, 1.0, 2.0].iter().map(|f| f.to_bits()).collect();
    let cloud = cloud.finalize(3, vec![1, 2, 3], &scales).unwrap();
    assert_eq!(cloud.n_lod_tiers, 3);
    assert_eq!(cloud.tier_spacings, vec![1, 2, 3]);
    assert_eq!(cloud.splats_for_cells(&[cell(0, 0), cell(5, 5), cell(0, 1)]), vec![0, 2, 1]);
    assert_eq!(cloud.splats_for_cells_at_lod(&[cell(0, 1), cell(0, 0)], 2), vec![1, 2]);
    assert_eq!(cloud.splats_for_cells_at_lod(&[cell(0, 0)], 1), Vec::<usize>::new());
    assert_eq!(cloud.splats_for_cells_at_lod(&[cell(0, 0)], 9), Vec::<usize>::new());
    let s = cloud.splats[0];
    assert_eq!((s.x, s.y, s.z), (1, 2, 3));
    assert_eq!(f32::from_bits(s.scale.x), 2.0);
    assert_eq!(f32::from_bits(cloud.splats[1].scale.z), 0.5);
    assert_eq!(f32::from_bits(cloud.splats[3].scale.y), 1.0);
    assert_eq!(f32::from_bits(s.rotation.w), 1.0);
    assert_eq!(f32::from_bits(s.opacity), 1.0);
    assert_eq!(tile_splats(Some(&cloud), None, &[cell(0, 0)]), vec![0, 2]);
    assert_eq!(tile_splats(Some(&cloud), Some(2), &[cell(0, 0)]), vec![2]);
    let place = Vec3 { x: 7, y: 8, z: 9 };
    let written = gather_splats(&cloud, &[1], &[place], &[rgb()]);
    assert_eq!(written.len(), 1);
    assert_eq!(written[0].position, place);
    assert_eq!(written[0].scale, cloud.splats[1].scale);
    assert_eq!(written[0].sh0, rgb());
    assert_eq!(tile_splats(None, Some(2), &[cell(0, 0)]), Vec::<usize>::new());
}

#[test]
fn tiers_divide_up_the_splats_of_cells() {
    let mut cloud = SplatCloud::new();
    for i in 0..24u8 {
        cloud.add_point(0, 0, 0, rgb(), i % 5 % 3, &cell(usize::from(i % 4), 0));
    }
    let cells = [cell(2, 0), cell(0, 0), cell(7, 7), cell(3, 0)];
    let all = cloud.splats_for_cells(&cells);
    assert_eq!(all.len(), 18);
    let mut parts: Vec<usize> = Vec::new();
    for tier in 0..3 {
        let part = cloud.splats_for_cells_at_lod(&cells, tier);
        assert!(part.iter().all(|&i| cloud.splats[i].lod_tier == tier));
        parts.extend(part);
    }
    let mut sorted = all.clone();
    sorted.sort();
    parts.sort();
    assert_eq!(parts, sorted);
    sorted.dedup();
    assert_eq!(sorted.len(), 18);
    assert!(cloud.splats_for_cells_at_lod(&cells, 3).is_empty());
}

#[test]
fn one_tier_is_not_scaled_up() {
    let mut cloud = SplatCloud::new();
    cloud.add_point(0, 0, 0, rgb(), 0, &cell(0, 0));
    let cloud = cloud.finalize(1, vec![], &[0.25f32.to_bits()]).unwrap();
    assert_eq!(f32::from_bits(cloud.splats[0].scale.x), 0.25);
}

#[test]
fn a_cloud_needs_colored_points() {
    assert!(matches!(
        SplatCloud::new().finalize(1, vec![], &[1]),
        Err(SplatError::NoColoredPoints)
    ));
}

#[test]
fn features_within_the_points() {
    let at = |x: f64, y: f64| Some((x.to_bits(), y.to_bits()));
    let corner = |x: f64, y: f64| (x.to_bits(), y.to_bits());
    let centers = [at(0.0, 0.0), at(5.0, 5.0), None, at(10.0, 10.0), at(10.1, 5.0), at(f64::NAN, 5.0)];
    assert_eq!(
        filter_features_by_las_bbox(&centers, corner(-0.0, 0.0), corner(10.0, 10.0)),
        vec![0, 1, 3]
    );
}

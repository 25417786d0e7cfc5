//! Opening COPC files and selecting their points.

use tyler::copc_reader::hierarchy::Hierarchy;
use tyler::copc_reader::octree::{Entry, HierarchyPage, VoxelKey};
use tyler::copc_reader::points::{PointIter, PointStep, RawBounds};
use tyler::copc_reader::query::{
    bounds_intersect, load_octree_everywhere, Bounds, BoundsSelection, LodSelection, OctreeQuery,
};
use tyler::copc_reader::reader::{
    scan_vlrs, vlr_padding, vlr_role, CopcInfo, CopcOpening, CopcReader, Vlr, VlrRole,
};
use tyler::copc_reader::sorting::sort_by_falling_offset;
use tyler::copc_reader::CopcError;

fn key(level: i32, x: i32, y: i32, z: i32) -> VoxelKey {
    VoxelKey { level, x, y, z }
}

fn entry(k: VoxelKey, offset: u64, byte_size: i32, point_count: i32) -> Entry {
    Entry { key: k, offset, byte_size, point_count }
}

fn entry_bytes(e: &Entry) -> Vec<u8> {
    let mut out = Vec::new();
    for n in [e.key.level, e.key.x, e.key.y, e.key.z] {
        out.extend_from_slice(&n.to_le_bytes());
    }
    out.extend_from_slice(&e.offset.to_le_bytes());
    out.extend_from_slice(&e.byte_size.to_le_bytes());
    out.extend_from_slice(&e.point_count.to_le_bytes());
    out
}

fn page_bytes(entries: &[Entry]) -> Vec<u8> {
    let mut out = Vec::new();
    for e in entries {
        out.extend(entry_bytes(e));
    }
    out
}

fn info_bytes(root_hier_offset: u64, root_hier_size: u64) -> Vec<u8> {
    let mut out = Vec::new();
    for f in [10.0f64, 20.0, 30.0, 8.0, 2.5] {
        out.extend_from_slice(&f.to_le_bytes());
    }
    out.extend_from_slice(&root_hier_offset.to_le_bytes());
    out.extend_from_slice(&root_hier_size.to_le_bytes());
    out
}

/// A LasZip record without items: compressor, coder, version, options, chunk
/// size and two offsets, then the number of items.
fn laszip_bytes() -> Vec<u8> {
    let mut out = Vec::new();
    out.extend_from_slice(&2u16.to_le_bytes());
    out.extend_from_slice(&0u16.to_le_bytes());
    out.extend_from_slice(&[2, 2]);
    out.extend_from_slice(&0u16.to_le_bytes());
    out.extend_from_slice(&0u32.to_le_bytes());
    out.extend_from_slice(&50_000u32.to_le_bytes());
    out.extend_from_slice(&(-1i64).to_le_bytes());
    out.extend_from_slice(&(-1i64).to_le_bytes());
    out.extend_from_slice(&0u16.to_le_bytes());
    out
}

fn vlr(user_id: &str, record_id: u16, data: Vec<u8>) -> Vlr {
    Vlr { user_id: user_id.to_string(), record_id, data }
}

fn small_hierarchy() -> Hierarchy {
    let mut h = Hierarchy::new();
    h.insert(entry(key(0, 0, 0, 0), 100, 10, 5));
    h.insert(entry(key(1, 0, 0, 0), 300, 10, 3));
    h.insert(entry(key(1, 1, 1, 1), 200, 10, 2));
    h.insert(entry(key(1, 1, 0, 0), 400, 0, 0));
    h.insert(entry(key(2, 2, 0, 1), 500, 10, 4));
    h
}

#[test]
fn default_key_is_no_voxel() {
    assert_eq!(VoxelKey::default(), key(-1, 0, 0, 0));
}

#[test]
fn children_halve_every_axis() {
    let children = key(2, 3, 5, 7).children();
    assert_eq!(children.len(), 8);
    assert_eq!(children[0], key(3, 6, 10, 14));
    assert_eq!(children[1], key(3, 7, 10, 14));
    assert_eq!(children[2], key(3, 6, 11, 14));
    assert_eq!(children[4], key(3, 6, 10, 15));
    assert_eq!(children[7], key(3, 7, 11, 15));
    for i in 0..8 {
        assert_eq!(children[i].x >> 1, 3);
        for j in 0..i {
            assert_ne!(children[i], children[j]);
        }
    }
}

#[test]
fn reads_entries_of_a_page() {
    let a = entry(key(1, 0, 1, 0), 0x1122_3344_5566_7788, 64, -1);
    let b = entry(key(-1, -2, 3, 4), 9, -5, 7);
    let bytes = page_bytes(&[a, b]);
    assert_eq!(Entry::read_from(&bytes, 32), Ok(b));
    assert_eq!(VoxelKey::read_from(&bytes, 0), Ok(a.key));
    let page = HierarchyPage::read_from(&bytes, 64).unwrap();
    assert_eq!(page.entries, vec![a, b]);
    // What is left over after whole entries is ignored.
    let page = HierarchyPage::read_from(&bytes, 63).unwrap();
    assert_eq!(page.entries, vec![a]);
    assert!(matches!(HierarchyPage::read_from(&bytes, 96), Err(CopcError::UnexpectedEof)));
    assert_eq!(Entry::read_from(&bytes, 33), Err(CopcError::UnexpectedEof));
    assert_eq!(VoxelKey::read_from(&bytes, 50), Err(CopcError::UnexpectedEof));
}

#[test]
fn reads_the_info_record() {
    let info = CopcInfo::read_from(&info_bytes(1000, 96)).unwrap();
    assert_eq!(f64::from_bits(info.center_x), 10.0);
    assert_eq!(f64::from_bits(info.center_z), 30.0);
    assert_eq!(f64::from_bits(info.halfsize), 8.0);
    assert_eq!(f64::from_bits(info.spacing), 2.5);
    assert_eq!(info.root_hier_offset, 1000);
    assert_eq!(info.root_hier_size, 96);
    assert_eq!(CopcInfo::read_from(&info_bytes(1000, 96)[..55]), Err(CopcError::UnexpectedEof));
}

#[test]
fn roles_of_records() {
    assert_eq!(vlr_role("copc", 1), VlrRole::CopcInfo);
    assert_eq!(vlr_role("copc", 1000), VlrRole::Hierarchy);
    assert_eq!(vlr_role("laszip encoded", 22204), VlrRole::LasZip);
    assert_eq!(vlr_role("copc", 2), VlrRole::Other);
    assert_eq!(vlr_role("COPC", 1), VlrRole::Other);
}

#[test]
fn scanning_ignores_case_and_takes_the_last() {
    let vlrs = vec![
        vlr("Copc", 1, info_bytes(1, 32)),
        vlr("COPC", 1, info_bytes(2, 64)),
        vlr("LASF_Projection", 2112, vec![1, 2, 3]),
        vlr("LasZip Encoded", 22204, laszip_bytes()),
    ];
    let scan = scan_vlrs(&vlrs).unwrap();
    assert_eq!(scan.info.unwrap().root_hier_offset, 2);
    assert_eq!(scan.hierarchy, None);
    assert_eq!(scan.laszip, Some(3));
}

#[test]
fn unreadable_laszip_record_is_an_error() {
    let vlrs = vec![vlr("laszip encoded", 22204, vec![1])];
    assert!(matches!(scan_vlrs(&vlrs), Err(CopcError::LasZip)));
    let with_items = |count: u16, items: &[u16]| {
        let mut data = laszip_bytes();
        data.truncate(32);
        data.extend_from_slice(&count.to_le_bytes());
        for item in items {
            data.extend_from_slice(&item.to_le_bytes());
            data.extend_from_slice(&[20, 0, 2, 0]);
        }
        scan_vlrs(&[vlr("laszip encoded", 22204, data)]).is_ok()
    };
    assert!(with_items(2, &[6, 14]));
    assert!(with_items(1, &[0, 99]));
    assert!(!with_items(2, &[6, 5]));
    assert!(!with_items(2, &[6, 15]));
    assert!(!with_items(2, &[6]));
    let mut odd = laszip_bytes();
    odd[0] = 4;
    assert!(scan_vlrs(&[vlr("laszip encoded", 22204, odd)]).is_err());
    let vlrs = vec![vlr("copc", 1, vec![0; 10])];
    assert!(matches!(scan_vlrs(&vlrs), Err(CopcError::UnexpectedEof)));
}

#[test]
fn opening_reports_missing_records() {
    assert!(matches!(CopcOpening::begin(&[]), Err(CopcError::CopcInfoVlrNotFound)));
    let vlrs = vec![vlr("copc", 1, info_bytes(0, 0))];
    assert!(matches!(CopcOpening::begin(&vlrs), Err(CopcError::EptHierarchyVlrNotFound)));
    let vlrs = vec![vlr("copc", 1, info_bytes(0, 32)), vlr("copc", 1000, vec![0; 31])];
    assert!(matches!(CopcOpening::begin(&vlrs), Err(CopcError::UnexpectedEof)));
    let vlrs = vec![vlr("copc", 1, info_bytes(0, 0)), vlr("copc", 1000, vec![])];
    let mut opening = CopcOpening::begin(&vlrs).unwrap();
    assert_eq!(opening.next_page(), None);
    assert!(matches!(CopcReader::new(opening), Err(CopcError::LasZipVlrNotFound)));
}

#[test]
fn opening_follows_pages() {
    let root = entry(key(0, 0, 0, 0), 5, 5, 10);
    let further = entry(key(1, 0, 0, 0), 1096, 64, -1);
    let deep_a = entry(key(1, 0, 0, 0), 50, 5, 6);
    let deep_b = entry(key(2, 1, 1, 1), 60, 5, 7);
    let vlrs = vec![
        vlr("copc", 1, info_bytes(1000, 64)),
        vlr("laszip encoded", 22204, laszip_bytes()),
        vlr("copc", 1000, page_bytes(&[root, further])),
    ];
    let mut opening = CopcOpening::begin(&vlrs).unwrap();
    let page = opening.next_page().unwrap();
    assert_eq!(page, further);
    assert_eq!(opening.page_place(&page), (96, 64));
    assert_eq!(opening.add_page(&page, &[0; 63]), Err(CopcError::UnexpectedEof));
    assert_eq!(opening.add_page(&page, &page_bytes(&[deep_a, deep_b])), Ok(()));
    assert_eq!(opening.next_page(), None);
    let reader = CopcReader::new(opening).unwrap();
    assert_eq!(reader.laszip_record(), 1);
    assert_eq!(reader.max_octree_level(), 2);
    assert_eq!(reader.copc_info().root_hier_offset, 1000);
    assert_eq!(reader.hierarchy().get(&key(0, 0, 0, 0)), Some(root));
    assert_eq!(reader.hierarchy().get(&key(1, 0, 0, 0)), Some(deep_a));
    assert_eq!(reader.hierarchy().get(&key(1, 1, 0, 0)), None);
    let chunks = reader.load_octree_for_query(&LodSelection::All, 0).unwrap();
    assert_eq!(chunks, vec![deep_b, deep_a, root]);
    let chunks = reader.load_octree_for_query(&LodSelection::Level(1), 0).unwrap();
    assert_eq!(chunks, vec![deep_a]);
    let walk = reader.points(chunks, None);
    assert_eq!(walk.size_hint(), (6, Some(6)));
}

#[test]
fn padding_after_records() {
    assert_eq!(vlr_padding(375, &[100, 25], 500, 0), Ok(0));
    assert_eq!(vlr_padding(375, &[100, 5], 500, 0), Ok(20));
    assert_eq!(vlr_padding(375, &[], 400, 7), Ok(32));
    assert_eq!(
        vlr_padding(375, &[126], 500, 0),
        Err(CopcError::OffsetToPointDataTooSmall(500))
    );
}

#[test]
fn levels_of_selections() {
    assert_eq!(LodSelection::All.level_range(0), Ok((0, i32::MAX)));
    assert_eq!(LodSelection::Level(3).level_range(0), Ok((3, 4)));
    assert_eq!(LodSelection::LevelMinMax(1, 4).level_range(0), Ok((1, 4)));
    let half = LodSelection::Resolution(0.5f64.to_bits());
    assert_eq!(half.level_range(3), Ok((0, 4)));
    assert_eq!(half.level_range(-5), Ok((0, 1)));
    for bad in [0.0f64, -1.0, f64::NAN, f64::INFINITY, f64::MIN_POSITIVE / 2.0] {
        let bits = bad.to_bits();
        assert_eq!(
            LodSelection::Resolution(bits).level_range(0),
            Err(CopcError::InvalidResolution(bits))
        );
        // However often the spacing would have to be halved.
        assert_eq!(
            LodSelection::Resolution(bits).level_range(i32::MAX),
            Err(CopcError::InvalidResolution(bits))
        );
    }
}

fn cube(lo: f64, hi: f64) -> Bounds {
    Bounds {
        min_x: lo.to_bits(),
        min_y: lo.to_bits(),
        min_z: lo.to_bits(),
        max_x: hi.to_bits(),
        max_y: hi.to_bits(),
        max_z: hi.to_bits(),
    }
}

#[test]
fn boxes_that_touch_intersect() {
    assert!(bounds_intersect(&cube(-1.0, 0.0), &cube(0.0, 1.0)));
    assert!(bounds_intersect(&cube(-1.0, 2.0), &cube(0.0, 1.0)));
    assert!(!bounds_intersect(&cube(-2.0, -1.0), &cube(0.0, 1.0)));
    let mut above = cube(0.0, 1.0);
    above.min_z = 1.5f64.to_bits();
    above.max_z = 2.0f64.to_bits();
    assert!(!bounds_intersect(&cube(0.0, 1.0), &above));
    assert!(!bounds_intersect(&above, &cube(0.0, 1.0)));
    assert!(BoundsSelection::All.admits_node(&above));
    assert!(!BoundsSelection::Within(cube(0.0, 1.0)).admits_node(&above));
}

#[test]
fn query_walks_the_octree() {
    let h = small_hierarchy();
    let all = load_octree_everywhere(&h, 0, i32::MAX);
    let offsets: Vec<u64> = all.iter().map(|e| e.offset).collect();
    assert_eq!(offsets, vec![500, 300, 200, 100]);
    let top = load_octree_everywhere(&h, 0, 1);
    assert_eq!(top.len(), 1);
    let middle = load_octree_everywhere(&h, 1, 2);
    let offsets: Vec<u64> = middle.iter().map(|e| e.offset).collect();
    assert_eq!(offsets, vec![300, 200]);
}

#[test]
fn query_leaves_out_what_is_outside() {
    let h = small_hierarchy();
    let mut query = OctreeQuery::new(0, i32::MAX);
    let mut asked = Vec::new();
    while let Some(k) = query.next_node(&h) {
        asked.push(k);
        // Everything below the far half is outside.
        query.answer(&h, !(k.level >= 1 && k.x >= 1));
    }
    let found = query.finish();
    let offsets: Vec<u64> = found.iter().map(|e| e.offset).collect();
    assert_eq!(offsets, vec![300, 100]);
    // The voxel of level 2 lies below one that is outside.
    assert!(!asked.contains(&key(2, 2, 0, 1)));
    assert!(asked.contains(&key(1, 1, 1, 1)));
}

#[test]
fn deepest_level_of_a_hierarchy() {
    assert_eq!(Hierarchy::new().max_octree_level(), 0);
    assert_eq!(small_hierarchy().max_octree_level(), 2);
    let mut h = Hierarchy::new();
    h.insert(entry(key(-3, 0, 0, 0), 0, 0, 0));
    assert_eq!(h.max_octree_level(), -3);
}

#[test]
fn later_entries_replace_earlier_ones() {
    let mut h = small_hierarchy();
    let fresh = entry(key(1, 1, 1, 1), 999, 1, 1);
    h.insert(fresh);
    assert_eq!(h.get(&key(1, 1, 1, 1)), Some(fresh));
    assert_eq!(h.get(&key(1, 1, 1, -1)), None);
}

#[test]
fn sorting_is_stable_and_falling() {
    let e = |offset: u64, n: i32| entry(key(0, 0, 0, 0), offset, 0, n);
    let sorted = sort_by_falling_offset(vec![e(1, 1), e(5, 2), e(3, 3), e(5, 4), e(1, 5)]);
    let counts: Vec<i32> = sorted.iter().map(|e| e.point_count).collect();
    assert_eq!(counts, vec![2, 4, 3, 1, 5]);
    assert!(sort_by_falling_offset(vec![]).is_empty());
}

#[test]
fn points_come_from_the_last_chunk_first() {
    let chunks = vec![
        entry(key(2, 0, 0, 0), 900, 1, 1),
        entry(key(0, 0, 0, 0), 100, 1, 2),
    ];
    let mut walk = PointIter::new(chunks, None);
    assert_eq!(walk.size_hint(), (3, Some(3)));
    assert_eq!(walk.step(), PointStep::SeekAndDecompress(100));
    assert_eq!(walk.accept(1, 2, 3), Some(0));
    assert_eq!(walk.step(), PointStep::Decompress);
    assert_eq!(walk.accept(1, 2, 3), Some(0));
    assert_eq!(walk.step(), PointStep::SeekAndDecompress(900));
    assert_eq!(walk.accept(1, 2, 3), Some(2));
    assert_eq!(walk.size_hint(), (0, Some(0)));
    assert_eq!(walk.step(), PointStep::Done);
    assert_eq!(walk.step(), PointStep::Done);
}

#[test]
fn a_walk_takes_every_point_of_a_query() {
    let chunks = load_octree_everywhere(&small_hierarchy(), 0, i32::MAX);
    let total: i32 = chunks.iter().map(|e| e.point_count).sum();
    let mut walk = PointIter::new(chunks, None);
    let mut visited = Vec::new();
    let mut count = 0;
    loop {
        match walk.step() {
            PointStep::Done => break,
            PointStep::SeekAndDecompress(offset) => visited.push(offset),
            PointStep::Decompress => {}
        }
        assert!(walk.accept(0, 0, 0).is_some());
        count += 1;
    }
    assert_eq!(visited, vec![100, 200, 300, 500]);
    assert_eq!(count, total);
}

#[test]
fn points_outside_the_box_are_dropped() {
    let bounds = RawBounds { min_x: 0, min_y: 0, min_z: 0, max_x: 9, max_y: 9, max_z: 9 };
    assert!(bounds.contains_point(0, 9, 5));
    assert!(!bounds.contains_point(0, 10, 5));
    assert!(!bounds.contains_point(0, 5, -1));
    let mut walk = PointIter::new(vec![entry(key(1, 0, 0, 0), 7, 1, 2)], Some(bounds));
    assert_eq!(walk.step(), PointStep::SeekAndDecompress(7));
    assert_eq!(walk.accept(20, 0, 0), None);
    assert_eq!(walk.step(), PointStep::Decompress);
    assert_eq!(walk.accept(2, 0, 0), Some(1));
    assert_eq!(walk.step(), PointStep::Done);
}

fn record(x: i32, y: i32, z: i32, length: usize) -> Vec<u8> {
    let mut out = Vec::new();
    for n in [x, y, z] {
        out.extend_from_slice(&n.to_le_bytes());
    }
    out.resize(length, 7);
    out
}

#[test]
fn records_are_read_by_their_format() {
    // The number of a format and the length of its records.
    let formats: [(u8, usize); 15] = [
        (0, 20),
        (1, 28),
        (2, 26),
        (3, 34),
        (4, 57),
        (5, 63),
        (6, 30),
        (7, 36),
        (8, 38),
        (9, 59),
        (10, 67),
        (0x80 | 3, 34),
        (0x80 | 7, 36),
        (0xc0 | 7, 36),
        (0x80 | 11, 22),
    ];
    for (format, length) in formats {
        let mut walk = PointIter::new(vec![entry(key(3, 0, 0, 0), 7, 1, 5)], None);
        assert_eq!(walk.step(), PointStep::SeekAndDecompress(7));
        assert_eq!(walk.accept_record(&record(1, 2, 3, length - 1), format, 0), None);
        assert_eq!(walk.accept_record(&record(1, 2, 3, length), format, 1), None);
        assert_eq!(walk.size_hint(), (5, Some(5)));
        assert_eq!(walk.accept_record(&record(1, 2, 3, length), format, 0), Some(Some(3)));
        assert_eq!(walk.size_hint(), (4, Some(4)));
        assert_eq!(walk.step(), PointStep::Decompress);
        assert_eq!(walk.accept_record(&record(1, 2, 3, length + 4), format, 4), Some(Some(3)));
    }
}

#[test]
fn records_of_unknown_formats_are_not_read() {
    let mut walk = PointIter::new(vec![entry(key(1, 0, 0, 0), 7, 1, 2)], None);
    assert_eq!(walk.step(), PointStep::SeekAndDecompress(7));
    for format in [11, 64, 127] {
        assert_eq!(walk.accept_record(&record(1, 2, 3, 100), format, 0), None);
    }
    assert_eq!(walk.size_hint(), (2, Some(2)));
}

#[test]
fn coordinates_of_records_are_held_against_the_box() {
    let bounds =
        RawBounds { min_x: -1000, min_y: 0, min_z: 256, max_x: -1, max_y: 65536, max_z: 257 };
    let mut walk = PointIter::new(vec![entry(key(1, 0, 0, 0), 7, 1, 4)], Some(bounds));
    assert_eq!(walk.step(), PointStep::SeekAndDecompress(7));
    assert_eq!(walk.accept_record(&record(-1, 65536, 257, 30), 6, 0), Some(Some(1)));
    assert_eq!(walk.step(), PointStep::Decompress);
    assert_eq!(walk.accept_record(&record(0, 65536, 257, 30), 6, 0), Some(None));
    assert_eq!(walk.step(), PointStep::Decompress);
    assert_eq!(walk.accept_record(&record(-1, 65537, 257, 30), 6, 0), Some(None));
    assert_eq!(walk.step(), PointStep::Decompress);
    assert_eq!(walk.accept_record(&record(-1, 65536, 1, 30), 6, 0), Some(None));
    assert_eq!(walk.step(), PointStep::Done);
}

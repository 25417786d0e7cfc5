//! The decisions of a run.

use tyler::tiling::{
    choose_tiles, conversion_failed, effective_capacity, effective_cellsize, exceeds_memory,
    grid_heights, input_features, memory_needed, progress, reference_epsg, skips_tile,
    split_level, Conversion, Formats, HeightRange, QuadTreeCapacity, QuadTreeCriteria, TileChoice,
};

#[test]
fn names_of_formats() {
    assert_eq!(Formats::_3DTiles.to_string(), "3DTiles");
    assert_eq!(Formats::CityJSON.to_string(), "CityJSON");
}

#[test]
fn memory_is_estimated_from_the_file() {
    assert_eq!(memory_needed(5), 15);
    assert_eq!(memory_needed(u64::MAX), 3 * u64::MAX as u128);
    assert!(!exceeds_memory(70, Some(300)));
    assert!(exceeds_memory(71, Some(300)));
    assert!(exceeds_memory(1, Some(0)));
    assert!(!exceeds_memory(0, Some(0)));
    assert!(!exceeds_memory(1 << 40, None));
}

#[test]
fn codes_of_reference_systems() {
    assert_eq!(reference_epsg("https://www.opengis.net/def/crs/EPSG/0/7415"), Some(7415));
    assert_eq!(reference_epsg("7415"), Some(7415));
    assert_eq!(reference_epsg("x/+28992"), Some(28992));
    assert_eq!(reference_epsg("x/0065535"), Some(65535));
    assert_eq!(reference_epsg("x/65536"), None);
    assert_eq!(reference_epsg("x/7415/"), None);
    assert_eq!(reference_epsg(""), None);
    assert_eq!(reference_epsg("x/+"), None);
    assert_eq!(reference_epsg("x/-1"), None);
    assert_eq!(reference_epsg("EPSG:7415"), None);
    assert_eq!(reference_epsg("x/74\u{e9}15"), None);
    assert_eq!(reference_epsg("\u{e9}/12"), Some(12));
    assert_eq!(reference_epsg("x/99999999999999999999"), None);
}

#[test]
fn splats_need_small_cells() {
    assert_eq!(effective_cellsize(250, true), 100);
    assert_eq!(effective_cellsize(50, true), 50);
    assert_eq!(effective_cellsize(250, false), 250);
    assert_eq!(
        effective_capacity(QuadTreeCriteria::Objects, 42, true),
        QuadTreeCapacity::Vertices(0)
    );
    assert_eq!(
        effective_capacity(QuadTreeCriteria::Objects, 42, false),
        QuadTreeCapacity::Objects(42)
    );
    assert_eq!(
        effective_capacity(QuadTreeCriteria::Vertices, 42, false),
        QuadTreeCapacity::Vertices(42)
    );
}

fn range(lowest: f64, highest: f64) -> HeightRange {
    HeightRange {
        lowest: lowest.to_bits(),
        highest: highest.to_bits(),
        depth: (highest - lowest).to_bits(),
    }
}

#[test]
fn deeper_points_set_the_heights() {
    let grid = range(0.0, 10.0);
    let deep = range(-5.0, 20.0);
    assert_eq!(grid_heights(grid, None), grid);
    assert_eq!(grid_heights(grid, Some(deep)), deep);
    assert_eq!(grid_heights(deep, Some(grid)), deep);
    let same = range(1.0, 11.0);
    assert_eq!(grid_heights(grid, Some(same)), grid);
}

#[test]
fn tiles_that_are_written() {
    assert_eq!(choose_tiles(true), TileChoice::WithContent);
    assert_eq!(choose_tiles(false), TileChoice::Leaves);
    assert!(skips_tile(0, false));
    assert!(!skips_tile(0, true));
    assert!(!skips_tile(3, false));
}

#[test]
fn progress_is_reported_now_and_then() {
    assert_eq!(progress(10, 40), Some(25));
    assert_eq!(progress(11, 40), None);
    assert_eq!(progress(7, 7), Some(100));
    assert_eq!(progress(20, 33), Some(60));
}

#[test]
fn output_decides_on_a_conversion() {
    assert!(conversion_failed(Conversion::NotStarted));
    assert!(conversion_failed(Conversion::Ended { output: false }));
    assert!(!conversion_failed(Conversion::Ended { output: true }));
}

#[test]
fn inputs_keep_repeats() {
    assert_eq!(input_features(&[vec![3, 1], vec![], vec![1, 2]]), vec![3, 1, 1, 2]);
}

/// The level at which counting tiles, from the deepest level up, stops.
fn counted_split(levels: u32) -> usize {
    for level in (0..levels).rev() {
        let below = (4u64.pow(levels - level) - 1) / 3;
        let above = (4u64.pow(level) - 1) / 3;
        if above < below {
            return level as usize;
        }
    }
    0
}

#[test]
fn deep_tilesets_are_split_in_the_middle() {
    for levels in 0..=5 {
        assert_eq!(split_level(levels), None);
    }
    assert_eq!(split_level(6), Some(2));
    assert_eq!(split_level(7), Some(3));
    for levels in 6..30u32 {
        assert_eq!(split_level(levels as usize), Some(counted_split(levels)));
    }
}

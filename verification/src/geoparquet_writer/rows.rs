//! The rows of the file.

use crate::float_bits::is_finite_f64;
use crate::geoparquet_writer::attributes::{
    filter_attributes, get_number, get_text, Attribute, GeoParquetConfig,
};
use crate::geoparquet_writer::feature::{
    ExtendedCityJSONFeature, ExtendedCityObject, NamedObject, SemanticSurface,
};
use crate::geoparquet_writer::footprint::{Bbox, Point2};
use crate::geoparquet_writer::roof::{aggregate_semantic_surfaces, RoofData, SurfaceCounts};
use crate::json::{json_object, json_str, json_u64, no_fields, put, Json};
use serde_json::Value;
use vstd::prelude::*;

verus! {

/// What the attributes of a building say of its size: doubles, by their bits.
#[derive(Clone, Copy, Debug, PartialEq, Eq, Structural)]
pub struct BuildingMetrics {
    pub bldgarea: Option<u64>,
    pub heightmax: Option<u64>,
    pub heightmin: Option<u64>,
    pub elevmax: Option<u64>,
    pub elevmin: Option<u64>,
    pub volume_lod22: Option<u64>,
}

/// The measures of a building in its attributes.
pub open spec fn metrics_of(attributes: Seq<Attribute>) -> BuildingMetrics {
    BuildingMetrics {
        bldgarea: crate::geoparquet_writer::attributes::number_in(attributes, "bldgarea"@),
        heightmax: crate::geoparquet_writer::attributes::number_in(attributes, "heightmax"@),
        heightmin: crate::geoparquet_writer::attributes::number_in(attributes, "heightmin"@),
        elevmax: crate::geoparquet_writer::attributes::number_in(attributes, "elevmax"@),
        elevmin: crate::geoparquet_writer::attributes::number_in(attributes, "elevmin"@),
        volume_lod22: crate::geoparquet_writer::attributes::number_in(
            attributes,
            "rf_volume_lod22"@,
        ),
    }
}

/// Picks the measures of a building from its attributes.
pub fn building_metrics(attributes: &[Attribute]) -> (r: BuildingMetrics)
    ensures
        r == metrics_of(attributes@),
{
    BuildingMetrics {
        bldgarea: get_number(attributes, "bldgarea"),
        heightmax: get_number(attributes, "heightmax"),
        heightmin: get_number(attributes, "heightmin"),
        elevmax: get_number(attributes, "elevmax"),
        elevmin: get_number(attributes, "elevmin"),
        volume_lod22: get_number(attributes, "rf_volume_lod22"),
    }
}

/// The id that a row is known by: the "feature_id" attribute, else the id of
/// the feature.
pub fn row_feature_id(attributes: &[Attribute], feature_id: &str) -> (r: String)
    ensures
        r@ == (match crate::geoparquet_writer::attributes::text_in(attributes@, "feature_id"@) {
            Some(text) => text,
            None => feature_id@,
        }),
{
    match get_text(attributes, "feature_id") {
        Some(text) => text.to_owned(),
        None => feature_id.to_owned(),
    }
}

/// The id of the city object in a row: that of the first object of the
/// feature, or "unknown".
pub fn row_object_id(objects: &[NamedObject]) -> (r: String)
    ensures
        r@ == (if objects@.len() > 0 {
            objects@[0].id@
        } else {
            "unknown"@
        }),
{
    if objects.len() > 0 {
        objects[0].id.clone()
    } else {
        "unknown".to_owned()
    }
}

/// A row: a building with its footprint.
pub struct BuildingRow {
    pub feature_id: String,
    pub cityobject_id: String,
    pub cityobject_type: String,
    pub outline: Vec<Point2>,
    pub metrics: BuildingMetrics,
    pub roof_data: RoofData,
    pub surface_counts: SurfaceCounts,
    pub bbox: Bbox,
    /// The attributes that are kept, by their positions.
    pub additional_attributes: Vec<usize>,
}

/// The attributes of an object; none where it has no list.
pub open spec fn attributes_of(object: ExtendedCityObject) -> Seq<Attribute> {
    match object.attributes {
        Some(list) => list@,
        None => Seq::empty(),
    }
}

/// Makes the row of an object of a feature, whose footprint and its reach are
/// given.
pub fn extract_building_row(
    feature: &ExtendedCityJSONFeature,
    object: &ExtendedCityObject,
    config: &GeoParquetConfig,
    outline: Vec<Point2>,
    bbox: Bbox,
) -> (r: BuildingRow)
    requires
        crate::geoparquet_writer::roof::countable(*object),
    ensures
        r.feature_id@ == (match crate::geoparquet_writer::attributes::text_in(
            attributes_of(*object),
            "feature_id"@,
        ) {
            Some(text) => text,
            None => feature.id@,
        }),
        r.cityobject_id@ == (if feature.objects@.len() > 0 {
            feature.objects@[0].id@
        } else {
            "unknown"@
        }),
        r.cityobject_type@ == object.cotype@,
        r.outline == outline,
        r.bbox == bbox,
        r.metrics == metrics_of(attributes_of(*object)),
        exists|surfaces: Seq<SemanticSurface>| #[trigger]
            crate::geoparquet_writer::roof::is_roof_source(*object, surfaces)
                && crate::geoparquet_writer::roof::roof_of(surfaces, r.roof_data)
                && crate::geoparquet_writer::roof::counts_of(surfaces, r.surface_counts)
                && crate::geoparquet_writer::roof::adds(object.attributes, surfaces, r.roof_data),
        r.additional_attributes@.map_values(|i: usize| i as int)
            == crate::geoparquet_writer::attributes::kept_attributes(
            *config,
            attributes_of(*object),
        ),
{
    let none: Vec<Attribute> = Vec::new();
    assert(none@ =~= Seq::<Attribute>::empty());
    let attributes: &[Attribute] = match &object.attributes {
        Some(list) => list.as_slice(),
        None => none.as_slice(),
    };
    let (roof_data, surface_counts) = aggregate_semantic_surfaces(object);
    BuildingRow {
        feature_id: row_feature_id(attributes, feature.id.as_str()),
        cityobject_id: row_object_id(feature.objects.as_slice()),
        cityobject_type: object.cotype.clone(),
        outline,
        metrics: building_metrics(attributes),
        roof_data,
        surface_counts,
        bbox,
        additional_attributes: filter_attributes(attributes, config),
    }
}

// ------------------------------------------------------------ rows to write

/// Whether an outline can be written: it has four points or more, and all its
/// coordinates are finite.
pub open spec fn is_writable(outline: Seq<Point2>) -> bool {
    &&& outline.len() >= 4
    &&& forall|i: int|
        0 <= i < outline.len() ==> crate::float_bits::f64_is_finite((#[trigger] outline[i]).x)
            && crate::float_bits::f64_is_finite(outline[i].y)
}

/// Whether an outline can be written.
pub fn outline_is_writable(outline: &[Point2]) -> (r: bool)
    ensures
        r == is_writable(outline@),
{
    let n: usize = outline.len();
    if n < 4 {
        return false;
    }
    let mut i: usize = 0;
    while i < n
        invariant
            4 <= n,
            i <= n,
            n == outline@.len(),
            forall|k: int|
                0 <= k < i ==> crate::float_bits::f64_is_finite((#[trigger] outline@[k]).x)
                    && crate::float_bits::f64_is_finite(outline@[k].y),
        decreases n - i,
    {
        if !is_finite_f64(outline[i].x) || !is_finite_f64(outline[i].y) {
            assert(!crate::float_bits::f64_is_finite(outline@[i as int].x)
                || !crate::float_bits::f64_is_finite(outline@[i as int].y));
            return false;
        }
        i += 1;
    }
    true
}

/// Why no file is written.
#[derive(Clone, Copy, Debug, PartialEq, Eq, Structural)]
pub enum RowsError {
    /// There are no rows.
    NoRows,
}

// ---------------------------------------------------------------- collecting

/// What came of a feature file.
#[derive(Clone, Copy, Debug, PartialEq, Eq, Structural)]
pub enum FileOutcome {
    /// A row was made of it.
    Row,
    /// It has no object of a wanted type.
    Skipped,
    /// It could not be used.
    Failed,
}

/// The files that gave rows, by their positions.
pub open spec fn rows_among(outcomes: Seq<FileOutcome>) -> Seq<usize>
    decreases outcomes.len(),
{
    if outcomes.len() == 0 {
        Seq::empty()
    } else if outcomes.last() == FileOutcome::Row {
        rows_among(outcomes.drop_last()).push((outcomes.len() - 1) as usize)
    } else {
        rows_among(outcomes.drop_last())
    }
}

/// Puts the results for all files together. The first failure, by the position
/// of its file, ends the conversion.
pub fn collect_rows(outcomes: &[FileOutcome]) -> (r: Result<Vec<usize>, usize>)
    ensures
        match r {
            Ok(rows) => {
                &&& rows@ == rows_among(outcomes@)
                &&& forall|k: int|
                    0 <= k < outcomes@.len() ==> #[trigger] outcomes@[k] != FileOutcome::Failed
            },
            Err(i) => {
                &&& i < outcomes@.len()
                &&& outcomes@[i as int] == FileOutcome::Failed
                &&& forall|k: int| 0 <= k < i ==> #[trigger] outcomes@[k] != FileOutcome::Failed
            },
        },
{
    let mut rows: Vec<usize> = Vec::new();
    let n: usize = outcomes.len();
    let mut i: usize = 0;
    while i < n
        invariant
            i <= n,
            n == outcomes@.len(),
            rows@ == rows_among(outcomes@.take(i as int)),
            forall|k: int| 0 <= k < i ==> #[trigger] outcomes@[k] != FileOutcome::Failed,
        decreases n - i,
    {
        proof {
            assert(outcomes@.take(i + 1).drop_last() =~= outcomes@.take(i as int));
        }
        match outcomes[i] {
            FileOutcome::Row => {
                rows.push(i);
            },
            FileOutcome::Skipped => {},
            FileOutcome::Failed => {
                return Err(i);
            },
        }
        i += 1;
    }
    assert(outcomes@.take(n as int) =~= outcomes@);
    Ok(rows)
}

// -------------------------------------------------------- coordinate system

/// The description of a projected coordinate system by its EPSG code.
pub open spec fn projjson_of(code: int) -> Json {
    Json::Obj(map![
        "type"@ => Json::Str("ProjectedCRS"@),
        "id"@ => Json::Obj(map![
            "authority"@ => Json::Str("EPSG"@),
            "code"@ => Json::Int(code),
        ]),
        "conversion_accuracy"@ => Json::Str("unknown"@),
    ])
}

/// Describes a projected coordinate system.
pub fn projjson(epsg_code: u16) -> (r: Value)
    ensures
        crate::json::json_of(r) == projjson_of(epsg_code as int),
{
    let mut id = no_fields();
    put(&mut id, "authority", json_str("EPSG"));
    put(&mut id, "code", json_u64(epsg_code as u64));
    let mut crs = no_fields();
    put(&mut crs, "type", json_str("ProjectedCRS"));
    put(&mut crs, "id", json_object(id));
    put(&mut crs, "conversion_accuracy", json_str("unknown"));
    json_object(crs)
}

// -------------------------------------------------------------------- laws

/// The files that gave rows are listed, and no others, in rising order.
pub proof fn law_rows_come_from_files_in_order(outcomes: Seq<FileOutcome>)
    requires
        outcomes.len() <= usize::MAX,
    ensures
        forall|i: int|
            0 <= i < outcomes.len() ==> (rows_among(outcomes).contains(i as usize) <==> #[trigger] outcomes[i] == FileOutcome::Row),
        forall|k: int|
            0 <= k < rows_among(outcomes).len() ==> 0 <= #[trigger] rows_among(outcomes)[k] < outcomes.len(),
        forall|j: int, k: int|
            0 <= j < k < rows_among(outcomes).len() ==> #[trigger] rows_among(outcomes)[j] < #[trigger] rows_among(outcomes)[k],
    decreases outcomes.len(),
{
    if outcomes.len() > 0 {
        let head = outcomes.drop_last();
        let before = rows_among(head);
        let all = rows_among(outcomes);
        let last = (outcomes.len() - 1) as usize;
        law_rows_come_from_files_in_order(head);
        assert(!before.contains(last)) by {
            if before.contains(last) {
                let k = choose|k: int| 0 <= k < before.len() && before[k] == last;
                assert(before[k] < head.len());
            }
        }
        assert forall|i: int| 0 <= i < outcomes.len() implies (all.contains(i as usize) <==> #[trigger] outcomes[i] == FileOutcome::Row) by {
            vstd::seq_lib::lemma_seq_contains_after_push(before, last, i as usize);
            if i < head.len() {
                assert(head[i] == outcomes[i]);
            } else {
                assert(outcomes[i] == outcomes.last());
            }
        }
    }
}

/// An outline can be written if and only if it has four points or more and every
/// coordinate lies between the infinities; so one that cannot be written for a
/// coordinate cannot be with more points either.
pub proof fn law_outlines_that_can_be_written(outline: Seq<Point2>, more: Seq<Point2>)
    ensures
        outline.len() < 4 ==> !is_writable(outline),
        is_writable(outline) ==> forall|i: int|
            0 <= i < outline.len() ==> {
                &&& crate::float_bits::f64_lt(0xfff0_0000_0000_0000, (#[trigger] outline[i]).x)
                &&& crate::float_bits::f64_lt(outline[i].x, 0x7ff0_0000_0000_0000)
                &&& crate::float_bits::f64_lt(0xfff0_0000_0000_0000, outline[i].y)
                &&& crate::float_bits::f64_lt(outline[i].y, 0x7ff0_0000_0000_0000)
            },
        is_writable(outline) && is_writable(more) ==> is_writable(outline + more),
        outline.len() >= 4 && !is_writable(outline) ==> !is_writable(outline + more)
            && !is_writable(more + outline),
{
    let both = outline + more;
    let turned = more + outline;
    assert forall|i: int| 0 <= i < both.len() implies #[trigger] both[i] == (if i < outline.len() {
        outline[i]
    } else {
        more[i - outline.len()]
    }) by {}
    if outline.len() >= 4 && !is_writable(outline) {
        let i = choose|i: int|
            0 <= i < outline.len() && !(crate::float_bits::f64_is_finite((#[trigger] outline[i]).x)
                && crate::float_bits::f64_is_finite(outline[i].y));
        assert(both[i] == outline[i]);
        assert(turned[more.len() + i] == outline[i]);
    }
    if is_writable(outline) {
        assert forall|i: int| 0 <= i < outline.len() implies {
            &&& crate::float_bits::f64_lt(0xfff0_0000_0000_0000, (#[trigger] outline[i]).x)
            &&& crate::float_bits::f64_lt(outline[i].x, 0x7ff0_0000_0000_0000)
            &&& crate::float_bits::f64_lt(0xfff0_0000_0000_0000, outline[i].y)
            &&& crate::float_bits::f64_lt(outline[i].y, 0x7ff0_0000_0000_0000)
        } by {
            crate::float_bits::law_f64_equal_and_at_most(outline[i].x, 0);
            crate::float_bits::law_f64_equal_and_at_most(outline[i].y, 0);
        }
    }
}

/// The code can be read from the description of a coordinate system.
pub proof fn law_code_can_be_read(code: int)
    ensures
        projjson_of(code) matches Json::Obj(crs) && {
            &&& crs["type"@] == Json::Str("ProjectedCRS"@)
            &&& crs["id"@] matches Json::Obj(id) && {
                &&& id["authority"@] == Json::Str("EPSG"@)
                &&& id["code"@] == Json::Int(code)
            }
        },
{
    reveal_strlit("type");
    reveal_strlit("id");
    reveal_strlit("authority");
    reveal_strlit("code");
    reveal_strlit("conversion_accuracy");
    assert("type"@.len() == 4 && "id"@.len() == 2 && "conversion_accuracy"@.len() == 19);
    assert("authority"@.len() == 9 && "code"@.len() == 4);
}

/// The attributes of an object are those on its list.
pub proof fn law_attributes_of_objects(object: ExtendedCityObject)
    ensures
        object.attributes matches Some(list) ==> attributes_of(object) == list@,
        object.attributes is None ==> attributes_of(object).len() == 0,
{
}

} // verus!

//! The columns of a GeoParquet file.

use crate::geoparquet_writer::footprint::Point2;
use crate::geoparquet_writer::rows::{outline_is_writable, BuildingRow, RowsError};
use vstd::prelude::*;

verus! {

/// What the cells of a column are.
#[derive(Clone, Copy, Debug, PartialEq, Eq, Structural)]
pub enum ColumnKind {
    Text,
    Polygon,
    /// A double.
    Number,
    /// A whole number.
    Whole,
    Flag,
    /// A list of doubles, written as the text of a JSON array.
    List,
    /// The average of a list of doubles.
    Average,
}

/// A column.
#[derive(Clone, Copy, Debug, PartialEq, Eq, Structural)]
pub enum Field {
    FeatureId,
    CityobjectId,
    CityobjectType,
    Geometry,
    Bldgarea,
    Heightmax,
    Heightmin,
    Elevmax,
    Elevmin,
    VolumeLod22,
    RoofNPlanes,
    RoofType,
    RoofAzimuths,
    RoofSlopes,
    RoofElevationMin,
    RoofElevationMax,
    RoofElevation50p,
    RoofElevation70p,
    RoofIsGlass,
    NGroundSurfaces,
    NWallSurfaces,
    NRoofSurfaces,
    BboxMinx,
    BboxMiny,
    BboxMaxx,
    BboxMaxy,
    BboxMinz,
    BboxMaxz,
}

/// The columns of a file, in order.
pub open spec fn all_fields() -> Seq<Field> {
    seq![
        Field::FeatureId,
        Field::CityobjectId,
        Field::CityobjectType,
        Field::Geometry,
        Field::Bldgarea,
        Field::Heightmax,
        Field::Heightmin,
        Field::Elevmax,
        Field::Elevmin,
        Field::VolumeLod22,
        Field::RoofNPlanes,
        Field::RoofType,
        Field::RoofAzimuths,
        Field::RoofSlopes,
        Field::RoofElevationMin,
        Field::RoofElevationMax,
        Field::RoofElevation50p,
        Field::RoofElevation70p,
        Field::RoofIsGlass,
        Field::NGroundSurfaces,
        Field::NWallSurfaces,
        Field::NRoofSurfaces,
        Field::BboxMinx,
        Field::BboxMiny,
        Field::BboxMaxx,
        Field::BboxMaxy,
        Field::BboxMinz,
        Field::BboxMaxz,
    ]
}

/// The columns of a file, in order.
pub fn fields() -> (r: Vec<Field>)
    ensures
        r@ == all_fields(),
{
    let r: Vec<Field> = vec![
        Field::FeatureId,
        Field::CityobjectId,
        Field::CityobjectType,
        Field::Geometry,
        Field::Bldgarea,
        Field::Heightmax,
        Field::Heightmin,
        Field::Elevmax,
        Field::Elevmin,
        Field::VolumeLod22,
        Field::RoofNPlanes,
        Field::RoofType,
        Field::RoofAzimuths,
        Field::RoofSlopes,
        Field::RoofElevationMin,
        Field::RoofElevationMax,
        Field::RoofElevation50p,
        Field::RoofElevation70p,
        Field::RoofIsGlass,
        Field::NGroundSurfaces,
        Field::NWallSurfaces,
        Field::NRoofSurfaces,
        Field::BboxMinx,
        Field::BboxMiny,
        Field::BboxMaxx,
        Field::BboxMaxy,
        Field::BboxMinz,
        Field::BboxMaxz,
    ];
    assert(r@ =~= all_fields());
    r
}

impl Field {
    /// The name of the column.
    pub open spec fn text(self) -> Seq<char> {
        match self {
            Field::FeatureId => "feature_id"@,
            Field::CityobjectId => "cityobject_id"@,
            Field::CityobjectType => "cityobject_type"@,
            Field::Geometry => "geometry"@,
            Field::Bldgarea => "bldgarea"@,
            Field::Heightmax => "heightmax"@,
            Field::Heightmin => "heightmin"@,
            Field::Elevmax => "elevmax"@,
            Field::Elevmin => "elevmin"@,
            Field::VolumeLod22 => "volume_lod22"@,
            Field::RoofNPlanes => "roof_n_planes"@,
            Field::RoofType => "roof_type"@,
            Field::RoofAzimuths => "roof_azimuths"@,
            Field::RoofSlopes => "roof_slopes"@,
            Field::RoofElevationMin => "roof_elevation_min"@,
            Field::RoofElevationMax => "roof_elevation_max"@,
            Field::RoofElevation50p => "roof_elevation_50p"@,
            Field::RoofElevation70p => "roof_elevation_70p"@,
            Field::RoofIsGlass => "roof_is_glass"@,
            Field::NGroundSurfaces => "n_ground_surfaces"@,
            Field::NWallSurfaces => "n_wall_surfaces"@,
            Field::NRoofSurfaces => "n_roof_surfaces"@,
            Field::BboxMinx => "bbox_minx"@,
            Field::BboxMiny => "bbox_miny"@,
            Field::BboxMaxx => "bbox_maxx"@,
            Field::BboxMaxy => "bbox_maxy"@,
            Field::BboxMinz => "bbox_minz"@,
            Field::BboxMaxz => "bbox_maxz"@,
        }
    }

    /// The name of the column.
    pub fn name(&self) -> (r: &'static str)
        ensures
            r@ == self.text(),
    {
        match self {
            Field::FeatureId => "feature_id",
            Field::CityobjectId => "cityobject_id",
            Field::CityobjectType => "cityobject_type",
            Field::Geometry => "geometry",
            Field::Bldgarea => "bldgarea",
            Field::Heightmax => "heightmax",
            Field::Heightmin => "heightmin",
            Field::Elevmax => "elevmax",
            Field::Elevmin => "elevmin",
            Field::VolumeLod22 => "volume_lod22",
            Field::RoofNPlanes => "roof_n_planes",
            Field::RoofType => "roof_type",
            Field::RoofAzimuths => "roof_azimuths",
            Field::RoofSlopes => "roof_slopes",
            Field::RoofElevationMin => "roof_elevation_min",
            Field::RoofElevationMax => "roof_elevation_max",
            Field::RoofElevation50p => "roof_elevation_50p",
            Field::RoofElevation70p => "roof_elevation_70p",
            Field::RoofIsGlass => "roof_is_glass",
            Field::NGroundSurfaces => "n_ground_surfaces",
            Field::NWallSurfaces => "n_wall_surfaces",
            Field::NRoofSurfaces => "n_roof_surfaces",
            Field::BboxMinx => "bbox_minx",
            Field::BboxMiny => "bbox_miny",
            Field::BboxMaxx => "bbox_maxx",
            Field::BboxMaxy => "bbox_maxy",
            Field::BboxMinz => "bbox_minz",
            Field::BboxMaxz => "bbox_maxz",
        }
    }

    /// What the cells of the column are.
    pub open spec fn cells(self) -> ColumnKind {
        match self {
            Field::FeatureId
            | Field::CityobjectId
            | Field::CityobjectType
            | Field::RoofType => ColumnKind::Text,
            Field::Geometry => ColumnKind::Polygon,
            Field::RoofNPlanes
            | Field::NGroundSurfaces
            | Field::NWallSurfaces
            | Field::NRoofSurfaces => ColumnKind::Whole,
            Field::RoofAzimuths | Field::RoofSlopes => ColumnKind::List,
            Field::RoofElevation50p | Field::RoofElevation70p => ColumnKind::Average,
            Field::RoofIsGlass => ColumnKind::Flag,
            _ => ColumnKind::Number,
        }
    }

    /// What the cells of the column are.
    pub fn kind(&self) -> (r: ColumnKind)
        ensures
            r == self.cells(),
    {
        match self {
            Field::FeatureId
            | Field::CityobjectId
            | Field::CityobjectType
            | Field::RoofType => ColumnKind::Text,
            Field::Geometry => ColumnKind::Polygon,
            Field::RoofNPlanes
            | Field::NGroundSurfaces
            | Field::NWallSurfaces
            | Field::NRoofSurfaces => ColumnKind::Whole,
            Field::RoofAzimuths | Field::RoofSlopes => ColumnKind::List,
            Field::RoofElevation50p | Field::RoofElevation70p => ColumnKind::Average,
            Field::RoofIsGlass => ColumnKind::Flag,
            _ => ColumnKind::Number,
        }
    }

    /// Whether a cell of the column may be empty.
    pub open spec fn may_be_empty(self) -> bool {
        match self {
            Field::FeatureId
            | Field::CityobjectId
            | Field::CityobjectType
            | Field::BboxMinx
            | Field::BboxMiny
            | Field::BboxMaxx
            | Field::BboxMaxy
            | Field::BboxMinz
            | Field::BboxMaxz => false,
            _ => true,
        }
    }

    /// Whether a cell of the column may be empty.
    pub fn nullable(&self) -> (r: bool)
        ensures
            r == self.may_be_empty(),
    {
        match self {
            Field::FeatureId
            | Field::CityobjectId
            | Field::CityobjectType
            | Field::BboxMinx
            | Field::BboxMiny
            | Field::BboxMaxx
            | Field::BboxMaxy
            | Field::BboxMinz
            | Field::BboxMaxz => false,
            _ => true,
        }
    }
}

// -------------------------------------------------------------------- cells

/// The text of a row in a column; nothing in a column without texts.
pub open spec fn text_cell(row: BuildingRow, field: Field) -> Option<Seq<char>> {
    match field {
        Field::FeatureId => Some(row.feature_id@),
        Field::CityobjectId => Some(row.cityobject_id@),
        Field::CityobjectType => Some(row.cityobject_type@),
        Field::RoofType => match row.roof_data.roof_type {
            Some(text) => Some(text@),
            None => None,
        },
        _ => None,
    }
}

/// The characters of a text that may be missing.
pub open spec fn some_text(text: Option<String>) -> Option<Seq<char>> {
    match text {
        Some(s) => Some(s@),
        None => None,
    }
}

/// The double of a row in a column, by its bits; nothing in a column without
/// doubles.
pub open spec fn number_cell(row: BuildingRow, field: Field) -> Option<u64> {
    match field {
        Field::Bldgarea => row.metrics.bldgarea,
        Field::Heightmax => row.metrics.heightmax,
        Field::Heightmin => row.metrics.heightmin,
        Field::Elevmax => row.metrics.elevmax,
        Field::Elevmin => row.metrics.elevmin,
        Field::VolumeLod22 => row.metrics.volume_lod22,
        Field::RoofElevationMin => row.roof_data.elevation_min,
        Field::RoofElevationMax => row.roof_data.elevation_max,
        Field::BboxMinx => Some(row.bbox.min_x),
        Field::BboxMiny => Some(row.bbox.min_y),
        Field::BboxMaxx => Some(row.bbox.max_x),
        Field::BboxMaxy => Some(row.bbox.max_y),
        Field::BboxMinz => Some(row.bbox.min_z),
        Field::BboxMaxz => Some(row.bbox.max_z),
        _ => None,
    }
}

/// The whole number of a row in a column; nothing in a column without whole
/// numbers.
pub open spec fn whole_cell(row: BuildingRow, field: Field) -> Option<i64> {
    match field {
        Field::RoofNPlanes => match row.roof_data.n_planes {
            Some(n) => Some(n as i64),
            None => None,
        },
        Field::NGroundSurfaces => Some(row.surface_counts.n_ground as i64),
        Field::NWallSurfaces => Some(row.surface_counts.n_wall as i64),
        Field::NRoofSurfaces => Some(row.surface_counts.n_roof as i64),
        _ => None,
    }
}

/// The list of a row in a column, which is left out where it is empty; nothing
/// in a column without lists.
pub open spec fn list_cell(row: BuildingRow, field: Field) -> Option<Seq<u64>> {
    let list = match field {
        Field::RoofAzimuths => row.roof_data.azimuths@,
        Field::RoofSlopes => row.roof_data.slopes@,
        Field::RoofElevation50p => row.roof_data.elevations_50p@,
        Field::RoofElevation70p => row.roof_data.elevations_70p@,
        _ => Seq::empty(),
    };
    if list.len() == 0 {
        None
    } else {
        Some(list)
    }
}

/// The items of a list that may be missing.
pub open spec fn some_list(list: Option<Vec<u64>>) -> Option<Seq<u64>> {
    match list {
        Some(v) => Some(v@),
        None => None,
    }
}

fn get_text_cell(row: &BuildingRow, field: Field) -> (r: Option<String>)
    ensures
        some_text(r) == text_cell(*row, field),
{
    match field {
        Field::FeatureId => Some(row.feature_id.clone()),
        Field::CityobjectId => Some(row.cityobject_id.clone()),
        Field::CityobjectType => Some(row.cityobject_type.clone()),
        Field::RoofType => match &row.roof_data.roof_type {
            Some(text) => Some(text.clone()),
            None => None,
        },
        _ => None,
    }
}

fn get_number_cell(row: &BuildingRow, field: Field) -> (r: Option<u64>)
    ensures
        r == number_cell(*row, field),
{
    match field {
        Field::Bldgarea => row.metrics.bldgarea,
        Field::Heightmax => row.metrics.heightmax,
        Field::Heightmin => row.metrics.heightmin,
        Field::Elevmax => row.metrics.elevmax,
        Field::Elevmin => row.metrics.elevmin,
        Field::VolumeLod22 => row.metrics.volume_lod22,
        Field::RoofElevationMin => row.roof_data.elevation_min,
        Field::RoofElevationMax => row.roof_data.elevation_max,
        Field::BboxMinx => Some(row.bbox.min_x),
        Field::BboxMiny => Some(row.bbox.min_y),
        Field::BboxMaxx => Some(row.bbox.max_x),
        Field::BboxMaxy => Some(row.bbox.max_y),
        Field::BboxMinz => Some(row.bbox.min_z),
        Field::BboxMaxz => Some(row.bbox.max_z),
        _ => None,
    }
}

fn get_whole_cell(row: &BuildingRow, field: Field) -> (r: Option<i64>)
    ensures
        r == whole_cell(*row, field),
{
    match field {
        Field::RoofNPlanes => match row.roof_data.n_planes {
            Some(n) => Some(n as i64),
            None => None,
        },
        Field::NGroundSurfaces => Some(row.surface_counts.n_ground as i64),
        Field::NWallSurfaces => Some(row.surface_counts.n_wall as i64),
        Field::NRoofSurfaces => Some(row.surface_counts.n_roof as i64),
        _ => None,
    }
}

fn get_list_cell(row: &BuildingRow, field: Field) -> (r: Option<Vec<u64>>)
    ensures
        some_list(r) == list_cell(*row, field),
{
    let mut list: Vec<u64> = Vec::new();
    match field {
        Field::RoofAzimuths => list.extend_from_slice(row.roof_data.azimuths.as_slice()),
        Field::RoofSlopes => list.extend_from_slice(row.roof_data.slopes.as_slice()),
        Field::RoofElevation50p => list.extend_from_slice(
            row.roof_data.elevations_50p.as_slice(),
        ),
        Field::RoofElevation70p => list.extend_from_slice(
            row.roof_data.elevations_70p.as_slice(),
        ),
        _ => {},
    }
    assert(list@ =~= match field {
        Field::RoofAzimuths => row.roof_data.azimuths@,
        Field::RoofSlopes => row.roof_data.slopes@,
        Field::RoofElevation50p => row.roof_data.elevations_50p@,
        Field::RoofElevation70p => row.roof_data.elevations_70p@,
        _ => Seq::empty(),
    });
    if list.len() == 0 {
        None
    } else {
        Some(list)
    }
}

// ------------------------------------------------------------------ columns

/// Which rows are written, by their positions: those whose outlines can be.
pub open spec fn written_from(rows: Seq<BuildingRow>) -> Seq<usize>
    decreases rows.len(),
{
    if rows.len() == 0 {
        Seq::empty()
    } else if crate::geoparquet_writer::rows::is_writable(rows.last().outline@) {
        written_from(rows.drop_last()).push((rows.len() - 1) as usize)
    } else {
        written_from(rows.drop_last())
    }
}

/// Whether every position is that of a row.
pub open spec fn positions_fit(written: Seq<usize>, count: nat) -> bool {
    forall|i: int| 0 <= i < written.len() ==> #[trigger] written[i] < count
}

/// Which rows are written. Rows whose outlines cannot be written are left out;
/// without any rows nothing is written.
pub fn written_rows(rows: &[BuildingRow]) -> (r: Result<Vec<usize>, RowsError>)
    ensures
        if rows@.len() == 0 {
            r == Err::<Vec<usize>, RowsError>(RowsError::NoRows)
        } else {
            r matches Ok(written) && written@ == written_from(rows@) && positions_fit(
                written@,
                rows@.len(),
            )
        },
{
    let n: usize = rows.len();
    if n == 0 {
        return Err(RowsError::NoRows);
    }
    let mut written: Vec<usize> = Vec::new();
    let mut i: usize = 0;
    while i < n
        invariant
            i <= n,
            n == rows@.len(),
            written@ == written_from(rows@.take(i as int)),
            positions_fit(written@, n as nat),
        decreases n - i,
    {
        proof {
            assert(rows@.take(i + 1).drop_last() =~= rows@.take(i as int));
        }
        if outline_is_writable(rows[i].outline.as_slice()) {
            written.push(i);
        }
        i += 1;
    }
    assert(rows@.take(n as int) =~= rows@);
    Ok(written)
}

/// The texts of the rows that are written.
pub fn text_column(rows: &[BuildingRow], written: &[usize], field: Field) -> (r: Vec<Option<String>>)
    requires
        positions_fit(written@, rows@.len()),
    ensures
        r@.len() == written@.len(),
        forall|i: int|
            0 <= i < r@.len() ==> some_text(#[trigger] r@[i]) == text_cell(
                rows@[written@[i] as int],
                field,
            ),
{
    let mut r: Vec<Option<String>> = Vec::new();
    let n: usize = written.len();
    let mut i: usize = 0;
    while i < n
        invariant
            i <= n,
            n == written@.len(),
            r@.len() == i,
            positions_fit(written@, rows@.len()),
            forall|k: int|
                0 <= k < i ==> some_text(#[trigger] r@[k]) == text_cell(
                    rows@[written@[k] as int],
                    field,
                ),
        decreases n - i,
    {
        assert(written@[i as int] < rows@.len());
        r.push(get_text_cell(&rows[written[i]], field));
        i += 1;
    }
    r
}

/// The doubles of the rows that are written.
pub fn number_column(rows: &[BuildingRow], written: &[usize], field: Field) -> (r: Vec<Option<u64>>)
    requires
        positions_fit(written@, rows@.len()),
    ensures
        r@.len() == written@.len(),
        forall|i: int|
            0 <= i < r@.len() ==> (#[trigger] r@[i]) == number_cell(
                rows@[written@[i] as int],
                field,
            ),
{
    let mut r: Vec<Option<u64>> = Vec::new();
    let n: usize = written.len();
    let mut i: usize = 0;
    while i < n
        invariant
            i <= n,
            n == written@.len(),
            r@.len() == i,
            positions_fit(written@, rows@.len()),
            forall|k: int|
                0 <= k < i ==> (#[trigger] r@[k]) == number_cell(
                    rows@[written@[k] as int],
                    field,
                ),
        decreases n - i,
    {
        assert(written@[i as int] < rows@.len());
        r.push(get_number_cell(&rows[written[i]], field));
        i += 1;
    }
    r
}

/// The whole numbers of the rows that are written.
pub fn whole_column(rows: &[BuildingRow], written: &[usize], field: Field) -> (r: Vec<Option<i64>>)
    requires
        positions_fit(written@, rows@.len()),
    ensures
        r@.len() == written@.len(),
        forall|i: int|
            0 <= i < r@.len() ==> (#[trigger] r@[i]) == whole_cell(
                rows@[written@[i] as int],
                field,
            ),
{
    let mut r: Vec<Option<i64>> = Vec::new();
    let n: usize = written.len();
    let mut i: usize = 0;
    while i < n
        invariant
            i <= n,
            n == written@.len(),
            r@.len() == i,
            positions_fit(written@, rows@.len()),
            forall|k: int|
                0 <= k < i ==> (#[trigger] r@[k]) == whole_cell(
                    rows@[written@[k] as int],
                    field,
                ),
        decreases n - i,
    {
        assert(written@[i as int] < rows@.len());
        r.push(get_whole_cell(&rows[written[i]], field));
        i += 1;
    }
    r
}

/// The lists of the rows that are written.
pub fn list_column(rows: &[BuildingRow], written: &[usize], field: Field) -> (r: Vec<Option<Vec<u64>>>)
    requires
        positions_fit(written@, rows@.len()),
    ensures
        r@.len() == written@.len(),
        forall|i: int|
            0 <= i < r@.len() ==> some_list(#[trigger] r@[i]) == list_cell(
                rows@[written@[i] as int],
                field,
            ),
{
    let mut r: Vec<Option<Vec<u64>>> = Vec::new();
    let n: usize = written.len();
    let mut i: usize = 0;
    while i < n
        invariant
            i <= n,
            n == written@.len(),
            r@.len() == i,
            positions_fit(written@, rows@.len()),
            forall|k: int|
                0 <= k < i ==> some_list(#[trigger] r@[k]) == list_cell(
                    rows@[written@[k] as int],
                    field,
                ),
        decreases n - i,
    {
        assert(written@[i as int] < rows@.len());
        r.push(get_list_cell(&rows[written[i]], field));
        i += 1;
    }
    r
}

/// Whether the roofs of the rows that are written are of glass.
pub fn flag_column(rows: &[BuildingRow], written: &[usize]) -> (r: Vec<bool>)
    requires
        positions_fit(written@, rows@.len()),
    ensures
        r@ == Seq::new(written@.len(), |i: int| rows@[written@[i] as int].roof_data.is_glass),
{
    let mut r: Vec<bool> = Vec::new();
    let n: usize = written.len();
    let mut i: usize = 0;
    while i < n
        invariant
            i <= n,
            n == written@.len(),
            positions_fit(written@, rows@.len()),
            r@ =~= Seq::new(i as nat, |k: int| rows@[written@[k] as int].roof_data.is_glass),
        decreases n - i,
    {
        assert(written@[i as int] < rows@.len());
        r.push(rows[written[i]].roof_data.is_glass);
        i += 1;
    }
    r
}

/// The outlines of the rows that are written.
pub fn outline_column(rows: &[BuildingRow], written: &[usize]) -> (r: Vec<Vec<Point2>>)
    requires
        positions_fit(written@, rows@.len()),
    ensures
        r@.len() == written@.len(),
        forall|i: int|
            0 <= i < r@.len() ==> (#[trigger] r@[i])@ == rows@[written@[i] as int].outline@,
{
    let mut r: Vec<Vec<Point2>> = Vec::new();
    let n: usize = written.len();
    let mut i: usize = 0;
    while i < n
        invariant
            i <= n,
            n == written@.len(),
            r@.len() == i,
            positions_fit(written@, rows@.len()),
            forall|k: int|
                0 <= k < i ==> (#[trigger] r@[k])@ == rows@[written@[k] as int].outline@,
        decreases n - i,
    {
        assert(written@[i as int] < rows@.len());
        let mut outline: Vec<Point2> = Vec::new();
        outline.extend_from_slice(rows[written[i]].outline.as_slice());
        assert(outline@ =~= rows@[written@[i as int] as int].outline@);
        r.push(outline);
        i += 1;
    }
    r
}

// --------------------------------------------------------------------- laws

/// No two columns have the same place in the file, and every column has one.
pub proof fn law_fields_are_listed_once(field: Field)
    ensures
        all_fields().contains(field),
        all_fields().no_duplicates(),
{
    let s = all_fields();
    assert(s[0] == Field::FeatureId);
    assert(s[1] == Field::CityobjectId);
    assert(s[2] == Field::CityobjectType);
    assert(s[3] == Field::Geometry);
    assert(s[4] == Field::Bldgarea);
    assert(s[5] == Field::Heightmax);
    assert(s[6] == Field::Heightmin);
    assert(s[7] == Field::Elevmax);
    assert(s[8] == Field::Elevmin);
    assert(s[9] == Field::VolumeLod22);
    assert(s[10] == Field::RoofNPlanes);
    assert(s[11] == Field::RoofType);
    assert(s[12] == Field::RoofAzimuths);
    assert(s[13] == Field::RoofSlopes);
    assert(s[14] == Field::RoofElevationMin);
    assert(s[15] == Field::RoofElevationMax);
    assert(s[16] == Field::RoofElevation50p);
    assert(s[17] == Field::RoofElevation70p);
    assert(s[18] == Field::RoofIsGlass);
    assert(s[19] == Field::NGroundSurfaces);
    assert(s[20] == Field::NWallSurfaces);
    assert(s[21] == Field::NRoofSurfaces);
    assert(s[22] == Field::BboxMinx);
    assert(s[23] == Field::BboxMiny);
    assert(s[24] == Field::BboxMaxx);
    assert(s[25] == Field::BboxMaxy);
    assert(s[26] == Field::BboxMinz);
    assert(s[27] == Field::BboxMaxz);
}

/// A column whose cells may not be empty has no empty cells.
pub proof fn law_required_cells_are_filled(row: BuildingRow, field: Field)
    requires
        !field.may_be_empty(),
    ensures
        text_cell(row, field) is Some || number_cell(row, field) is Some,
{
}

/// Every row that is written has an outline that can be, and no other row has.
pub proof fn law_written_rows_are_writable(rows: Seq<BuildingRow>, i: int)
    requires
        rows.len() <= usize::MAX,
        0 <= i < rows.len(),
    ensures
        written_from(rows).contains(i as usize) <==> crate::geoparquet_writer::rows::is_writable(
            rows[i].outline@,
        ),
    decreases rows.len(),
{
    let head = rows.drop_last();
    lemma_written_positions(head);
    if i < head.len() {
        law_written_rows_are_writable(head, i);
        assert(head[i] == rows[i]);
    }
    vstd::seq_lib::lemma_seq_contains_after_push(
        written_from(head),
        (rows.len() - 1) as usize,
        i as usize,
    );
    if i == head.len() {
        assert(!written_from(head).contains(i as usize));
    }
}

proof fn lemma_written_positions(rows: Seq<BuildingRow>)
    requires
        rows.len() <= usize::MAX,
    ensures
        positions_fit(written_from(rows), rows.len()),
    decreases rows.len(),
{
    if rows.len() > 0 {
        lemma_written_positions(rows.drop_last());
    }
}

proof fn lemma_field_names()
    ensures
        "feature_id"@.len() == 10,
        "cityobject_id"@.len() == 13,
        "cityobject_type"@.len() == 15,
        "geometry"@.len() == 8,
        "bldgarea"@.len() == 8,
        "heightmax"@.len() == 9,
        "heightmin"@.len() == 9,
        "elevmax"@.len() == 7,
        "elevmin"@.len() == 7,
        "volume_lod22"@.len() == 12,
        "roof_n_planes"@.len() == 13,
        "roof_type"@.len() == 9,
        "roof_azimuths"@.len() == 13,
        "roof_slopes"@.len() == 11,
        "roof_elevation_min"@.len() == 18,
        "roof_elevation_max"@.len() == 18,
        "roof_elevation_50p"@.len() == 18,
        "roof_elevation_70p"@.len() == 18,
        "roof_is_glass"@.len() == 13,
        "n_ground_surfaces"@.len() == 17,
        "n_wall_surfaces"@.len() == 15,
        "n_roof_surfaces"@.len() == 15,
        "bbox_minx"@.len() == 9,
        "bbox_miny"@.len() == 9,
        "bbox_maxx"@.len() == 9,
        "bbox_maxy"@.len() == 9,
        "bbox_minz"@.len() == 9,
        "bbox_maxz"@.len() == 9,
        "cityobject_id"@ != "roof_n_planes"@,
        "cityobject_id"@ != "roof_azimuths"@,
        "cityobject_id"@ != "roof_is_glass"@,
        "roof_n_planes"@ != "roof_azimuths"@,
        "roof_n_planes"@ != "roof_is_glass"@,
        "roof_azimuths"@ != "roof_is_glass"@,
        "cityobject_type"@ != "n_wall_surfaces"@,
        "cityobject_type"@ != "n_roof_surfaces"@,
        "n_wall_surfaces"@ != "n_roof_surfaces"@,
        "geometry"@ != "bldgarea"@,
        "heightmax"@ != "heightmin"@,
        "heightmax"@ != "roof_type"@,
        "heightmax"@ != "bbox_minx"@,
        "heightmax"@ != "bbox_miny"@,
        "heightmax"@ != "bbox_maxx"@,
        "heightmax"@ != "bbox_maxy"@,
        "heightmax"@ != "bbox_minz"@,
        "heightmax"@ != "bbox_maxz"@,
        "heightmin"@ != "roof_type"@,
        "heightmin"@ != "bbox_minx"@,
        "heightmin"@ != "bbox_miny"@,
        "heightmin"@ != "bbox_maxx"@,
        "heightmin"@ != "bbox_maxy"@,
        "heightmin"@ != "bbox_minz"@,
        "heightmin"@ != "bbox_maxz"@,
        "roof_type"@ != "bbox_minx"@,
        "roof_type"@ != "bbox_miny"@,
        "roof_type"@ != "bbox_maxx"@,
        "roof_type"@ != "bbox_maxy"@,
        "roof_type"@ != "bbox_minz"@,
        "roof_type"@ != "bbox_maxz"@,
        "bbox_minx"@ != "bbox_miny"@,
        "bbox_minx"@ != "bbox_maxx"@,
        "bbox_minx"@ != "bbox_maxy"@,
        "bbox_minx"@ != "bbox_minz"@,
        "bbox_minx"@ != "bbox_maxz"@,
        "bbox_miny"@ != "bbox_maxx"@,
        "bbox_miny"@ != "bbox_maxy"@,
        "bbox_miny"@ != "bbox_minz"@,
        "bbox_miny"@ != "bbox_maxz"@,
        "bbox_maxx"@ != "bbox_maxy"@,
        "bbox_maxx"@ != "bbox_minz"@,
        "bbox_maxx"@ != "bbox_maxz"@,
        "bbox_maxy"@ != "bbox_minz"@,
        "bbox_maxy"@ != "bbox_maxz"@,
        "bbox_minz"@ != "bbox_maxz"@,
        "elevmax"@ != "elevmin"@,
        "roof_elevation_min"@ != "roof_elevation_max"@,
        "roof_elevation_min"@ != "roof_elevation_50p"@,
        "roof_elevation_min"@ != "roof_elevation_70p"@,
        "roof_elevation_max"@ != "roof_elevation_50p"@,
        "roof_elevation_max"@ != "roof_elevation_70p"@,
        "roof_elevation_50p"@ != "roof_elevation_70p"@,
{
    reveal_strlit("feature_id");
    reveal_strlit("volume_lod22");
    reveal_strlit("roof_slopes");
    reveal_strlit("n_ground_surfaces");
    reveal_strlit("cityobject_id");
    reveal_strlit("roof_n_planes");
    reveal_strlit("roof_azimuths");
    reveal_strlit("roof_is_glass");
    reveal_strlit("cityobject_type");
    reveal_strlit("n_wall_surfaces");
    reveal_strlit("n_roof_surfaces");
    reveal_strlit("geometry");
    reveal_strlit("bldgarea");
    reveal_strlit("heightmax");
    reveal_strlit("heightmin");
    reveal_strlit("roof_type");
    reveal_strlit("bbox_minx");
    reveal_strlit("bbox_miny");
    reveal_strlit("bbox_maxx");
    reveal_strlit("bbox_maxy");
    reveal_strlit("bbox_minz");
    reveal_strlit("bbox_maxz");
    reveal_strlit("elevmax");
    reveal_strlit("elevmin");
    reveal_strlit("roof_elevation_min");
    reveal_strlit("roof_elevation_max");
    reveal_strlit("roof_elevation_50p");
    reveal_strlit("roof_elevation_70p");
    assert("cityobject_id"@.len() == 13);
    assert("roof_n_planes"@.len() == 13);
    assert("roof_azimuths"@.len() == 13);
    assert("roof_is_glass"@.len() == 13);
    assert("cityobject_type"@.len() == 15);
    assert("n_wall_surfaces"@.len() == 15);
    assert("n_roof_surfaces"@.len() == 15);
    assert("geometry"@.len() == 8);
    assert("bldgarea"@.len() == 8);
    assert("heightmax"@.len() == 9);
    assert("heightmin"@.len() == 9);
    assert("roof_type"@.len() == 9);
    assert("bbox_minx"@.len() == 9);
    assert("bbox_miny"@.len() == 9);
    assert("bbox_maxx"@.len() == 9);
    assert("bbox_maxy"@.len() == 9);
    assert("bbox_minz"@.len() == 9);
    assert("bbox_maxz"@.len() == 9);
    assert("elevmax"@.len() == 7);
    assert("elevmin"@.len() == 7);
    assert("roof_elevation_min"@.len() == 18);
    assert("roof_elevation_max"@.len() == 18);
    assert("roof_elevation_50p"@.len() == 18);
    assert("roof_elevation_70p"@.len() == 18);
    assert("bbox_maxx"@[0] == 'b');
    assert("bbox_maxx"@[6] == 'a');
    assert("bbox_maxx"@[8] == 'x');
    assert("bbox_maxy"@[0] == 'b');
    assert("bbox_maxy"@[6] == 'a');
    assert("bbox_maxy"@[8] == 'y');
    assert("bbox_maxz"@[0] == 'b');
    assert("bbox_maxz"@[6] == 'a');
    assert("bbox_maxz"@[8] == 'z');
    assert("bbox_minx"@[0] == 'b');
    assert("bbox_minx"@[6] == 'i');
    assert("bbox_minx"@[8] == 'x');
    assert("bbox_miny"@[0] == 'b');
    assert("bbox_miny"@[6] == 'i');
    assert("bbox_miny"@[8] == 'y');
    assert("bbox_minz"@[0] == 'b');
    assert("bbox_minz"@[6] == 'i');
    assert("bbox_minz"@[8] == 'z');
    assert("bldgarea"@[0] == 'b');
    assert("cityobject_id"@[0] == 'c');
    assert("cityobject_type"@[0] == 'c');
    assert("elevmax"@[5] == 'a');
    assert("elevmin"@[5] == 'i');
    assert("geometry"@[0] == 'g');
    assert("heightmax"@[0] == 'h');
    assert("heightmax"@[7] == 'a');
    assert("heightmin"@[0] == 'h');
    assert("heightmin"@[7] == 'i');
    assert("n_roof_surfaces"@[0] == 'n');
    assert("n_roof_surfaces"@[2] == 'r');
    assert("n_wall_surfaces"@[0] == 'n');
    assert("n_wall_surfaces"@[2] == 'w');
    assert("roof_azimuths"@[0] == 'r');
    assert("roof_azimuths"@[5] == 'a');
    assert("roof_elevation_50p"@[15] == '5');
    assert("roof_elevation_70p"@[15] == '7');
    assert("roof_elevation_max"@[15] == 'm');
    assert("roof_elevation_max"@[16] == 'a');
    assert("roof_elevation_min"@[15] == 'm');
    assert("roof_elevation_min"@[16] == 'i');
    assert("roof_is_glass"@[0] == 'r');
    assert("roof_is_glass"@[5] == 'i');
    assert("roof_n_planes"@[0] == 'r');
    assert("roof_n_planes"@[5] == 'n');
    assert("roof_type"@[0] == 'r');
}

/// No two columns have the same name.
pub proof fn law_columns_have_their_own_names(a: Field, b: Field)
    ensures
        a.text() == b.text() ==> a == b,
{
    lemma_field_names();
}

/// The cells of a column are of its kind.
pub proof fn law_cells_are_of_the_kind(row: BuildingRow, field: Field)
    ensures
        text_cell(row, field) is Some ==> field.cells() == ColumnKind::Text,
        number_cell(row, field) is Some ==> field.cells() == ColumnKind::Number,
        whole_cell(row, field) is Some ==> field.cells() == ColumnKind::Whole,
        list_cell(row, field) is Some ==> field.cells() == ColumnKind::List || field.cells()
            == ColumnKind::Average,
        field.cells() == ColumnKind::Average <==> field.text() == "roof_elevation_50p"@
            || field.text() == "roof_elevation_70p"@,
        field.cells() == ColumnKind::Polygon <==> field.text() == "geometry"@,
        field.cells() == ColumnKind::Flag <==> field.text() == "roof_is_glass"@,
{
    lemma_field_names();
}

/// A column of texts or doubles may have empty cells if and only if there is
/// nothing in it for a row of which only the reach and the ids are known.
pub proof fn law_columns_that_may_be_empty(row: BuildingRow, field: Field)
    requires
        row.metrics.bldgarea is None,
        row.metrics.heightmax is None,
        row.metrics.heightmin is None,
        row.metrics.elevmax is None,
        row.metrics.elevmin is None,
        row.metrics.volume_lod22 is None,
        row.roof_data.roof_type is None,
        row.roof_data.elevation_min is None,
        row.roof_data.elevation_max is None,
    ensures
        field.may_be_empty() <==> text_cell(row, field) is None && number_cell(row, field) is None,
{
}

/// A measure stands in the column of the name of its attribute; that of the
/// volume has more in front.
pub proof fn law_measures_stand_under_their_names(
    row: BuildingRow,
    attributes: Seq<crate::geoparquet_writer::attributes::Attribute>,
    field: Field,
)
    requires
        row.metrics == crate::geoparquet_writer::rows::metrics_of(attributes),
    ensures
        field == Field::Bldgarea || field == Field::Heightmax || field == Field::Heightmin || field
            == Field::Elevmax || field == Field::Elevmin ==> number_cell(row, field)
            == crate::geoparquet_writer::attributes::number_in(attributes, field.text()),
        number_cell(row, Field::VolumeLod22) == crate::geoparquet_writer::attributes::number_in(
            attributes,
            "rf_"@ + Field::VolumeLod22.text(),
        ),
{
    reveal_strlit("rf_");
    reveal_strlit("volume_lod22");
    reveal_strlit("rf_volume_lod22");
    assert("rf_"@ + "volume_lod22"@ =~= "rf_volume_lod22"@);
}

/// The columns of the reach hold every vertex of an outline between them, axis by
/// axis.
pub proof fn law_reach_stands_in_the_columns(row: BuildingRow, points: Seq<Point2>, i: int)
    requires
        0 <= i < points.len(),
        row.bbox.min_x == crate::geoparquet_writer::footprint::least(
            Seq::new(points.len(), |k: int| points[k].x),
        ),
        row.bbox.min_y == crate::geoparquet_writer::footprint::least(
            Seq::new(points.len(), |k: int| points[k].y),
        ),
        row.bbox.max_x == crate::geoparquet_writer::footprint::greatest(
            Seq::new(points.len(), |k: int| points[k].x),
        ),
        row.bbox.max_y == crate::geoparquet_writer::footprint::greatest(
            Seq::new(points.len(), |k: int| points[k].y),
        ),
    ensures
        number_cell(row, Field::BboxMinx) matches Some(low) && !crate::float_bits::f64_lt(
            points[i].x,
            low,
        ),
        number_cell(row, Field::BboxMaxx) matches Some(high) && !crate::float_bits::f64_lt(
            high,
            points[i].x,
        ),
        number_cell(row, Field::BboxMiny) matches Some(low) && !crate::float_bits::f64_lt(
            points[i].y,
            low,
        ),
        number_cell(row, Field::BboxMaxy) matches Some(high) && !crate::float_bits::f64_lt(
            high,
            points[i].y,
        ),
{
    let xs = Seq::new(points.len(), |k: int| points[k].x);
    let ys = Seq::new(points.len(), |k: int| points[k].y);
    crate::geoparquet_writer::footprint::law_reach_of_a_list(xs);
    crate::geoparquet_writer::footprint::law_reach_of_a_list(ys);
    assert(xs[i] == points[i].x && ys[i] == points[i].y);
}

/// Two rows that agree in all cells agree in all that is written of them: no cell
/// stands in two columns, and none is left out.
pub proof fn law_cells_tell_the_row(a: BuildingRow, b: BuildingRow)
    requires
        forall|field: Field| #[trigger] text_cell(a, field) == text_cell(b, field),
        forall|field: Field| #[trigger] number_cell(a, field) == number_cell(b, field),
        forall|field: Field| #[trigger] whole_cell(a, field) == whole_cell(b, field),
        forall|field: Field| #[trigger] list_cell(a, field) == list_cell(b, field),
    ensures
        a.feature_id@ == b.feature_id@,
        a.cityobject_id@ == b.cityobject_id@,
        a.cityobject_type@ == b.cityobject_type@,
        a.metrics == b.metrics,
        a.bbox == b.bbox,
        a.surface_counts == b.surface_counts,
        a.roof_data.n_planes == b.roof_data.n_planes,
        some_text(a.roof_data.roof_type) == some_text(b.roof_data.roof_type),
        a.roof_data.azimuths@ == b.roof_data.azimuths@,
        a.roof_data.slopes@ == b.roof_data.slopes@,
        a.roof_data.elevation_min == b.roof_data.elevation_min,
        a.roof_data.elevation_max == b.roof_data.elevation_max,
        a.roof_data.elevations_50p@ == b.roof_data.elevations_50p@,
        a.roof_data.elevations_70p@ == b.roof_data.elevations_70p@,
{
    assert(text_cell(a, Field::FeatureId) == text_cell(b, Field::FeatureId));
    assert(text_cell(a, Field::CityobjectId) == text_cell(b, Field::CityobjectId));
    assert(text_cell(a, Field::CityobjectType) == text_cell(b, Field::CityobjectType));
    assert(text_cell(a, Field::RoofType) == text_cell(b, Field::RoofType));
    assert(number_cell(a, Field::Bldgarea) == number_cell(b, Field::Bldgarea));
    assert(number_cell(a, Field::Heightmax) == number_cell(b, Field::Heightmax));
    assert(number_cell(a, Field::Heightmin) == number_cell(b, Field::Heightmin));
    assert(number_cell(a, Field::Elevmax) == number_cell(b, Field::Elevmax));
    assert(number_cell(a, Field::Elevmin) == number_cell(b, Field::Elevmin));
    assert(number_cell(a, Field::VolumeLod22) == number_cell(b, Field::VolumeLod22));
    assert(number_cell(a, Field::RoofElevationMin) == number_cell(b, Field::RoofElevationMin));
    assert(number_cell(a, Field::RoofElevationMax) == number_cell(b, Field::RoofElevationMax));
    assert(number_cell(a, Field::BboxMinx) == number_cell(b, Field::BboxMinx));
    assert(number_cell(a, Field::BboxMiny) == number_cell(b, Field::BboxMiny));
    assert(number_cell(a, Field::BboxMaxx) == number_cell(b, Field::BboxMaxx));
    assert(number_cell(a, Field::BboxMaxy) == number_cell(b, Field::BboxMaxy));
    assert(number_cell(a, Field::BboxMinz) == number_cell(b, Field::BboxMinz));
    assert(number_cell(a, Field::BboxMaxz) == number_cell(b, Field::BboxMaxz));
    assert(whole_cell(a, Field::RoofNPlanes) == whole_cell(b, Field::RoofNPlanes));
    assert(whole_cell(a, Field::NGroundSurfaces) == whole_cell(b, Field::NGroundSurfaces));
    assert(whole_cell(a, Field::NWallSurfaces) == whole_cell(b, Field::NWallSurfaces));
    assert(whole_cell(a, Field::NRoofSurfaces) == whole_cell(b, Field::NRoofSurfaces));
    assert(list_cell(a, Field::RoofAzimuths) == list_cell(b, Field::RoofAzimuths));
    assert(a.roof_data.azimuths@ =~= b.roof_data.azimuths@);
    assert(list_cell(a, Field::RoofSlopes) == list_cell(b, Field::RoofSlopes));
    assert(a.roof_data.slopes@ =~= b.roof_data.slopes@);
    assert(list_cell(a, Field::RoofElevation50p) == list_cell(b, Field::RoofElevation50p));
    assert(a.roof_data.elevations_50p@ =~= b.roof_data.elevations_50p@);
    assert(list_cell(a, Field::RoofElevation70p) == list_cell(b, Field::RoofElevation70p));
    assert(a.roof_data.elevations_70p@ =~= b.roof_data.elevations_70p@);
}

/// The numbers of surfaces of each type stand in their columns.
pub proof fn law_counts_stand_in_the_columns(
    row: BuildingRow,
    surfaces: Seq<crate::geoparquet_writer::feature::SemanticSurface>,
)
    requires
        crate::geoparquet_writer::roof::counts_of(surfaces, row.surface_counts),
    ensures
        whole_cell(row, Field::NGroundSurfaces) == Some(
            crate::geoparquet_writer::roof::count_of(surfaces, "GroundSurface"@) as i64,
        ),
        whole_cell(row, Field::NWallSurfaces) == Some(
            crate::geoparquet_writer::roof::count_of(surfaces, "WallSurface"@) as i64,
        ),
        whole_cell(row, Field::NRoofSurfaces) == Some(
            crate::geoparquet_writer::roof::count_of(surfaces, "RoofSurface"@) as i64,
        ),
{
}

/// The rows that are written are in their order.
pub proof fn law_written_rows_are_in_order(rows: Seq<BuildingRow>)
    requires
        rows.len() <= usize::MAX,
    ensures
        forall|j: int, k: int|
            0 <= j < k < written_from(rows).len() ==> #[trigger] written_from(rows)[j]
                < #[trigger] written_from(rows)[k],
    decreases rows.len(),
{
    if rows.len() > 0 {
        lemma_written_positions(rows.drop_last());
        law_written_rows_are_in_order(rows.drop_last());
    }
}

} // verus!

//! What of a city feature goes into a tile.

use crate::float_bits::lt_f64;
use crate::gltf_writer::attributes::AttributeSet;
use crate::gltf_writer::mesh::{MeshBuilder, Vec4};
use crate::text::{chars_of, same_text};
use std::collections::HashSet;
use vstd::prelude::*;

verus! {

// ----------------------------------------------------------------- features

/// A level of detail, with the number that it stands for: a double, by its
/// bits, and zero where the text is no number.
#[derive(Debug)]
pub struct Lod {
    pub name: String,
    pub value: u64,
}

/// A surface: rings of vertex numbers, the exterior first. `kind` is its type,
/// where it has one.
#[derive(Debug)]
pub struct Surface {
    pub rings: Vec<Vec<usize>>,
    pub kind: Option<String>,
}

/// The geometry of a city object. A multi-surface has one shell.
#[derive(Debug)]
pub struct Geometry {
    pub lod: Option<Lod>,
    pub shells: Vec<Vec<Surface>>,
}

/// A city object. `color` is that of its type, where the type has one.
pub struct CityObject {
    pub id: String,
    pub cotype: String,
    pub attributes: Option<AttributeSet>,
    pub geometry: Option<Vec<Geometry>>,
    pub color: Option<Vec4>,
}

/// A feature: city objects that belong together.
pub struct Feature {
    pub id: Option<String>,
    pub objects: Vec<CityObject>,
}

// -------------------------------------------------------- finding an object

/// Whether `i` is the first object of a type.
pub open spec fn is_first_of(objects: Seq<CityObject>, cotype: Seq<char>, i: int) -> bool {
    &&& 0 <= i < objects.len()
    &&& objects[i].cotype@ == cotype
    &&& forall|k: int| 0 <= k < i ==> (#[trigger] objects[k]).cotype@ != cotype
}

/// Whether no object is of a type.
pub open spec fn none_of(objects: Seq<CityObject>, cotype: Seq<char>) -> bool {
    forall|k: int| 0 <= k < objects.len() ==> (#[trigger] objects[k]).cotype@ != cotype
}

/// The first object of a type.
fn find_type(objects: &[CityObject], cotype: &str) -> (r: Option<usize>)
    ensures
        match r {
            Some(i) => is_first_of(objects@, cotype@, i as int),
            None => none_of(objects@, cotype@),
        },
{
    let n: usize = objects.len();
    let mut i: usize = 0;
    while i < n
        invariant
            i <= n,
            n == objects@.len(),
            forall|k: int| 0 <= k < i ==> (#[trigger] objects@[k]).cotype@ != cotype@,
        decreases n - i,
    {
        if same_text(objects[i].cotype.as_str(), cotype) {
            return Some(i);
        }
        i += 1;
    }
    None
}

/// Whether `i` is the main object: the first building, else the first building
/// part.
pub open spec fn is_main(objects: Seq<CityObject>, i: int) -> bool {
    is_first_of(objects, "Building"@, i) || (none_of(objects, "Building"@) && is_first_of(
        objects,
        "BuildingPart"@,
        i,
    ))
}

/// Whether there is no building and no building part.
pub open spec fn no_main(objects: Seq<CityObject>) -> bool {
    none_of(objects, "Building"@) && none_of(objects, "BuildingPart"@)
}

fn find_main(objects: &[CityObject]) -> (r: Option<usize>)
    ensures
        match r {
            Some(i) => is_main(objects@, i as int),
            None => no_main(objects@),
        },
{
    match find_type(objects, "Building") {
        Some(i) => Some(i),
        None => find_type(objects, "BuildingPart"),
    }
}

/// A text without its ending, if it has that ending.
pub open spec fn without_ending(s: Seq<char>, ending: Seq<char>) -> Option<Seq<char>> {
    if ending.len() <= s.len() && s.skip(s.len() - ending.len()) == ending {
        Some(s.take(s.len() - ending.len()))
    } else {
        None
    }
}

/// Whether `text` is the id that the surfaces of a feature are known by: that
/// of the feature; else of its first building; else of its first building part
/// without the ending "-0"; else "unknown".
pub open spec fn is_building_id(feature: Feature, text: Seq<char>) -> bool {
    let objects = feature.objects@;
    match feature.id {
        Some(id) => text == id@,
        None => {
            ||| exists|i: int|
                #[trigger] is_first_of(objects, "Building"@, i) && text == objects[i].id@
            ||| none_of(objects, "Building"@) && exists|i: int| #[trigger]
                is_first_of(objects, "BuildingPart"@, i) && text == (match without_ending(
                    objects[i].id@,
                    "-0"@,
                ) {
                    Some(stem) => stem,
                    None => "unknown"@,
                })
            ||| no_main(objects) && text == "unknown"@
        },
    }
}

/// A text without the ending "-0".
fn strip_part_suffix(s: &str) -> (r: Option<String>)
    ensures
        match r {
            Some(stem) => without_ending(s@, "-0"@) == Some(stem@),
            None => without_ending(s@, "-0"@) is None,
        },
{
    let chars = chars_of(s);
    let n: usize = chars.len();
    proof {
        reveal_strlit("-0");
        assert("-0"@ =~= seq!['-', '0']);
    }
    if n < 2 {
        return None;
    }
    if chars[n - 2] == '-' && chars[n - 1] == '0' {
        assert(s@.skip(n - 2) =~= seq!['-', '0']);
        Some(s.substring_char(0, n - 2).to_owned())
    } else {
        assert(s@.skip(n - 2)[0] == s@[n - 2]);
        assert(s@.skip(n - 2)[1] == s@[n - 1]);
        None
    }
}

fn building_id(feature: &Feature) -> (r: String)
    ensures
        is_building_id(*feature, r@),
{
    match &feature.id {
        Some(id) => id.clone(),
        None => match find_type(feature.objects.as_slice(), "Building") {
            Some(i) => {
                assert(is_first_of(feature.objects@, "Building"@, i as int));
                feature.objects[i].id.clone()
            },
            None => match find_type(feature.objects.as_slice(), "BuildingPart") {
                Some(i) => {
                    assert(is_first_of(feature.objects@, "BuildingPart"@, i as int));
                    match strip_part_suffix(feature.objects[i].id.as_str()) {
                        Some(stem) => stem,
                        None => "unknown".to_owned(),
                    }
                },
                None => "unknown".to_owned(),
            },
        },
    }
}

// --------------------------------------------------------- levels of detail

/// The geometry with the highest level of detail, by going through them in
/// order and keeping the higher of two, or the later of equal ones. Geometries
/// without a level do not count.
pub open spec fn finest(geometries: Seq<Geometry>) -> Option<int>
    decreases geometries.len(),
{
    if geometries.len() == 0 {
        None
    } else {
        let rest = finest(geometries.drop_last());
        match (rest, geometries.last().lod) {
            (_, None) => rest,
            (None, Some(_)) => Some(geometries.len() - 1),
            (Some(best), Some(lod)) => if crate::float_bits::f64_lt(
                lod.value,
                geometries[best].lod->0.value,
            ) {
                rest
            } else {
                Some(geometries.len() - 1)
            },
        }
    }
}

/// The level of detail that is written: the one asked for, else the highest
/// that the object has. Where there is none, every geometry is written.
pub open spec fn wanted_lod(filter: Option<Seq<char>>, geometries: Seq<Geometry>) -> Option<
    Seq<char>,
> {
    match filter {
        Some(name) => Some(name),
        None => match finest(geometries) {
            Some(i) => Some(geometries[i].lod->0.name@),
            None => None,
        },
    }
}

/// Whether a geometry is of the level of detail that is written.
pub open spec fn has_lod(geometry: Geometry, wanted: Option<Seq<char>>) -> bool {
    match wanted {
        None => true,
        Some(name) => geometry.lod matches Some(lod) && lod.name@ == name,
    }
}

/// The finest geometry is one of those that have a level of detail, and none
/// has a higher level.
pub proof fn law_finest_is_highest(geometries: Seq<Geometry>)
    ensures
        match finest(geometries) {
            Some(i) => {
                &&& 0 <= i < geometries.len()
                &&& geometries[i].lod is Some
                &&& forall|k: int|
                    0 <= k < geometries.len() && (#[trigger] geometries[k]).lod is Some
                        && all_numbers(geometries) ==> !crate::float_bits::f64_lt(
                        geometries[i].lod->0.value,
                        geometries[k].lod->0.value,
                    )
            },
            None => forall|k: int|
                0 <= k < geometries.len() ==> (#[trigger] geometries[k]).lod is None,
        },
    decreases geometries.len(),
{
    if geometries.len() > 0 {
        let rest = geometries.drop_last();
        law_finest_is_highest(rest);
        assert forall|k: int| 0 <= k < geometries.len() implies (#[trigger] geometries[k]) == (
        if k < rest.len() {
            rest[k]
        } else {
            geometries.last()
        }) by {}
        if all_numbers(geometries) {
            assert(all_numbers(rest)) by {
                assert forall|k: int| 0 <= k < rest.len() && (#[trigger] rest[k]).lod is Some
                    implies !crate::float_bits::f64_is_nan(rest[k].lod->0.value) by {
                    assert(rest[k] == geometries[k]);
                }
            }
        }
    }
}

/// Whether no level of detail is NaN.
pub open spec fn all_numbers(geometries: Seq<Geometry>) -> bool {
    forall|k: int|
        0 <= k < geometries.len() && (#[trigger] geometries[k]).lod is Some
            ==> !crate::float_bits::f64_is_nan(geometries[k].lod->0.value)
}

fn find_finest(geometries: &[Geometry]) -> (r: Option<usize>)
    ensures
        match r {
            Some(i) => finest(geometries@) == Some(i as int) && i < geometries@.len()
                && geometries@[i as int].lod is Some,
            None => finest(geometries@) is None,
        },
{
    let mut best: Option<usize> = None;
    let n: usize = geometries.len();
    let mut i: usize = 0;
    while i < n
        invariant
            i <= n,
            n == geometries@.len(),
            match best {
                Some(b) => finest(geometries@.take(i as int)) == Some(b as int) && b < i
                    && geometries@[b as int].lod is Some,
                None => finest(geometries@.take(i as int)) is None,
            },
        decreases n - i,
    {
        proof {
            assert(geometries@.take(i + 1).drop_last() =~= geometries@.take(i as int));
        }
        match &geometries[i].lod {
            Some(lod) => {
                let keep = match best {
                    Some(b) => match &geometries[b].lod {
                        Some(other) => lt_f64(lod.value, other.value),
                        None => false,
                    },
                    None => false,
                };
                if !keep {
                    best = Some(i);
                }
            },
            None => {},
        }
        i += 1;
    }
    assert(geometries@.take(n as int) =~= geometries@);
    best
}

// -------------------------------------------------------------------- plans

/// A surface of a feature, by its place in it.
#[derive(Clone, Copy, Debug, PartialEq, Eq, Structural)]
pub struct SurfaceJob {
    pub object: usize,
    pub geometry: usize,
    pub shell: usize,
    pub surface: usize,
}

/// The surfaces of a shell.
pub open spec fn shell_jobs(object: int, geometry: int, shell: int, count: nat) -> Seq<SurfaceJob> {
    Seq::new(
        count,
        |surface: int|
            SurfaceJob {
                object: object as usize,
                geometry: geometry as usize,
                shell: shell as usize,
                surface: surface as usize,
            },
    )
}

/// The surfaces of the shells of a geometry, in order.
pub open spec fn geometry_jobs(object: int, geometry: int, shells: Seq<Vec<Surface>>) -> Seq<
    SurfaceJob,
>
    decreases shells.len(),
{
    if shells.len() == 0 {
        Seq::empty()
    } else {
        geometry_jobs(object, geometry, shells.drop_last()) + shell_jobs(
            object,
            geometry,
            shells.len() - 1,
            shells.last()@.len(),
        )
    }
}

/// The surfaces of the geometries of an object that are of the wanted level of
/// detail, in order.
pub open spec fn object_jobs(
    object: int,
    geometries: Seq<Geometry>,
    wanted: Option<Seq<char>>,
) -> Seq<SurfaceJob>
    decreases geometries.len(),
{
    if geometries.len() == 0 {
        Seq::empty()
    } else {
        object_jobs(object, geometries.drop_last(), wanted) + if has_lod(
            geometries.last(),
            wanted,
        ) {
            geometry_jobs(object, geometries.len() - 1, geometries.last().shells@)
        } else {
            Seq::empty()
        }
    }
}

/// The surfaces of a feature that are written, in order.
pub open spec fn feature_jobs(objects: Seq<CityObject>, filter: Option<Seq<char>>) -> Seq<SurfaceJob>
    decreases objects.len(),
{
    if objects.len() == 0 {
        Seq::empty()
    } else {
        feature_jobs(objects.drop_last(), filter) + match objects.last().geometry {
            Some(geometries) => object_jobs(
                objects.len() - 1,
                geometries@,
                wanted_lod(filter, geometries@),
            ),
            None => Seq::empty(),
        }
    }
}

/// The characters of a text that may be missing.
pub open spec fn text_or_none(s: Option<&str>) -> Option<Seq<char>> {
    match s {
        Some(t) => Some(t@),
        None => None,
    }
}

fn push_geometry_jobs(
    jobs: &mut Vec<SurfaceJob>,
    object: usize,
    geometry: usize,
    shells: &[Vec<Surface>],
)
    ensures
        final(jobs)@ == old(jobs)@ + geometry_jobs(object as int, geometry as int, shells@),
{
    let ghost before = jobs@;
    let n: usize = shells.len();
    let mut shell: usize = 0;
    assert(before + geometry_jobs(object as int, geometry as int, shells@.take(0)) =~= before);
    while shell < n
        invariant
            shell <= n,
            n == shells@.len(),
            jobs@ == before + geometry_jobs(
                object as int,
                geometry as int,
                shells@.take(shell as int),
            ),
        decreases n - shell,
    {
        let ghost mid = jobs@;
        let count: usize = shells[shell].len();
        let mut surface: usize = 0;
        while surface < count
            invariant
                surface <= count,
                jobs@ =~= mid + shell_jobs(
                    object as int,
                    geometry as int,
                    shell as int,
                    surface as nat,
                ),
            decreases count - surface,
        {
            jobs.push(SurfaceJob { object, geometry, shell, surface });
            surface += 1;
        }
        proof {
            assert(shells@.take(shell + 1).drop_last() =~= shells@.take(shell as int));
            assert(jobs@ =~= before + geometry_jobs(
                object as int,
                geometry as int,
                shells@.take(shell + 1),
            ));
        }
        shell += 1;
    }
    assert(shells@.take(n as int) =~= shells@);
}

/// Whether a geometry is of the wanted level of detail.
fn lod_matches(geometry: &Geometry, wanted: Option<&str>) -> (r: bool)
    ensures
        r == has_lod(*geometry, text_or_none(wanted)),
{
    match wanted {
        None => true,
        Some(name) => match &geometry.lod {
            Some(lod) => same_text(lod.name.as_str(), name),
            None => false,
        },
    }
}

/// The surfaces of a feature that are written, in order.
pub fn plan_surfaces(objects: &[CityObject], filter: Option<&str>) -> (r: Vec<SurfaceJob>)
    ensures
        r@ == feature_jobs(objects@, text_or_none(filter)),
{
    let mut jobs: Vec<SurfaceJob> = Vec::new();
    let n: usize = objects.len();
    let mut o: usize = 0;
    while o < n
        invariant
            o <= n,
            n == objects@.len(),
            jobs@ == feature_jobs(objects@.take(o as int), text_or_none(filter)),
        decreases n - o,
    {
        proof {
            assert(objects@.take(o + 1).drop_last() =~= objects@.take(o as int));
        }
        let ghost before = jobs@;
        match &objects[o].geometry {
            Some(geometries) => {
                let wanted: Option<&str> = match filter {
                    Some(name) => Some(name),
                    None => match find_finest(geometries.as_slice()) {
                        Some(i) => match &geometries[i].lod {
                            Some(lod) => Some(lod.name.as_str()),
                            None => None,
                        },
                        None => None,
                    },
                };
                let ghost want = wanted_lod(text_or_none(filter), geometries@);
                assert(text_or_none(wanted) == want);
                let m: usize = geometries.len();
                let mut g: usize = 0;
                assert(before + object_jobs(o as int, geometries@.take(0), want) =~= before);
                while g < m
                    invariant
                        g <= m,
                        m == geometries@.len(),
                        text_or_none(wanted) == want,
                        jobs@ == before + object_jobs(o as int, geometries@.take(g as int), want),
                    decreases m - g,
                {
                    let ghost mid = jobs@;
                    proof {
                        assert(geometries@.take(g + 1).drop_last() =~= geometries@.take(g as int));
                    }
                    if lod_matches(&geometries[g], wanted) {
                        push_geometry_jobs(&mut jobs, o, g, geometries[g].shells.as_slice());
                    }
                    proof {
                        assert(jobs@ =~= before + object_jobs(
                            o as int,
                            geometries@.take(g + 1),
                            want,
                        ));
                    }
                    g += 1;
                }
                assert(geometries@.take(m as int) =~= geometries@);
            },
            None => {
                assert(before + Seq::<SurfaceJob>::empty() =~= before);
            },
        }
        o += 1;
    }
    assert(objects@.take(n as int) =~= objects@);
    jobs
}

/// The color of an object whose type has none: pink, that is 1, 0.753, 0.796
/// in red, green, blue, and opaque.
pub open spec fn default_color() -> Vec4 {
    Vec4 { x: 0x3f80_0000, y: 0x3f40_c49c, z: 0x3f4b_c6a8, w: 0x3f80_0000 }
}

/// The number of surfaces without a row in the table.
pub const NO_ROW: u32 = u32::MAX;

/// How a feature is written.
pub struct FeaturePlan {
    /// The id that its surfaces are known by.
    pub building_id: String,
    /// The type that its surfaces are known by.
    pub cotype: String,
    /// Whether its surfaces get no rows in the table.
    pub skip_metadata: bool,
    /// The number of its attribute set, if it has attributes to write.
    pub attributes: Option<usize>,
    /// The surfaces that are written.
    pub surfaces: Vec<SurfaceJob>,
}

/// Whether `i` is the object whose type a feature has: the main object, else
/// the first.
pub open spec fn is_primary(objects: Seq<CityObject>, i: int) -> bool {
    is_main(objects, i) || (no_main(objects) && i == 0)
}

/// The attributes of the main object that are on the list, if there are any.
/// Without a list no attributes are written.
pub open spec fn kept_attributes(object: CityObject, whitelist: Option<&[String]>) -> Option<
    Map<Seq<char>, crate::gltf_writer::attributes::Attr>,
> {
    match (object.attributes, whitelist) {
        (Some(set), Some(names)) => {
            let kept = set@.restrict(crate::gltf_writer::attributes::listed(names@));
            if kept == Map::<Seq<char>, crate::gltf_writer::attributes::Attr>::empty() {
                None
            } else {
                Some(kept)
            }
        },
        _ => None,
    }
}

/// Whether the attribute sets of a feature are in order.
pub open spec fn feature_wf(feature: Feature) -> bool {
    &&& feature.objects@.len() > 0
    &&& forall|i: int|
        0 <= i < feature.objects@.len() ==> ((#[trigger] feature.objects@[i]).attributes matches Some(
            set,
        ) ==> set.wf())
}

/// Whether the mesh is the same, apart from the attribute sets.
pub open spec fn same_but_sets(a: MeshBuilder, b: MeshBuilder) -> bool {
    &&& a.positions == b.positions
    &&& a.normals == b.normals
    &&& a.colors == b.colors
    &&& a.batch_ids == b.batch_ids
    &&& a.indices == b.indices
    &&& a.next_batch_index == b.next_batch_index
    &&& a.batch_id_to_cityobject_id == b.batch_id_to_cityobject_id
    &&& a.batch_id_to_cityobject_type == b.batch_id_to_cityobject_type
    &&& a.batch_id_to_surface_type == b.batch_id_to_surface_type
    &&& a.batch_id_to_attributes == b.batch_id_to_attributes
    &&& a.batch_id_to_area == b.batch_id_to_area
    &&& a.batch_id_to_azimuth == b.batch_id_to_azimuth
    &&& a.batch_id_to_elevation == b.batch_id_to_elevation
    &&& a.metallic_factor == b.metallic_factor
    &&& a.roughness_factor == b.roughness_factor
}

/// The surfaces of lone trees get no rows.
pub open spec fn skips_metadata(cotype: Seq<char>) -> bool {
    cotype == "SolitaryVegetationObject"@
}

/// Whether a feature is written by this plan. `sets` are the attribute sets of
/// the tile before, and `sets_after` those with the feature's own.
pub open spec fn is_plan(
    feature: Feature,
    lod_filter: Option<&str>,
    whitelist: Option<&[String]>,
    sets: Seq<AttributeSet>,
    plan: FeaturePlan,
    sets_after: Seq<AttributeSet>,
) -> bool {
    &&& is_building_id(feature, plan.building_id@)
    &&& exists|i: int| #[trigger]
        is_primary(feature.objects@, i) && plan.cotype@ == feature.objects@[i].cotype@
    &&& plan.skip_metadata == skips_metadata(plan.cotype@)
    &&& plan.surfaces@ == feature_jobs(feature.objects@, text_or_none(lod_filter))
    &&& match plan.attributes {
        Some(k) => {
            &&& !plan.skip_metadata
            &&& k == sets.len()
            &&& sets_after.len() == k + 1
            &&& sets_after.take(k as int) == sets
            &&& exists|i: int| #[trigger]
                is_main(feature.objects@, i) && kept_attributes(feature.objects@[i], whitelist)
                    == Some(sets_after[k as int]@)
        },
        None => {
            &&& sets_after == sets
            &&& plan.skip_metadata || no_main(feature.objects@) || exists|i: int| #[trigger]
                is_main(feature.objects@, i) && kept_attributes(
                    feature.objects@[i],
                    whitelist,
                ) is None
        },
    }
}

impl MeshBuilder {
    /// Begins a feature: decides how it is written, and takes in the
    /// attributes that its surfaces will have.
    pub fn begin_feature(
        &mut self,
        feature: &Feature,
        lod_filter: Option<&str>,
        whitelist: Option<&[String]>,
    ) -> (r: FeaturePlan)
        requires
            old(self).wf(),
            feature_wf(*feature),
        ensures
            final(self).wf(),
            same_but_sets(*old(self), *final(self)),
            is_plan(
                *feature,
                lod_filter,
                whitelist,
                old(self).attribute_sets@,
                r,
                final(self).attribute_sets@,
            ),
    {
        let ghost before = *self;
        let main = find_main(feature.objects.as_slice());
        let primary: usize = match main {
            Some(i) => i,
            None => 0,
        };
        assert(is_primary(feature.objects@, primary as int));
        let cotype = feature.objects[primary].cotype.clone();
        let skip_metadata = same_text(cotype.as_str(), "SolitaryVegetationObject");
        let mut attributes: Option<usize> = None;
        match main {
            Some(i) => {
                assert(is_main(feature.objects@, i as int));
                if !skip_metadata {
                    match (&feature.objects[i].attributes, whitelist) {
                        (Some(set), Some(names)) => {
                            let kept = set.restricted_to(names);
                            if !kept.is_empty() {
                                attributes = Some(self.attribute_sets.len());
                                self.attribute_sets.push(kept);
                                proof {
                                    assert(self.attribute_sets@.take(
                                        before.attribute_sets@.len() as int,
                                    ) =~= before.attribute_sets@);
                                }
                            }
                        },
                        _ => {},
                    }
                }
            },
            None => {},
        }
        proof {
            assert forall|i: int| 0 <= i < self.batch_id_to_attributes@.len() implies (
            #[trigger] self.batch_id_to_attributes@[i] matches Some(k) ==> k
                < self.attribute_sets@.len()) by {
                assert(before.batch_id_to_attributes@[i] matches Some(k) ==> k
                    < before.attribute_sets@.len());
            }
            assert forall|k: int| 0 <= k < self.attribute_sets@.len() implies (
            #[trigger] self.attribute_sets@[k]).wf() by {
                if k < before.attribute_sets@.len() {
                    assert(before.attribute_sets@[k].wf());
                }
            }
        }
        FeaturePlan {
            building_id: building_id(feature),
            cotype,
            skip_metadata,
            attributes,
            surfaces: plan_surfaces(feature.objects.as_slice(), lod_filter),
        }
    }

    /// Whether the table of surfaces is consistent: every row has all its
    /// entries.
    pub open spec fn table_sound(self) -> bool {
        &&& self.batch_id_to_cityobject_id@.len() == self.next_batch_index
        &&& self.batch_id_to_cityobject_type@.len() == self.next_batch_index
        &&& self.batch_id_to_surface_type@.len() == self.next_batch_index
        &&& self.batch_id_to_attributes@.len() == self.next_batch_index
        &&& self.batch_id_to_area@.len() == self.batch_id_to_azimuth@.len()
        &&& self.batch_id_to_area@.len() == self.batch_id_to_elevation@.len()
    }

    /// Gives a surface a row in the table, unless the feature's surfaces get
    /// none, and returns its number.
    pub fn begin_surface(&mut self, plan: &FeaturePlan, surface: &Surface) -> (r: u32)
        requires
            old(self).wf(),
            old(self).next_batch_index < u32::MAX,
            plan.attributes matches Some(k) ==> k < old(self).attribute_sets@.len(),
        ensures
            final(self).wf(),
            old(self).table_sound() ==> final(self).table_sound(),
            final(self).positions == old(self).positions,
            final(self).normals == old(self).normals,
            final(self).colors == old(self).colors,
            final(self).batch_ids == old(self).batch_ids,
            final(self).indices == old(self).indices,
            final(self).attribute_sets == old(self).attribute_sets,
            final(self).batch_id_to_area == old(self).batch_id_to_area,
            final(self).batch_id_to_azimuth == old(self).batch_id_to_azimuth,
            final(self).batch_id_to_elevation == old(self).batch_id_to_elevation,
            final(self).metallic_factor == old(self).metallic_factor,
            final(self).roughness_factor == old(self).roughness_factor,
            if plan.skip_metadata {
                &&& r == NO_ROW
                &&& *final(self) == *old(self)
            } else {
                &&& r == old(self).next_batch_index
                &&& final(self).next_batch_index == old(self).next_batch_index + 1
                &&& crate::json::texts_of(final(self).batch_id_to_cityobject_id@)
                    == crate::json::texts_of(old(self).batch_id_to_cityobject_id@).push(
                    plan.building_id@,
                )
                &&& crate::json::texts_of(final(self).batch_id_to_cityobject_type@)
                    == crate::json::texts_of(old(self).batch_id_to_cityobject_type@).push(
                    plan.cotype@,
                )
                &&& crate::json::texts_of(final(self).batch_id_to_surface_type@)
                    == crate::json::texts_of(old(self).batch_id_to_surface_type@).push(
                    match surface.kind {
                        Some(kind) => kind@,
                        None => "Unknown"@,
                    },
                )
                &&& final(self).batch_id_to_attributes@
                    == old(self).batch_id_to_attributes@.push(plan.attributes)
            },
    {
        if plan.skip_metadata {
            return NO_ROW;
        }
        let ghost before = *self;
        let batch_index: u32 = self.next_batch_index;
        let surface_type = match &surface.kind {
            Some(kind) => kind.clone(),
            None => "Unknown".to_owned(),
        };
        self.next_batch_index = batch_index + 1;
        self.batch_id_to_cityobject_id.push(plan.building_id.clone());
        self.batch_id_to_cityobject_type.push(plan.cotype.clone());
        self.batch_id_to_surface_type.push(surface_type);
        self.batch_id_to_attributes.push(plan.attributes);
        proof {
            assert(crate::json::texts_of(self.batch_id_to_cityobject_id@)
                =~= crate::json::texts_of(before.batch_id_to_cityobject_id@).push(
                plan.building_id@,
            ));
            assert(crate::json::texts_of(self.batch_id_to_cityobject_type@)
                =~= crate::json::texts_of(before.batch_id_to_cityobject_type@).push(
                plan.cotype@,
            ));
            assert(crate::json::texts_of(self.batch_id_to_surface_type@)
                =~= crate::json::texts_of(before.batch_id_to_surface_type@).push(
                match surface.kind {
                    Some(kind) => kind@,
                    None => "Unknown"@,
                },
            ));
            assert forall|i: int| 0 <= i < self.batch_id_to_attributes@.len() implies (
            #[trigger] self.batch_id_to_attributes@[i] matches Some(k) ==> k
                < self.attribute_sets@.len()) by {
                if i < before.batch_id_to_attributes@.len() {
                    assert(before.batch_id_to_attributes@[i] matches Some(k) ==> k
                        < before.attribute_sets@.len());
                }
            }
        }
        batch_index
    }

    /// Records what was computed for a surface.
    pub fn push_computed_surface_props(&mut self, area: u32, azimuth: u32, elevation: u32)
        ensures
            final(self).batch_id_to_area@ == old(self).batch_id_to_area@.push(area),
            final(self).batch_id_to_azimuth@ == old(self).batch_id_to_azimuth@.push(azimuth),
            final(self).batch_id_to_elevation@ == old(self).batch_id_to_elevation@.push(elevation),
            final(self).positions == old(self).positions,
            final(self).normals == old(self).normals,
            final(self).colors == old(self).colors,
            final(self).batch_ids == old(self).batch_ids,
            final(self).indices == old(self).indices,
            final(self).next_batch_index == old(self).next_batch_index,
            final(self).batch_id_to_cityobject_id == old(self).batch_id_to_cityobject_id,
            final(self).batch_id_to_cityobject_type == old(self).batch_id_to_cityobject_type,
            final(self).batch_id_to_surface_type == old(self).batch_id_to_surface_type,
            final(self).attribute_sets == old(self).attribute_sets,
            final(self).batch_id_to_attributes == old(self).batch_id_to_attributes,
            final(self).metallic_factor == old(self).metallic_factor,
            final(self).roughness_factor == old(self).roughness_factor,
            old(self).table_sound() ==> final(self).table_sound(),
    {
        self.batch_id_to_area.push(area);
        self.batch_id_to_azimuth.push(azimuth);
        self.batch_id_to_elevation.push(elevation);
    }
}

/// The color of an object.
pub fn object_color(object: &CityObject) -> (r: Vec4)
    ensures
        r == (match object.color {
            Some(color) => color,
            None => default_color(),
        }),
{
    match object.color {
        Some(color) => color,
        None => Vec4 { x: 0x3f80_0000, y: 0x3f40_c49c, z: 0x3f4b_c6a8, w: 0x3f80_0000 },
    }
}

// ----------------------------------------------------------- cells of a tile

/// The numbers in `s`, each where it occurs first.
pub open spec fn without_repeats(s: Seq<usize>) -> Seq<usize>
    decreases s.len(),
{
    if s.len() == 0 {
        Seq::empty()
    } else if s.drop_last().contains(s.last()) {
        without_repeats(s.drop_last())
    } else {
        without_repeats(s.drop_last()).push(s.last())
    }
}

/// The features of some cells, one cell after the other.
pub open spec fn all_features(cells: Seq<Vec<usize>>) -> Seq<usize>
    decreases cells.len(),
{
    if cells.len() == 0 {
        Seq::empty()
    } else {
        all_features(cells.drop_last()) + cells.last()@
    }
}

/// Leaving out repeats leaves no repeats, and loses nothing.
pub proof fn law_without_repeats(s: Seq<usize>)
    ensures
        without_repeats(s).no_duplicates(),
        forall|x: usize| #[trigger] without_repeats(s).contains(x) == s.contains(x),
    decreases s.len(),
{
    if s.len() > 0 {
        let head = s.drop_last();
        law_without_repeats(head);
        assert(s =~= head.push(s.last()));
        assert forall|x: usize| #[trigger] without_repeats(s).contains(x) == s.contains(x) by {
            vstd::seq_lib::lemma_seq_contains_after_push(head, s.last(), x);
            vstd::seq_lib::lemma_seq_contains_after_push(without_repeats(head), s.last(), x);
        }
        if !head.contains(s.last()) {
            assert(!without_repeats(head).contains(s.last()));
        }
    }
}

/// The features of a tile: those of its cells, each once. A feature may lie in
/// several cells.
pub fn tile_features(cells: &[Vec<usize>]) -> (r: Vec<usize>)
    ensures
        r@ == without_repeats(all_features(cells@)),
{
    broadcast use vstd::std_specs::hash::group_hash_axioms;

    let mut seen: HashSet<usize> = HashSet::new();
    let mut r: Vec<usize> = Vec::new();
    let n: usize = cells.len();
    let mut c: usize = 0;
    while c < n
        invariant
            c <= n,
            n == cells@.len(),
            forall|x: usize| #[trigger]
                seen@.contains(x) == all_features(cells@.take(c as int)).contains(x),
            r@ == without_repeats(all_features(cells@.take(c as int))),
        decreases n - c,
    {
        let cell = &cells[c];
        let ghost before = all_features(cells@.take(c as int));
        let m: usize = cell.len();
        let mut i: usize = 0;
        assert(before + cell@.take(0) =~= before);
        while i < m
            invariant
                i <= m,
                m == cell@.len(),
                forall|x: usize| #[trigger]
                    seen@.contains(x) == (before + cell@.take(i as int)).contains(x),
                r@ == without_repeats(before + cell@.take(i as int)),
            decreases m - i,
        {
            let id: usize = cell[i];
            let ghost all = before + cell@.take(i as int);
            let ghost next = before + cell@.take(i + 1);
            proof {
                assert(next.drop_last() =~= all);
                assert(next =~= all.push(id));
                assert forall|x: usize| #[trigger] next.contains(x) == (all.contains(x) || x
                    == id) by {
                    vstd::seq_lib::lemma_seq_contains_after_push(all, id, x);
                }
                assert(seen@.contains(id) == all.contains(id));
            }
            if seen.insert(id) {
                r.push(id);
            }
            i += 1;
        }
        proof {
            assert(cell@.take(m as int) =~= cell@);
            assert(cells@.take(c + 1).drop_last() =~= cells@.take(c as int));
        }
        c += 1;
    }
    assert(cells@.take(n as int) =~= cells@);
    r
}

/// The ending of a text can be taken away: what is left, with the ending, is the
/// text. Where the text does not end so, nothing is left.
pub proof fn law_endings_are_taken_away(stem: Seq<char>, ending: Seq<char>, s: Seq<char>)
    ensures
        without_ending(stem + ending, ending) == Some(stem),
        without_ending(s, ending) matches Some(left) ==> left + ending == s,
        without_ending(s, ending) is None ==> s != stem + ending,
{
    let all = stem + ending;
    assert(all.skip(all.len() - ending.len()) =~= ending);
    assert(all.take(all.len() - ending.len()) =~= stem);
    if ending.len() <= s.len() && s.skip(s.len() - ending.len()) == ending {
        assert(s.take(s.len() - ending.len()) + ending =~= s);
    }
}

/// Where there is a building, the main object is one, and it is the first; else
/// it is the first building part.
pub proof fn law_buildings_come_first(objects: Seq<CityObject>, i: int, k: int)
    requires
        is_main(objects, i),
        0 <= k < objects.len(),
    ensures
        0 <= i < objects.len(),
        objects[k].cotype@ == "Building"@ ==> objects[i].cotype@ == "Building"@ && i <= k,
        objects[k].cotype@ == "BuildingPart"@ ==> i <= k || objects[i].cotype@ == "Building"@,
        objects[i].cotype@ == "Building"@ || objects[i].cotype@ == "BuildingPart"@,
{
    reveal_strlit("Building");
    reveal_strlit("BuildingPart");
    assert("Building"@.len() == 8 && "BuildingPart"@.len() == 12);
}

/// A feature is known by its own id. One without an id is known by that of its
/// first building, or of its first building part without "-0" at the end.
pub proof fn law_ids_of_features(feature: Feature, i: int, stem: Seq<char>, text: Seq<char>)
    requires
        is_building_id(feature, text),
    ensures
        feature.id matches Some(id) ==> text == id@,
        feature.id is None && is_first_of(feature.objects@, "Building"@, i) ==> text
            == feature.objects@[i].id@,
        feature.id is None && none_of(feature.objects@, "Building"@) && is_first_of(
            feature.objects@,
            "BuildingPart"@,
            i,
        ) && feature.objects@[i].id@ == stem + "-0"@ ==> text == stem,
{
    let objects = feature.objects@;
    law_endings_are_taken_away(stem, "-0"@, objects[i].id@);
    assert forall|j: int| #[trigger]
        is_first_of(objects, "Building"@, j) && is_first_of(objects, "Building"@, i) implies j
        == i by {
        if j < i {
            assert(objects[j].cotype@ == "Building"@);
        }
        if i < j {
            assert(objects[i].cotype@ == "Building"@);
        }
    }
    assert forall|j: int| #[trigger]
        is_first_of(objects, "BuildingPart"@, j) && is_first_of(
            objects,
            "BuildingPart"@,
            i,
        ) implies j == i by {
        if j < i {
            assert(objects[j].cotype@ == "BuildingPart"@);
        }
        if i < j {
            assert(objects[i].cotype@ == "BuildingPart"@);
        }
    }
}

/// A further geometry is the finest if and only if it has a level of detail that
/// is not below that of the finest before.
pub proof fn law_later_levels_win(geometries: Seq<Geometry>, more: Geometry)
    ensures
        more.lod is None ==> finest(geometries.push(more)) == finest(geometries),
        more.lod matches Some(lod) ==> match finest(geometries) {
            None => finest(geometries.push(more)) == Some(geometries.len() as int),
            Some(best) => finest(geometries.push(more)) == (if crate::float_bits::f64_lt(
                lod.value,
                geometries[best].lod->0.value,
            ) {
                Some(best)
            } else {
                Some(geometries.len() as int)
            }),
        },
{
    law_finest_is_highest(geometries);
    assert(geometries.push(more).drop_last() =~= geometries);
    assert(geometries.push(more).last() == more);
    match finest(geometries) {
        Some(best) => {
            assert(geometries.push(more)[best] == geometries[best]);
        },
        None => {},
    }
}

/// The surfaces of lone trees get no rows, and those of all else do.
pub proof fn law_lone_trees_have_no_rows(
    feature: Feature,
    lod_filter: Option<&str>,
    whitelist: Option<&[String]>,
    sets: Seq<AttributeSet>,
    plan: FeaturePlan,
    sets_after: Seq<AttributeSet>,
)
    requires
        is_plan(feature, lod_filter, whitelist, sets, plan, sets_after),
    ensures
        plan.skip_metadata <==> plan.cotype@ == "SolitaryVegetationObject"@,
        plan.skip_metadata ==> plan.attributes is None,
{
}

/// The attributes of a feature that are written are those of its main object
/// whose names are on the list.
pub proof fn law_written_attributes_are_listed(
    object: CityObject,
    names: &[String],
    name: Seq<char>,
)
    ensures
        kept_attributes(object, None) is None,
        kept_attributes(object, Some(names)) matches Some(kept) ==> {
            &&& object.attributes matches Some(set) && {
                &&& kept.contains_key(name) <==> set@.contains_key(name) && exists|i: int|
                    0 <= i < names@.len() && #[trigger] names@[i]@ == name
                &&& kept.contains_key(name) ==> kept[name] == set@[name]
            }
        },
        kept_attributes(object, Some(names)) is None ==> (object.attributes matches Some(set)
            ==> !(set@.contains_key(name) && exists|i: int|
            0 <= i < names@.len() && #[trigger] names@[i]@ == name)),
{
    match object.attributes {
        Some(set) => {
            let kept = set@.restrict(crate::gltf_writer::attributes::listed(names@));
            if set@.contains_key(name) && exists|i: int|
                0 <= i < names@.len() && #[trigger] names@[i]@ == name {
                assert(kept.contains_key(name));
            }
        },
        None => {},
    }
}

/// The features of one list of cells after another are those of the one and then
/// of the other; the features of a single cell are its own.
pub proof fn law_features_of_cells(a: Seq<Vec<usize>>, b: Seq<Vec<usize>>, one: Vec<usize>)
    ensures
        all_features(a + b) == all_features(a) + all_features(b),
        all_features(seq![one]) == one@,
    decreases b.len(),
{
    let none = Seq::<Vec<usize>>::empty();
    assert(seq![one].drop_last() =~= none);
    assert(seq![one].last() == one);
    assert(all_features(none) =~= Seq::<usize>::empty());
    assert(Seq::<usize>::empty() + one@ =~= one@);
    if b.len() == 0 {
        assert(a + b =~= a);
        assert(all_features(a) + all_features(b) =~= all_features(a));
    } else {
        assert((a + b).drop_last() =~= a + b.drop_last());
        law_features_of_cells(a, b.drop_last(), one);
        assert(all_features(a + b) =~= all_features(a) + all_features(b));
    }
}

/// Numbers keep their order when repeats are left out: those of more numbers
/// begin with those of the first.
pub proof fn law_first_occurrences_stay(a: Seq<usize>, b: Seq<usize>)
    ensures
        without_repeats(a).is_prefix_of(without_repeats(a + b)),
        a.no_duplicates() ==> without_repeats(a) == a,
    decreases a.len() + b.len(),
{
    if b.len() == 0 {
        assert(a + b =~= a);
        if a.len() > 0 {
            law_first_occurrences_stay(a.drop_last(), b);
            if a.no_duplicates() {
                let head = a.drop_last();
                assert forall|i: int, j: int| 0 <= i < j < head.len() implies head[i]
                    != head[j] by {
                    assert(a[i] != a[j]);
                }
                assert(!head.contains(a.last())) by {
                    if head.contains(a.last()) {
                        let i = choose|i: int| 0 <= i < head.len() && head[i] == a.last();
                        assert(a[i] == a[a.len() - 1]);
                    }
                }
                assert(head.push(a.last()) =~= a);
            }
        }
    } else {
        law_first_occurrences_stay(a, b.drop_last());
        assert((a + b).drop_last() =~= a + b.drop_last());
    }
}

/// The type that the surfaces of a feature are known by is that of its main
/// object; a feature without one has the type of its first object.
pub proof fn law_types_of_features(
    feature: Feature,
    lod_filter: Option<&str>,
    whitelist: Option<&[String]>,
    sets: Seq<AttributeSet>,
    plan: FeaturePlan,
    sets_after: Seq<AttributeSet>,
    k: int,
)
    requires
        is_plan(feature, lod_filter, whitelist, sets, plan, sets_after),
        0 <= k < feature.objects@.len(),
    ensures
        feature.objects@[k].cotype@ == "Building"@ ==> plan.cotype@ == "Building"@,
        feature.objects@[k].cotype@ == "BuildingPart"@ ==> plan.cotype@ == "Building"@
            || plan.cotype@ == "BuildingPart"@,
        (forall|j: int|
            0 <= j < feature.objects@.len() ==> (#[trigger] feature.objects@[j]).cotype@
                != "Building"@ && feature.objects@[j].cotype@ != "BuildingPart"@) ==> plan.cotype@
            == feature.objects@[0].cotype@,
{
    let objects = feature.objects@;
    let i = choose|i: int| #[trigger] is_primary(objects, i) && plan.cotype@ == objects[i].cotype@;
    reveal_strlit("Building");
    reveal_strlit("BuildingPart");
    assert("Building"@.len() == 8 && "BuildingPart"@.len() == 12);
    if is_main(objects, i) {
        law_buildings_come_first(objects, i, k);
    } else {
        assert(objects[k].cotype@ != "Building"@);
    }
}

} // verus!

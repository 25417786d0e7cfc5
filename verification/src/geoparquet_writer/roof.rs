//! What the surfaces and attributes of a city object say of its roof.

use crate::float_bits::{max_f64, min_f64};
use crate::geoparquet_writer::attributes::{
    get_flag, get_number, get_text, get_whole, Attribute,
};
use crate::geoparquet_writer::feature::{find_detailed, ExtendedCityObject, SemanticSurface};
use crate::text::same_text;
use vstd::prelude::*;

verus! {

/// What is known of a roof. Numbers are doubles, by their bits; of the two
/// elevations that are averaged, all values are kept.
#[derive(Debug)]
pub struct RoofData {
    pub n_planes: Option<i32>,
    pub roof_type: Option<String>,
    pub azimuths: Vec<u64>,
    pub slopes: Vec<u64>,
    pub elevation_min: Option<u64>,
    pub elevation_max: Option<u64>,
    pub elevations_50p: Vec<u64>,
    pub elevations_70p: Vec<u64>,
    pub is_glass: bool,
}

/// How many surfaces of each type there are.
#[derive(Clone, Copy, Debug, PartialEq, Eq, Structural)]
pub struct SurfaceCounts {
    pub n_ground: i32,
    pub n_wall: i32,
    pub n_roof: i32,
}

/// How many surfaces are of a type.
pub open spec fn count_of(surfaces: Seq<SemanticSurface>, surface_type: Seq<char>) -> nat
    decreases surfaces.len(),
{
    if surfaces.len() == 0 {
        0
    } else {
        count_of(surfaces.drop_last(), surface_type) + if surfaces.last().surface_type@
            == surface_type {
            1nat
        } else {
            0nat
        }
    }
}

/// The numbers that the roof surfaces have in an attribute, in order.
pub open spec fn roof_numbers(surfaces: Seq<SemanticSurface>, name: Seq<char>) -> Seq<u64>
    decreases surfaces.len(),
{
    if surfaces.len() == 0 {
        Seq::empty()
    } else {
        let rest = roof_numbers(surfaces.drop_last(), name);
        let number = crate::geoparquet_writer::attributes::number_in(
            surfaces.last().attributes@,
            name,
        );
        if surfaces.last().surface_type@ == "RoofSurface"@ && number is Some {
            rest.push(number->0)
        } else {
            rest
        }
    }
}

/// Whether a roof surface says that it is of glass.
pub open spec fn any_glass(surfaces: Seq<SemanticSurface>) -> bool {
    exists|i: int|
        {
            &&& 0 <= i < surfaces.len()
            &&& (#[trigger] surfaces[i]).surface_type@ == "RoofSurface"@
            &&& crate::geoparquet_writer::attributes::flag_in(
                surfaces[i].attributes@,
                "rf_is_glass_roof"@,
            ) == Some(true)
        }
}

/// The smallest of some numbers, if there are any.
pub open spec fn smallest(s: Seq<u64>) -> Option<u64>
    decreases s.len(),
{
    if s.len() == 0 {
        None
    } else {
        match smallest(s.drop_last()) {
            None => Some(s.last()),
            Some(m) => Some(crate::float_bits::f64_min(m, s.last())),
        }
    }
}

/// The largest of some numbers, if there are any.
pub open spec fn largest(s: Seq<u64>) -> Option<u64>
    decreases s.len(),
{
    if s.len() == 0 {
        None
    } else {
        match largest(s.drop_last()) {
            None => Some(s.last()),
            Some(m) => Some(crate::float_bits::f64_max(m, s.last())),
        }
    }
}

/// The low 32 bits of a number, as a signed number.
pub open spec fn low_signed(v: i64) -> int {
    crate::bytes::as_signed_32((v as int % 0x1_0000_0000) as nat)
}

fn low_i32(v: i64) -> (r: i32)
    ensures
        r == low_signed(v),
{
    let shifted: u128 = (v as i128 + 0x8000_0000_0000_0000) as u128;
    let low: i64 = (shifted % 0x1_0000_0000) as i64;
    if low < 0x8000_0000 {
        low as i32
    } else {
        (low - 0x1_0000_0000) as i32
    }
}

/// The number that a roof surface has in an attribute.
fn push_number(list: &mut Vec<u64>, surface: &SemanticSurface, name: &str)
    ensures
        final(list)@ == (match crate::geoparquet_writer::attributes::number_in(
            surface.attributes@,
            name@,
        ) {
            Some(number) => old(list)@.push(number),
            None => old(list)@,
        }),
{
    match get_number(surface.attributes.as_slice(), name) {
        Some(number) => {
            list.push(number);
        },
        None => {},
    }
}

/// The surfaces of the geometry with the roof, if it names them.
pub open spec fn is_roof_source(object: ExtendedCityObject, surfaces: Seq<SemanticSurface>) -> bool {
    match object.geometry {
        None => surfaces.len() == 0,
        Some(geometries) => {
            ||| crate::geoparquet_writer::feature::none_detailed(geometries@) && surfaces.len() == 0
            ||| exists|i: int| #[trigger]
                crate::geoparquet_writer::feature::is_detailed(geometries@, i) && surfaces == (
                match geometries@[i].semantics {
                    Some(semantics) => match semantics.surfaces {
                        Some(list) => list@,
                        None => Seq::empty(),
                    },
                    None => Seq::empty(),
                })
        },
    }
}

/// What surfaces say of a roof.
pub open spec fn roof_of(surfaces: Seq<SemanticSurface>, roof: RoofData) -> bool {
    &&& roof.azimuths@ == roof_numbers(surfaces, "rf_azimuth"@)
    &&& roof.slopes@ == roof_numbers(surfaces, "rf_slope"@)
    &&& roof.elevation_min == smallest(roof_numbers(surfaces, "rf_roof_elevation_min"@))
    &&& roof.elevation_max == largest(roof_numbers(surfaces, "rf_roof_elevation_max"@))
    &&& roof.elevations_50p@ == roof_numbers(surfaces, "rf_roof_elevation_50p"@)
    &&& roof.elevations_70p@ == roof_numbers(surfaces, "rf_roof_elevation_70p"@)
}

/// How many surfaces of each type there are.
pub open spec fn counts_of(surfaces: Seq<SemanticSurface>, counts: SurfaceCounts) -> bool {
    &&& counts.n_ground == count_of(surfaces, "GroundSurface"@)
    &&& counts.n_wall == count_of(surfaces, "WallSurface"@)
    &&& counts.n_roof == count_of(surfaces, "RoofSurface"@)
}

/// What the attributes of the object add.
pub open spec fn adds(
    attributes: Option<Vec<Attribute>>,
    surfaces: Seq<SemanticSurface>,
    roof: RoofData,
) -> bool {
    match attributes {
        None => roof.n_planes is None && roof.roof_type is None && roof.is_glass == any_glass(
            surfaces,
        ),
        Some(list) => {
            &&& match crate::geoparquet_writer::attributes::whole_in(list@, "rf_roof_n_planes"@) {
                Some(n) => roof.n_planes matches Some(m) && m == low_signed(n),
                None => roof.n_planes is None,
            }
            &&& match crate::geoparquet_writer::attributes::text_in(list@, "rf_roof_type"@) {
                Some(text) => roof.roof_type matches Some(s) && s@ == text,
                None => roof.roof_type is None,
            }
            &&& roof.is_glass == (any_glass(surfaces)
                || crate::geoparquet_writer::attributes::flag_in(list@, "rf_is_glass_roof"@)
                == Some(true))
        },
    }
}

proof fn lemma_counts(surfaces: Seq<SemanticSurface>)
    ensures
        count_of(surfaces, "GroundSurface"@) <= surfaces.len(),
        count_of(surfaces, "WallSurface"@) <= surfaces.len(),
        count_of(surfaces, "RoofSurface"@) <= surfaces.len(),
    decreases surfaces.len(),
{
    if surfaces.len() > 0 {
        lemma_counts(surfaces.drop_last());
    }
}

proof fn lemma_types_differ()
    ensures
        "GroundSurface"@ != "WallSurface"@,
        "GroundSurface"@ != "RoofSurface"@,
        "WallSurface"@ != "RoofSurface"@,
{
    reveal_strlit("GroundSurface");
    reveal_strlit("WallSurface");
    reveal_strlit("RoofSurface");
    assert("GroundSurface"@.len() == 13);
    assert("WallSurface"@.len() == 11);
    assert("RoofSurface"@.len() == 11);
    assert("WallSurface"@[0] == 'W');
    assert("RoofSurface"@[0] == 'R');
}

/// Goes through the surfaces of a geometry.
fn gather_surfaces(surfaces: &[SemanticSurface]) -> (r: (RoofData, SurfaceCounts))
    requires
        surfaces@.len() <= i32::MAX,
    ensures
        roof_of(surfaces@, r.0),
        counts_of(surfaces@, r.1),
        r.0.n_planes is None,
        r.0.roof_type is None,
        r.0.is_glass == any_glass(surfaces@),
{
    let mut azimuths: Vec<u64> = Vec::new();
    let mut slopes: Vec<u64> = Vec::new();
    let mut lows: Vec<u64> = Vec::new();
    let mut highs: Vec<u64> = Vec::new();
    let mut middles: Vec<u64> = Vec::new();
    let mut uppers: Vec<u64> = Vec::new();
    let mut is_glass = false;
    let mut counts = SurfaceCounts { n_ground: 0, n_wall: 0, n_roof: 0 };
    let n: usize = surfaces.len();
    let mut i: usize = 0;
    while i < n
        invariant
            i <= n,
            n == surfaces@.len(),
            n <= i32::MAX,
            counts_of(surfaces@.take(i as int), counts),
            azimuths@ == roof_numbers(surfaces@.take(i as int), "rf_azimuth"@),
            slopes@ == roof_numbers(surfaces@.take(i as int), "rf_slope"@),
            lows@ == roof_numbers(surfaces@.take(i as int), "rf_roof_elevation_min"@),
            highs@ == roof_numbers(surfaces@.take(i as int), "rf_roof_elevation_max"@),
            middles@ == roof_numbers(surfaces@.take(i as int), "rf_roof_elevation_50p"@),
            uppers@ == roof_numbers(surfaces@.take(i as int), "rf_roof_elevation_70p"@),
            is_glass == any_glass(surfaces@.take(i as int)),
        decreases n - i,
    {
        let ghost before = surfaces@.take(i as int);
        let ghost now = surfaces@.take(i + 1);
        let surface = &surfaces[i];
        proof {
            assert(now.drop_last() =~= before);
            assert(now.last() == surfaces@[i as int]);
            lemma_counts(before);
            lemma_types_differ();
        }
        let kind = surface.surface_type.as_str();
        let ghost was_glass = is_glass;
        if same_text(kind, "GroundSurface") {
            counts.n_ground = counts.n_ground + 1;
        } else if same_text(kind, "WallSurface") {
            counts.n_wall = counts.n_wall + 1;
        } else if same_text(kind, "RoofSurface") {
            counts.n_roof = counts.n_roof + 1;
            push_number(&mut azimuths, surface, "rf_azimuth");
            push_number(&mut slopes, surface, "rf_slope");
            push_number(&mut lows, surface, "rf_roof_elevation_min");
            push_number(&mut highs, surface, "rf_roof_elevation_max");
            push_number(&mut middles, surface, "rf_roof_elevation_50p");
            push_number(&mut uppers, surface, "rf_roof_elevation_70p");
            match get_flag(surface.attributes.as_slice(), "rf_is_glass_roof") {
                Some(glass) => {
                    is_glass = is_glass || glass;
                },
                None => {},
            }
        }
        proof {
            lemma_any_glass_push(before, now);
        }
        i += 1;
    }
    assert(surfaces@.take(n as int) =~= surfaces@);
    let elevation_min = find_smallest(lows.as_slice());
    let elevation_max = find_largest(highs.as_slice());
    (
        RoofData {
            n_planes: None,
            roof_type: None,
            azimuths,
            slopes,
            elevation_min,
            elevation_max,
            elevations_50p: middles,
            elevations_70p: uppers,
            is_glass,
        },
        counts,
    )
}

proof fn lemma_any_glass_push(before: Seq<SemanticSurface>, now: Seq<SemanticSurface>)
    requires
        now.len() == before.len() + 1,
        now.drop_last() == before,
    ensures
        any_glass(now) == (any_glass(before) || (now.last().surface_type@ == "RoofSurface"@
            && crate::geoparquet_writer::attributes::flag_in(
            now.last().attributes@,
            "rf_is_glass_roof"@,
        ) == Some(true))),
{
    if any_glass(before) {
        let i = choose|i: int|
            {
                &&& 0 <= i < before.len()
                &&& (#[trigger] before[i]).surface_type@ == "RoofSurface"@
                &&& crate::geoparquet_writer::attributes::flag_in(
                    before[i].attributes@,
                    "rf_is_glass_roof"@,
                ) == Some(true)
            };
        assert(now[i] == before[i]);
    }
    if any_glass(now) {
        let i = choose|i: int|
            {
                &&& 0 <= i < now.len()
                &&& (#[trigger] now[i]).surface_type@ == "RoofSurface"@
                &&& crate::geoparquet_writer::attributes::flag_in(
                    now[i].attributes@,
                    "rf_is_glass_roof"@,
                ) == Some(true)
            };
        if i < before.len() {
            assert(before[i] == now[i]);
        }
    }
    assert(now[now.len() - 1] == now.last());
}

fn find_smallest(s: &[u64]) -> (r: Option<u64>)
    ensures
        r == smallest(s@),
{
    let mut r: Option<u64> = None;
    let n: usize = s.len();
    let mut i: usize = 0;
    while i < n
        invariant
            i <= n,
            n == s@.len(),
            r == smallest(s@.take(i as int)),
        decreases n - i,
    {
        proof {
            assert(s@.take(i + 1).drop_last() =~= s@.take(i as int));
        }
        r = match r {
            None => Some(s[i]),
            Some(m) => Some(min_f64(m, s[i])),
        };
        i += 1;
    }
    assert(s@.take(n as int) =~= s@);
    r
}

fn find_largest(s: &[u64]) -> (r: Option<u64>)
    ensures
        r == largest(s@),
{
    let mut r: Option<u64> = None;
    let n: usize = s.len();
    let mut i: usize = 0;
    while i < n
        invariant
            i <= n,
            n == s@.len(),
            r == largest(s@.take(i as int)),
        decreases n - i,
    {
        proof {
            assert(s@.take(i + 1).drop_last() =~= s@.take(i as int));
        }
        r = match r {
            None => Some(s[i]),
            Some(m) => Some(max_f64(m, s[i])),
        };
        i += 1;
    }
    assert(s@.take(n as int) =~= s@);
    r
}

/// The surfaces of the geometry with the roof.
fn roof_surfaces(object: &ExtendedCityObject) -> (r: Option<&Vec<SemanticSurface>>)
    ensures
        is_roof_source(
            *object,
            match r {
                Some(list) => list@,
                None => Seq::empty(),
            },
        ),
{
    let geometries = match &object.geometry {
        None => {
            return None;
        },
        Some(geometries) => geometries,
    };
    match find_detailed(geometries.as_slice()) {
        None => None,
        Some(i) => {
            assert(crate::geoparquet_writer::feature::is_detailed(geometries@, i as int));
            match &geometries[i].semantics {
                Some(semantics) => match &semantics.surfaces {
                    Some(list) => Some(list),
                    None => None,
                },
                None => None,
            }
        },
    }
}

/// Whether no geometry of an object names more surfaces than can be counted.
pub open spec fn countable(object: ExtendedCityObject) -> bool {
    match object.geometry {
        None => true,
        Some(geometries) => forall|i: int|
            0 <= i < geometries@.len() ==> ((#[trigger] geometries@[i]).semantics matches Some(
                semantics,
            ) ==> (semantics.surfaces matches Some(list) ==> list@.len() <= i32::MAX)),
    }
}

/// Puts together what is known of the roof of an object, and counts its
/// surfaces.
pub fn aggregate_semantic_surfaces(object: &ExtendedCityObject) -> (r: (RoofData, SurfaceCounts))
    requires
        countable(*object),
    ensures
        exists|surfaces: Seq<SemanticSurface>| #[trigger]
            is_roof_source(*object, surfaces) && roof_of(surfaces, r.0) && counts_of(
                surfaces,
                r.1,
            ) && adds(object.attributes, surfaces, r.0),
{
    let none: Vec<SemanticSurface> = Vec::new();
    assert(none@ =~= Seq::<SemanticSurface>::empty());
    let source = roof_surfaces(object);
    let surfaces: &[SemanticSurface] = match source {
        Some(list) => list.as_slice(),
        None => none.as_slice(),
    };
    assert(is_roof_source(*object, surfaces@));
    let (mut roof, counts) = gather_surfaces(surfaces);
    match &object.attributes {
        Some(attributes) => {
            let list = attributes.as_slice();
            match get_whole(list, "rf_roof_n_planes") {
                Some(n) => {
                    roof.n_planes = Some(low_i32(n));
                },
                None => {},
            }
            match get_text(list, "rf_roof_type") {
                Some(text) => {
                    roof.roof_type = Some(text.to_owned());
                },
                None => {},
            }
            match get_flag(list, "rf_is_glass_roof") {
                Some(glass) => {
                    roof.is_glass = roof.is_glass || glass;
                },
                None => {},
            }
        },
        None => {},
    }
    assert(roof_of(surfaces@, roof));
    assert(adds(object.attributes, surfaces@, roof));
    (roof, counts)
}

// -------------------------------------------------------------------- laws

/// The smallest number is one of the list, and none of the list is less; the
/// largest is one of the list, and less than none. There is none only where the
/// list is empty, and it is a NaN only where all of them are.
pub proof fn law_smallest_and_largest(s: Seq<u64>)
    ensures
        smallest(s) is None <==> s.len() == 0,
        largest(s) is None <==> s.len() == 0,
        smallest(s) matches Some(m) ==> {
            &&& s.contains(m)
            &&& forall|k: int| 0 <= k < s.len() ==> !crate::float_bits::f64_lt(#[trigger] s[k], m)
            &&& crate::float_bits::f64_is_nan(m) ==> forall|k: int|
                0 <= k < s.len() ==> crate::float_bits::f64_is_nan(#[trigger] s[k])
        },
        largest(s) matches Some(m) ==> {
            &&& s.contains(m)
            &&& forall|k: int| 0 <= k < s.len() ==> !crate::float_bits::f64_lt(m, #[trigger] s[k])
            &&& crate::float_bits::f64_is_nan(m) ==> forall|k: int|
                0 <= k < s.len() ==> crate::float_bits::f64_is_nan(#[trigger] s[k])
        },
    decreases s.len(),
{
    if s.len() > 0 {
        let head = s.drop_last();
        law_smallest_and_largest(head);
        assert(s[s.len() - 1] == s.last());
        if head.len() > 0 {
            let low = smallest(head)->0;
            let high = largest(head)->0;
            let i = choose|i: int| 0 <= i < head.len() && head[i] == low;
            let j = choose|j: int| 0 <= j < head.len() && head[j] == high;
            assert(s[i] == low && s[j] == high);
            assert forall|k: int| 0 <= k < s.len() implies !crate::float_bits::f64_lt(
                #[trigger] s[k],
                smallest(s)->0,
            ) && !crate::float_bits::f64_lt(largest(s)->0, s[k]) by {
                if k < head.len() {
                    assert(head[k] == s[k]);
                }
            }
            assert forall|k: int| 0 <= k < s.len() && (crate::float_bits::f64_is_nan(smallest(s)->0)
                || crate::float_bits::f64_is_nan(
                largest(s)->0,
            )) implies crate::float_bits::f64_is_nan(#[trigger] s[k]) by {
                if k < head.len() {
                    assert(head[k] == s[k]);
                }
            }
        }
    }
}

/// The smallest and the largest number do not depend on the order of the list,
/// nor on how often a number occurs in it.
pub proof fn law_order_does_not_matter(a: Seq<u64>, b: Seq<u64>)
    requires
        a.len() > 0,
        forall|x: u64| #[trigger] a.contains(x) <==> b.contains(x),
        forall|k: int| 0 <= k < a.len() ==> !crate::float_bits::f64_is_nan(#[trigger] a[k]),
    ensures
        smallest(a) is Some && smallest(b) is Some,
        largest(a) is Some && largest(b) is Some,
        crate::float_bits::f64_eq(smallest(a)->0, smallest(b)->0),
        crate::float_bits::f64_eq(largest(a)->0, largest(b)->0),
{
    assert(a.contains(a[0]));
    law_smallest_and_largest(a);
    law_smallest_and_largest(b);
    assert(b.contains(smallest(b)->0) && b.contains(largest(b)->0));
    assert(a.contains(smallest(b)->0) && a.contains(largest(b)->0));
    assert(b.contains(smallest(a)->0) && b.contains(largest(a)->0));
}

/// How many surfaces are of a type is how many are left when those of other
/// types are left out.
pub proof fn law_counting_surfaces(surfaces: Seq<SemanticSurface>, surface_type: Seq<char>)
    ensures
        count_of(surfaces, surface_type) == surfaces.filter(
            |s: SemanticSurface| s.surface_type@ == surface_type,
        ).len(),
    decreases surfaces.len(),
{
    reveal(Seq::filter);
    if surfaces.len() > 0 {
        law_counting_surfaces(surfaces.drop_last(), surface_type);
    }
}

/// The numbers of lists of surfaces, one list after the other, are those of
/// the one and then those of the other. A single surface has one number where it
/// is a roof with a number of that name, else none.
pub proof fn law_roof_numbers_are_gathered(
    a: Seq<SemanticSurface>,
    b: Seq<SemanticSurface>,
    one: SemanticSurface,
    name: Seq<char>,
)
    ensures
        roof_numbers(a + b, name) == roof_numbers(a, name) + roof_numbers(b, name),
        roof_numbers(seq![one], name) == (match crate::geoparquet_writer::attributes::number_in(
            one.attributes@,
            name,
        ) {
            Some(number) => if one.surface_type@ == "RoofSurface"@ {
                seq![number]
            } else {
                Seq::empty()
            },
            None => Seq::empty(),
        }),
    decreases b.len(),
{
    let none = Seq::<SemanticSurface>::empty();
    assert(seq![one].drop_last() =~= none);
    assert(seq![one].last() == one);
    assert(roof_numbers(none, name) =~= Seq::<u64>::empty());
    assert(roof_numbers(seq![one], name) =~= (match crate::geoparquet_writer::attributes::number_in(
        one.attributes@,
        name,
    ) {
        Some(number) => if one.surface_type@ == "RoofSurface"@ {
            seq![number]
        } else {
            Seq::empty()
        },
        None => Seq::empty(),
    }));
    if b.len() == 0 {
        assert(a + b =~= a);
        assert(roof_numbers(a, name) + roof_numbers(b, name) =~= roof_numbers(a, name));
    } else {
        assert((a + b).drop_last() =~= a + b.drop_last());
        law_roof_numbers_are_gathered(a, b.drop_last(), one, name);
        assert(roof_numbers(a + b, name) =~= roof_numbers(a, name) + roof_numbers(b, name));
    }
}

/// What is known of the roof of an object with a single roof surface is what the
/// attributes of this surface say, each under its own name.
pub proof fn law_roof_of_one_surface(surface: SemanticSurface, roof: RoofData, counts: SurfaceCounts)
    requires
        surface.surface_type@ == "RoofSurface"@,
        roof_of(seq![surface], roof),
        counts_of(seq![surface], counts),
    ensures
        ({
            let number = |name: Seq<char>|
                crate::geoparquet_writer::attributes::number_in(surface.attributes@, name);
            let list = |n: Option<u64>|
                match n {
                    Some(x) => seq![x],
                    None => Seq::<u64>::empty(),
                };
            &&& roof.azimuths@ == list(number("rf_azimuth"@))
            &&& roof.slopes@ == list(number("rf_slope"@))
            &&& roof.elevation_min == number("rf_roof_elevation_min"@)
            &&& roof.elevation_max == number("rf_roof_elevation_max"@)
            &&& roof.elevations_50p@ == list(number("rf_roof_elevation_50p"@))
            &&& roof.elevations_70p@ == list(number("rf_roof_elevation_70p"@))
            &&& counts == SurfaceCounts { n_ground: 0, n_wall: 0, n_roof: 1 }
        }),
{
    let none = Seq::<SemanticSurface>::empty();
    law_roof_numbers_are_gathered(none, none, surface, "rf_azimuth"@);
    law_roof_numbers_are_gathered(none, none, surface, "rf_slope"@);
    law_roof_numbers_are_gathered(none, none, surface, "rf_roof_elevation_min"@);
    law_roof_numbers_are_gathered(none, none, surface, "rf_roof_elevation_max"@);
    law_roof_numbers_are_gathered(none, none, surface, "rf_roof_elevation_50p"@);
    law_roof_numbers_are_gathered(none, none, surface, "rf_roof_elevation_70p"@);
    law_smallest_and_largest(roof_numbers(seq![surface], "rf_roof_elevation_min"@));
    law_smallest_and_largest(roof_numbers(seq![surface], "rf_roof_elevation_max"@));
    lemma_types_differ();
    assert(seq![surface].drop_last() =~= none);
    assert(seq![surface].last() == surface);
    reveal_with_fuel(count_of, 2);
}

/// A number that fits in 32 bits stays as it is; of any other the multiple of
/// `2^32` is left out that brings it there.
pub proof fn law_low_bits(v: i64)
    ensures
        i32::MIN <= low_signed(v) <= i32::MAX,
        (v - low_signed(v)) % 0x1_0000_0000 == 0,
        i32::MIN <= v <= i32::MAX ==> low_signed(v) == v,
{
    crate::bytes::law_signed_reading((v as int % 0x1_0000_0000) as nat);
}

/// The attributes of an object tell the number of planes and the type of its
/// roof; it is of glass if they or one of its roof surfaces say so.
pub proof fn law_roof_of_the_object(
    attributes: Vec<Attribute>,
    surfaces: Seq<SemanticSurface>,
    roof: RoofData,
    i: int,
)
    requires
        adds(Some(attributes), surfaces, roof),
    ensures
        crate::geoparquet_writer::attributes::whole_in(attributes@, "rf_roof_n_planes"@)
            matches Some(n) ==> i32::MIN <= n <= i32::MAX ==> roof.n_planes == Some(n as i32),
        crate::geoparquet_writer::attributes::text_in(attributes@, "rf_roof_type"@) matches Some(
            text,
        ) ==> (roof.roof_type matches Some(s) && s@ == text),
        crate::geoparquet_writer::attributes::flag_in(attributes@, "rf_is_glass_roof"@) == Some(
            true,
        ) ==> roof.is_glass,
        0 <= i < surfaces.len() && surfaces[i].surface_type@ == "RoofSurface"@
            && crate::geoparquet_writer::attributes::flag_in(
            surfaces[i].attributes@,
            "rf_is_glass_roof"@,
        ) == Some(true) ==> roof.is_glass,
        roof.is_glass ==> crate::geoparquet_writer::attributes::flag_in(
            attributes@,
            "rf_is_glass_roof"@,
        ) == Some(true) || exists|k: int|
            {
                &&& 0 <= k < surfaces.len()
                &&& (#[trigger] surfaces[k]).surface_type@ == "RoofSurface"@
                &&& crate::geoparquet_writer::attributes::flag_in(
                    surfaces[k].attributes@,
                    "rf_is_glass_roof"@,
                ) == Some(true)
            },
{
    match crate::geoparquet_writer::attributes::whole_in(attributes@, "rf_roof_n_planes"@) {
        Some(n) => law_low_bits(n),
        None => {},
    }
}

/// The surfaces that tell of the roof are those of the most detailed geometry
/// that has one.
pub proof fn law_roof_is_told_by_the_most_detailed(
    object: ExtendedCityObject,
    surfaces: Seq<SemanticSurface>,
    i: int,
)
    requires
        is_roof_source(object, surfaces),
        object.geometry matches Some(geometries) && 0 <= i < geometries@.len()
            && crate::geoparquet_writer::feature::rank(geometries@[i].lod@) <= 2 && (forall|k: int|
            0 <= k < geometries@.len() && k != i
                ==> crate::geoparquet_writer::feature::rank((#[trigger] geometries@[k]).lod@)
                > crate::geoparquet_writer::feature::rank(geometries@[i].lod@)),
    ensures
        object.geometry->0@[i].semantics matches Some(semantics) ==> (semantics.surfaces
            matches Some(list) ==> surfaces == list@),
        object.geometry->0@[i].semantics is None ==> surfaces.len() == 0,
{
    let geometries = object.geometry->0@;
    assert forall|k: int| #[trigger]
        crate::geoparquet_writer::feature::is_detailed(geometries, k) implies k == i by {
        crate::geoparquet_writer::feature::law_most_detailed_roof_is_taken(geometries, k);
        assert(crate::geoparquet_writer::feature::rank(geometries[k].lod@)
            <= crate::geoparquet_writer::feature::rank(geometries[i].lod@));
    }
    assert(!crate::geoparquet_writer::feature::none_detailed(geometries)) by {
        if crate::geoparquet_writer::feature::none_detailed(geometries) {
            assert(geometries[i].lod@ != "2.2"@ && geometries[i].lod@ != "1.3"@
                && geometries[i].lod@ != "1.2"@);
        }
    }
}

} // verus!

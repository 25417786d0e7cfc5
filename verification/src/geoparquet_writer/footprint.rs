//! The footprint of a city object.

use crate::float_bits::{
    eq_f64, lt_f64, max_f64, min_f64, F64_INFINITY, F64_NEG_INFINITY,
};
use crate::geoparquet_writer::feature::{find_ground, ExtendedCityObject, SemanticSurface};
use crate::json::Json;
use crate::text::same_text;
use serde_json::Value;
use vstd::prelude::*;

verus! {

/// Why an object has no footprint.
#[derive(Clone, Copy, Debug, PartialEq, Eq, Structural)]
pub enum FootprintError {
    /// It has no geometry.
    NoGeometry,
    /// None of its geometries can be used.
    NoUsableGeometry,
    /// The boundaries are not lists of rings.
    BadBoundaries,
    /// No surface has a vertex that exists.
    NoValidSurface,
    /// There is no surface of this number.
    OutOfBounds { index: usize, len: usize },
    /// The surface of this number has no ring.
    NoRings(usize),
    /// Only so many vertices of the ring exist.
    TooFewPoints(usize),
}

// -------------------------------------------------------------- boundaries

/// A vertex number in a document.
pub open spec fn index_json(doc: Json) -> Option<usize> {
    match doc {
        Json::Int(n) => if 0 <= n <= usize::MAX {
            Some(n as usize)
        } else {
            None
        },
        _ => None,
    }
}

/// A ring in a document: an array of vertex numbers.
pub open spec fn ring_json(doc: Json) -> Option<Seq<usize>> {
    match doc {
        Json::Arr(items) => if forall|i: int|
            0 <= i < items.len() ==> index_json(#[trigger] items[i]) is Some {
            Some(Seq::new(items.len(), |i: int| index_json(items[i])->0))
        } else {
            None
        },
        _ => None,
    }
}

/// A surface in a document: an array of rings.
pub open spec fn surface_json(doc: Json) -> Option<Seq<Seq<usize>>> {
    match doc {
        Json::Arr(items) => if forall|i: int|
            0 <= i < items.len() ==> ring_json(#[trigger] items[i]) is Some {
            Some(Seq::new(items.len(), |i: int| ring_json(items[i])->0))
        } else {
            None
        },
        _ => None,
    }
}

/// Surfaces in a document: an array of surfaces.
pub open spec fn boundaries_json(doc: Json) -> Option<Seq<Seq<Seq<usize>>>> {
    match doc {
        Json::Arr(items) => if forall|i: int|
            0 <= i < items.len() ==> surface_json(#[trigger] items[i]) is Some {
            Some(Seq::new(items.len(), |i: int| surface_json(items[i])->0))
        } else {
            None
        },
        _ => None,
    }
}

/// The rings of a surface as sequences.
pub open spec fn rings_of(surface: Seq<Vec<usize>>) -> Seq<Seq<usize>> {
    Seq::new(surface.len(), |i: int| surface[i]@)
}

/// The rings of surfaces as sequences.
pub open spec fn surfaces_of(boundaries: Seq<Vec<Vec<usize>>>) -> Seq<Seq<Seq<usize>>> {
    Seq::new(boundaries.len(), |i: int| rings_of(boundaries[i]@))
}

/// Calls `serde_json::from_value` for lists of lists of lists of numbers.
/// Claims that it reads arrays of arrays of arrays of whole numbers that fit,
/// and nothing else.
#[verifier::external_body]
fn read_boundaries(value: &Value) -> (r: Option<Vec<Vec<Vec<usize>>>>)
    ensures
        match r {
            Some(boundaries) => boundaries_json(crate::json::json_of(*value)) == Some(
                surfaces_of(boundaries@),
            ),
            None => boundaries_json(crate::json::json_of(*value)) is None,
        },
{
    serde_json::from_value(value.clone()).ok()
}

// ----------------------------------------------------------------- surfaces

/// The numbers of the ground surfaces.
pub open spec fn ground_numbers(surfaces: Seq<SemanticSurface>) -> Seq<usize>
    decreases surfaces.len(),
{
    if surfaces.len() == 0 {
        Seq::empty()
    } else if surfaces.last().surface_type@ == "GroundSurface"@ {
        ground_numbers(surfaces.drop_last()).push((surfaces.len() - 1) as usize)
    } else {
        ground_numbers(surfaces.drop_last())
    }
}

/// The ground surfaces, which a geometry offers as footprint. Where there are
/// none, the lowest surface is taken.
pub fn ground_indices(surfaces: &[SemanticSurface]) -> (r: Vec<usize>)
    ensures
        r@ == ground_numbers(surfaces@),
{
    let mut r: Vec<usize> = Vec::new();
    let n: usize = surfaces.len();
    let mut i: usize = 0;
    while i < n
        invariant
            i <= n,
            n == surfaces@.len(),
            r@ == ground_numbers(surfaces@.take(i as int)),
        decreases n - i,
    {
        proof {
            assert(surfaces@.take(i + 1).drop_last() =~= surfaces@.take(i as int));
        }
        if same_text(surfaces[i].surface_type.as_str(), "GroundSurface") {
            r.push(i);
        }
        i += 1;
    }
    assert(surfaces@.take(n as int) =~= surfaces@);
    r
}

/// The surfaces of the geometry with the footprint.
pub struct FootprintPlan {
    pub boundaries: Vec<Vec<Vec<usize>>>,
    /// The surfaces that the semantics offer.
    pub offered: Vec<usize>,
}

/// What the semantics of a geometry offer.
pub open spec fn offered_by(
    semantics: Option<crate::geoparquet_writer::feature::Semantics>,
) -> Seq<usize> {
    match semantics {
        Some(s) => match s.surfaces {
            Some(surfaces) => ground_numbers(surfaces@),
            None => Seq::empty(),
        },
        None => Seq::empty(),
    }
}

/// Looks for the geometry with the footprint.
pub fn plan_footprint(object: &ExtendedCityObject) -> (r: Result<FootprintPlan, FootprintError>)
    ensures
        match object.geometry {
            None => r == Err::<FootprintPlan, FootprintError>(FootprintError::NoGeometry),
            Some(geometries) => {
                ||| crate::geoparquet_writer::feature::no_ground(geometries@) && r == Err::<
                    FootprintPlan,
                    FootprintError,
                >(FootprintError::NoUsableGeometry)
                ||| exists|i: int| #[trigger]
                    crate::geoparquet_writer::feature::is_ground(geometries@, i) && {
                        let doc = crate::json::json_of(geometries@[i].boundaries);
                        match r {
                            Ok(plan) => {
                                &&& boundaries_json(doc) == Some(surfaces_of(plan.boundaries@))
                                &&& plan.offered@ == offered_by(geometries@[i].semantics)
                            },
                            Err(e) => boundaries_json(doc) is None && e
                                == FootprintError::BadBoundaries,
                        }
                    }
            },
        },
{
    let geometries = match &object.geometry {
        None => {
            return Err(FootprintError::NoGeometry);
        },
        Some(geometries) => geometries,
    };
    let i: usize = match find_ground(geometries.as_slice()) {
        None => {
            return Err(FootprintError::NoUsableGeometry);
        },
        Some(i) => i,
    };
    assert(crate::geoparquet_writer::feature::is_ground(geometries@, i as int));
    let geometry = &geometries[i];
    let offered: Vec<usize> = match &geometry.semantics {
        Some(semantics) => match &semantics.surfaces {
            Some(surfaces) => ground_indices(surfaces.as_slice()),
            None => Vec::new(),
        },
        None => Vec::new(),
    };
    match read_boundaries(&geometry.boundaries) {
        Some(boundaries) => Ok(FootprintPlan { boundaries, offered }),
        None => Err(FootprintError::BadBoundaries),
    }
}

/// The vertices of a ring that exist.
pub open spec fn existing(ring: Seq<usize>, count: int) -> Seq<usize>
    decreases ring.len(),
{
    if ring.len() == 0 {
        Seq::empty()
    } else if ring.last() < count {
        existing(ring.drop_last(), count).push(ring.last())
    } else {
        existing(ring.drop_last(), count)
    }
}

/// The vertices of a ring that exist.
pub fn existing_vertices(ring: &[usize], count: usize) -> (r: Vec<usize>)
    ensures
        r@ == existing(ring@, count as int),
        forall|i: int| 0 <= i < r@.len() ==> #[trigger] r@[i] < count,
{
    let mut r: Vec<usize> = Vec::new();
    let n: usize = ring.len();
    let mut i: usize = 0;
    while i < n
        invariant
            i <= n,
            n == ring@.len(),
            r@ == existing(ring@.take(i as int), count as int),
            forall|k: int| 0 <= k < r@.len() ==> #[trigger] r@[k] < count,
        decreases n - i,
    {
        proof {
            assert(ring@.take(i + 1).drop_last() =~= ring@.take(i as int));
        }
        if ring[i] < count {
            r.push(ring[i]);
        }
        i += 1;
    }
    assert(ring@.take(n as int) =~= ring@);
    r
}

/// The lowest surface: the first of those with the smallest average height.
/// Surfaces without vertices do not count.
pub open spec fn is_lowest(heights: Seq<Option<u64>>, i: int) -> bool {
    &&& 0 <= i < heights.len()
    &&& heights[i] is Some
    &&& forall|k: int|
        0 <= k < heights.len() && (#[trigger] heights[k]) is Some
            ==> !crate::float_bits::f64_lt(heights[k]->0, heights[i]->0)
    &&& forall|k: int|
        0 <= k < i && (#[trigger] heights[k]) is Some ==> crate::float_bits::f64_lt(
            heights[i]->0,
            heights[k]->0,
        )
}

/// Whether all heights are numbers.
pub open spec fn heights_are_numbers(heights: Seq<Option<u64>>) -> bool {
    forall|k: int|
        0 <= k < heights.len() && (#[trigger] heights[k]) is Some
            ==> !crate::float_bits::f64_is_nan(heights[k]->0)
}

/// Whether no height is a number.
pub open spec fn no_height_is_number(heights: Seq<Option<u64>>) -> bool {
    forall|k: int|
        0 <= k < heights.len() && (#[trigger] heights[k]) is Some
            ==> crate::float_bits::f64_is_nan(heights[k]->0)
}

/// Whether the heights have an order: all are numbers, or none is, and then
/// they are alike.
pub open spec fn heights_have_order(heights: Seq<Option<u64>>) -> bool {
    heights_are_numbers(heights) || no_height_is_number(heights)
}

/// The lowest surface, by the average heights of the surfaces: doubles, by
/// their bits.
pub fn lowest_surface(heights: &[Option<u64>]) -> (r: Option<usize>)
    requires
        heights_have_order(heights@),
    ensures
        match r {
            Some(i) => is_lowest(heights@, i as int),
            None => forall|k: int| 0 <= k < heights@.len() ==> (#[trigger] heights@[k]) is None,
        },
{
    let mut best: Option<usize> = None;
    let n: usize = heights.len();
    let mut i: usize = 0;
    while i < n
        invariant
            i <= n,
            n == heights@.len(),
            heights_have_order(heights@),
            match best {
                Some(b) => b < i && is_lowest(heights@.take(i as int), b as int),
                None => forall|k: int| 0 <= k < i ==> (#[trigger] heights@[k]) is None,
            },
        decreases n - i,
    {
        let ghost before = heights@.take(i as int);
        let ghost now = heights@.take(i + 1);
        let ghost old_best = best;
        match heights[i] {
            Some(height) => {
                let lower = match best {
                    Some(b) => match heights[b] {
                        Some(other) => lt_f64(height, other),
                        None => false,
                    },
                    None => true,
                };
                if lower {
                    best = Some(i);
                }
            },
            None => {},
        }
        proof {
            assert forall|k: int| 0 <= k < now.len() implies now[k] == heights@[k] by {}
            assert forall|k: int| 0 <= k < before.len() implies before[k] == heights@[k] by {}
            match best {
                Some(b) => {
                    assert(heights@[b as int] is Some);
                    match old_best {
                        Some(ob) => {
                            assert(before[ob as int] == heights@[ob as int]);
                            assert(heights@[ob as int] is Some);
                        },
                        None => {},
                    }
                    assert forall|k: int| 0 <= k < now.len() && (#[trigger] now[k]) is Some
                        implies !crate::float_bits::f64_lt(now[k]->0, now[b as int]->0) by {
                        assert(heights@[k] is Some);
                        if k < i {
                            assert(before[k] is Some);
                        }
                    }
                    assert forall|k: int| 0 <= k < b && (#[trigger] now[k]) is Some
                        implies crate::float_bits::f64_lt(now[b as int]->0, now[k]->0) by {
                        assert(heights@[k] is Some);
                        if k < i {
                            assert(before[k] is Some);
                        }
                    }
                },
                None => {},
            }
        }
        i += 1;
    }
    assert(heights@.take(n as int) =~= heights@);
    best
}

/// Chooses the surface of the footprint: the first that is offered, else the
/// lowest.
pub fn choose_surface(offered: &[usize], heights: &[Option<u64>]) -> (r: Result<
    usize,
    FootprintError,
>)
    requires
        offered@.len() == 0 ==> heights_have_order(heights@),
    ensures
        if offered@.len() > 0 {
            r == Ok::<usize, FootprintError>(offered@[0])
        } else {
            match r {
                Ok(i) => is_lowest(heights@, i as int),
                Err(e) => e == FootprintError::NoValidSurface && forall|k: int|
                    0 <= k < heights@.len() ==> (#[trigger] heights@[k]) is None,
            }
        },
{
    if offered.len() > 0 {
        return Ok(offered[0]);
    }
    match lowest_surface(heights) {
        Some(i) => Ok(i),
        None => Err(FootprintError::NoValidSurface),
    }
}

/// The exterior ring of a surface, with the vertices that exist: `count` is
/// their number in the feature.
pub open spec fn exterior_of(boundaries: Seq<Seq<Seq<usize>>>, index: usize, count: int) -> Result<
    Seq<usize>,
    FootprintError,
> {
    if index >= boundaries.len() {
        Err(FootprintError::OutOfBounds { index, len: boundaries.len() as usize })
    } else if boundaries[index as int].len() == 0 {
        Err(FootprintError::NoRings(index))
    } else {
        let ring = existing(boundaries[index as int][0], count);
        if ring.len() < 3 {
            Err(FootprintError::TooFewPoints(ring.len() as usize))
        } else {
            Ok(ring)
        }
    }
}

/// The exterior ring of a surface.
pub fn exterior_ring(boundaries: &[Vec<Vec<usize>>], index: usize, count: usize) -> (r: Result<
    Vec<usize>,
    FootprintError,
>)
    ensures
        match r {
            Ok(ring) => exterior_of(surfaces_of(boundaries@), index, count as int) == Ok::<
                Seq<usize>,
                FootprintError,
            >(ring@),
            Err(e) => exterior_of(surfaces_of(boundaries@), index, count as int) == Err::<
                Seq<usize>,
                FootprintError,
            >(e),
        },
{
    if index >= boundaries.len() {
        return Err(FootprintError::OutOfBounds { index, len: boundaries.len() });
    }
    if boundaries[index].len() == 0 {
        return Err(FootprintError::NoRings(index));
    }
    let ring = existing_vertices(boundaries[index][0].as_slice(), count);
    if ring.len() < 3 {
        Err(FootprintError::TooFewPoints(ring.len()))
    } else {
        Ok(ring)
    }
}

/// Whether the ring of a footprint, or the reason why there is none, follows
/// from the surfaces of a geometry, those that are offered and the heights of
/// all.
pub open spec fn is_footprint(
    boundaries: Seq<Seq<Seq<usize>>>,
    offered: Seq<usize>,
    heights: Seq<Option<u64>>,
    count: int,
    result: Result<Seq<usize>, FootprintError>,
) -> bool {
    if offered.len() > 0 {
        result == exterior_of(boundaries, offered[0], count)
    } else {
        ||| exists|i: int| #[trigger]
            is_lowest(heights, i) && result == exterior_of(boundaries, i as usize, count)
        ||| result == Err::<Seq<usize>, FootprintError>(FootprintError::NoValidSurface)
            && forall|k: int| 0 <= k < heights.len() ==> (#[trigger] heights[k]) is None
    }
}

/// The ring of the footprint: vertices of the feature, of which there are
/// `count`.
pub fn footprint_ring(plan: &FootprintPlan, heights: &[Option<u64>], count: usize) -> (r: Result<
    Vec<usize>,
    FootprintError,
>)
    requires
        plan.offered@.len() == 0 ==> heights_have_order(heights@),
    ensures
        is_footprint(
            surfaces_of(plan.boundaries@),
            plan.offered@,
            heights@,
            count as int,
            match r {
                Ok(ring) => Ok(ring@),
                Err(e) => Err(e),
            },
        ),
{
    match choose_surface(plan.offered.as_slice(), heights) {
        Ok(index) => exterior_ring(plan.boundaries.as_slice(), index, count),
        Err(e) => Err(e),
    }
}

// ------------------------------------------------------------------ outlines

/// A point seen from above: doubles, by their bits.
#[derive(Clone, Copy, Debug, PartialEq, Eq, Structural)]
pub struct Point2 {
    pub x: u64,
    pub y: u64,
}

/// Whether two points have the same coordinates.
pub open spec fn same_place(a: Point2, b: Point2) -> bool {
    crate::float_bits::f64_eq(a.x, b.x) && crate::float_bits::f64_eq(a.y, b.y)
}

/// A ring that ends where it begins.
pub open spec fn closed_ring(points: Seq<Point2>) -> Seq<Point2> {
    if points.len() == 0 || same_place(points[0], points.last()) {
        points
    } else {
        points.push(points[0])
    }
}

/// Closes a ring, if it is not closed.
pub fn close_ring(mut points: Vec<Point2>) -> (r: Vec<Point2>)
    ensures
        r@ == closed_ring(points@),
{
    let n: usize = points.len();
    if n == 0 {
        return points;
    }
    let first = points[0];
    let last = points[n - 1];
    if !(eq_f64(first.x, last.x) && eq_f64(first.y, last.y)) {
        points.push(first);
    }
    points
}

/// A closed ring of numbers ends where it begins, and closing it again changes
/// nothing.
pub proof fn law_closing_closes(points: Seq<Point2>)
    requires
        points.len() > 0,
        !crate::float_bits::f64_is_nan(points[0].x),
        !crate::float_bits::f64_is_nan(points[0].y),
    ensures
        same_place(closed_ring(points)[0], closed_ring(points).last()),
        closed_ring(closed_ring(points)) == closed_ring(points),
        points.is_prefix_of(closed_ring(points)),
{
    assert(points =~= closed_ring(points).take(points.len() as int));
}

/// The reach of a footprint.
#[derive(Clone, Copy, Debug, PartialEq, Eq, Structural)]
pub struct Bbox {
    pub min_x: u64,
    pub min_y: u64,
    pub min_z: u64,
    pub max_x: u64,
    pub max_y: u64,
    pub max_z: u64,
}

/// The smallest of some doubles; infinity where there is none.
pub open spec fn least(s: Seq<u64>) -> u64
    decreases s.len(),
{
    if s.len() == 0 {
        F64_INFINITY
    } else {
        crate::float_bits::f64_min(least(s.drop_last()), s.last())
    }
}

/// The largest of some doubles; minus infinity where there is none.
pub open spec fn greatest(s: Seq<u64>) -> u64
    decreases s.len(),
{
    if s.len() == 0 {
        F64_NEG_INFINITY
    } else {
        crate::float_bits::f64_max(greatest(s.drop_last()), s.last())
    }
}

fn reach(s: &[u64]) -> (r: (u64, u64))
    ensures
        r.0 == least(s@),
        r.1 == greatest(s@),
{
    let mut low: u64 = F64_INFINITY;
    let mut high: u64 = F64_NEG_INFINITY;
    let n: usize = s.len();
    let mut i: usize = 0;
    while i < n
        invariant
            i <= n,
            n == s@.len(),
            low == least(s@.take(i as int)),
            high == greatest(s@.take(i as int)),
        decreases n - i,
    {
        proof {
            assert(s@.take(i + 1).drop_last() =~= s@.take(i as int));
        }
        low = min_f64(low, s[i]);
        high = max_f64(high, s[i]);
        i += 1;
    }
    assert(s@.take(n as int) =~= s@);
    (low, high)
}

/// The reach of an outline, whose vertices have the given heights.
pub fn footprint_bbox(points: &[Point2], heights: &[u64]) -> (r: Bbox)
    ensures
        r.min_x == least(Seq::new(points@.len(), |i: int| points@[i].x)),
        r.min_y == least(Seq::new(points@.len(), |i: int| points@[i].y)),
        r.min_z == least(heights@),
        r.max_x == greatest(Seq::new(points@.len(), |i: int| points@[i].x)),
        r.max_y == greatest(Seq::new(points@.len(), |i: int| points@[i].y)),
        r.max_z == greatest(heights@),
        forall|i: int|
            0 <= i < points@.len() ==> {
                &&& !crate::float_bits::f64_lt((#[trigger] points@[i]).x, r.min_x)
                &&& !crate::float_bits::f64_lt(r.max_x, points@[i].x)
                &&& !crate::float_bits::f64_lt(points@[i].y, r.min_y)
                &&& !crate::float_bits::f64_lt(r.max_y, points@[i].y)
            },
        forall|i: int|
            0 <= i < heights@.len() ==> !crate::float_bits::f64_lt(#[trigger] heights@[i], r.min_z)
                && !crate::float_bits::f64_lt(r.max_z, heights@[i]),
{
    let mut xs: Vec<u64> = Vec::new();
    let mut ys: Vec<u64> = Vec::new();
    let n: usize = points.len();
    let mut i: usize = 0;
    while i < n
        invariant
            i <= n,
            n == points@.len(),
            xs@ =~= Seq::new(i as nat, |k: int| points@[k].x),
            ys@ =~= Seq::new(i as nat, |k: int| points@[k].y),
        decreases n - i,
    {
        xs.push(points[i].x);
        ys.push(points[i].y);
        i += 1;
    }
    let (min_x, max_x) = reach(xs.as_slice());
    let (min_y, max_y) = reach(ys.as_slice());
    let (min_z, max_z) = reach(heights);
    proof {
        law_reach_of_a_list(xs@);
        law_reach_of_a_list(ys@);
        law_reach_of_a_list(heights@);
        assert forall|i: int| 0 <= i < points@.len() implies xs@[i] == (#[trigger] points@[i]).x
            && ys@[i] == points@[i].y by {}
    }
    Bbox { min_x, min_y, min_z, max_x, max_y, max_z }
}

// -------------------------------------------------------------------- laws

/// The numbers of the ground surfaces are those of all surfaces of that type, and
/// of no others, in rising order.
pub proof fn law_ground_surfaces_are_numbered(surfaces: Seq<SemanticSurface>)
    requires
        surfaces.len() <= usize::MAX,
    ensures
        forall|i: int|
            0 <= i < surfaces.len() ==> (ground_numbers(surfaces).contains(i as usize) <==> (#[trigger] surfaces[i]).surface_type@ == "GroundSurface"@),
        forall|k: int|
            0 <= k < ground_numbers(surfaces).len() ==> 0 <= #[trigger] ground_numbers(surfaces)[k] < surfaces.len(),
        forall|j: int, k: int|
            0 <= j < k < ground_numbers(surfaces).len() ==> #[trigger] ground_numbers(surfaces)[j] < #[trigger] ground_numbers(surfaces)[k],
    decreases surfaces.len(),
{
    if surfaces.len() > 0 {
        let head = surfaces.drop_last();
        let before = ground_numbers(head);
        let all = ground_numbers(surfaces);
        let last = (surfaces.len() - 1) as usize;
        law_ground_surfaces_are_numbered(head);
        assert(!before.contains(last)) by {
            if before.contains(last) {
                let k = choose|k: int| 0 <= k < before.len() && before[k] == last;
                assert(before[k] < head.len());
            }
        }
        assert forall|i: int| 0 <= i < surfaces.len() implies (all.contains(i as usize) <==> (#[trigger] surfaces[i]).surface_type@ == "GroundSurface"@) by {
            vstd::seq_lib::lemma_seq_contains_after_push(before, last, i as usize);
            if i < head.len() {
                assert(head[i] == surfaces[i]);
            } else {
                assert(surfaces[i] == surfaces.last());
            }
        }
    }
}

/// What exists of one ring after another is what exists of the one and then of the
/// other; a single vertex exists if its number is below the count.
pub proof fn law_vertices_that_exist(a: Seq<usize>, b: Seq<usize>, one: usize, count: int)
    ensures
        existing(a + b, count) == existing(a, count) + existing(b, count),
        one < count ==> existing(seq![one], count) == seq![one],
        one >= count ==> existing(seq![one], count) == Seq::<usize>::empty(),
    decreases b.len(),
{
    let none = Seq::<usize>::empty();
    assert(seq![one].drop_last() =~= none);
    assert(seq![one].last() == one);
    assert(existing(none, count) =~= none);
    assert(none.push(one) =~= seq![one]);
    if b.len() == 0 {
        assert(a + b =~= a);
        assert(existing(a, count) + existing(b, count) =~= existing(a, count));
    } else {
        law_vertices_that_exist(a, b.drop_last(), one, count);
        assert((a + b).drop_last() =~= a + b.drop_last());
        assert((a + b).last() == b.last());
        assert(existing(a, count) + existing(b.drop_last(), count).push(b.last()) =~= (existing(
            a,
            count,
        ) + existing(b.drop_last(), count)).push(b.last()));
    }
}

/// A ring whose vertices all exist is taken as it is.
proof fn lemma_all_exist(ring: Seq<usize>, count: int)
    requires
        forall|i: int| 0 <= i < ring.len() ==> #[trigger] ring[i] < count,
    ensures
        existing(ring, count) == ring,
    decreases ring.len(),
{
    if ring.len() > 0 {
        assert forall|i: int| 0 <= i < ring.drop_last().len() implies #[trigger] ring.drop_last()[i]
            < count by {
            assert(ring.drop_last()[i] == ring[i]);
        }
        assert(ring[ring.len() - 1] < count);
        lemma_all_exist(ring.drop_last(), count);
        assert(ring.drop_last().push(ring.last()) =~= ring);
    }
}

/// The exterior of a surface is its first ring, whatever rings follow it; it
/// takes three vertices. Without that surface or without a ring in it there is
/// none.
pub proof fn law_exterior_is_the_first_ring(
    before: Seq<Seq<Seq<usize>>>,
    ring: Seq<usize>,
    holes: Seq<Seq<usize>>,
    after: Seq<Seq<Seq<usize>>>,
    count: int,
)
    requires
        before.len() <= usize::MAX,
        forall|i: int| 0 <= i < ring.len() ==> #[trigger] ring[i] < count,
    ensures
        ring.len() >= 3 ==> exterior_of(
            before + seq![seq![ring] + holes] + after,
            before.len() as usize,
            count,
        ) == Ok::<Seq<usize>, FootprintError>(ring),
        ring.len() < 3 ==> exterior_of(
            before + seq![seq![ring] + holes] + after,
            before.len() as usize,
            count,
        ) == Err::<Seq<usize>, FootprintError>(FootprintError::TooFewPoints(ring.len() as usize)),
        exterior_of(before + seq![Seq::empty()] + after, before.len() as usize, count) == Err::<
            Seq<usize>,
            FootprintError,
        >(FootprintError::NoRings(before.len() as usize)),
        exterior_of(before, before.len() as usize, count) == Err::<Seq<usize>, FootprintError>(
            FootprintError::OutOfBounds {
                index: before.len() as usize,
                len: before.len() as usize,
            },
        ),
{
    lemma_all_exist(ring, count);
    let n = before.len() as int;
    assert((before + seq![seq![ring] + holes] + after)[n] == seq![ring] + holes);
    assert((seq![ring] + holes)[0] == ring);
    assert((before + seq![Seq::<Seq<usize>>::empty()] + after)[n] == Seq::<Seq<usize>>::empty());
}

/// A further surface becomes the lowest if and only if it is lower than the
/// lowest before; one without a height never does.
pub proof fn law_later_surfaces_must_be_lower(heights: Seq<Option<u64>>, i: int, height: u64)
    requires
        is_lowest(heights, i),
        !crate::float_bits::f64_is_nan(height),
        heights_are_numbers(heights),
    ensures
        is_lowest(heights.push(None), i),
        is_lowest(heights.push(Some(height)), i) <==> !crate::float_bits::f64_lt(
            height,
            heights[i]->0,
        ),
        is_lowest(heights.push(Some(height)), heights.len() as int)
            <==> crate::float_bits::f64_lt(height, heights[i]->0),
{
    let n = heights.len() as int;
    let with = heights.push(Some(height));
    let without = heights.push(None);
    assert forall|k: int| 0 <= k < n implies with[k] == heights[k] && without[k] == heights[k] by {}
    assert(with[n] == Some(height));
    assert(heights[i] is Some);
    assert forall|k: int| 0 <= k < n && (#[trigger] heights[k]) is Some
        implies !crate::float_bits::f64_lt(heights[k]->0, heights[i]->0)
        && !crate::float_bits::f64_is_nan(heights[k]->0) by {}
    if crate::float_bits::f64_lt(height, heights[i]->0) {
        assert(!is_lowest(with, i)) by {
            assert(with[n] is Some);
        }
        assert forall|k: int| 0 <= k < with.len() && (#[trigger] with[k]) is Some
            implies !crate::float_bits::f64_lt(with[k]->0, with[n]->0) && (k < n
            ==> crate::float_bits::f64_lt(with[n]->0, with[k]->0)) by {
            if k < n {
                assert(heights[k] is Some);
            }
        }
    } else {
        assert(!is_lowest(with, n)) by {
            assert(with[i] is Some);
        }
        assert forall|k: int| 0 <= k < with.len() && (#[trigger] with[k]) is Some
            implies !crate::float_bits::f64_lt(with[k]->0, with[i]->0) by {
            if k < n {
                assert(heights[k] is Some);
            }
        }
        assert forall|k: int| 0 <= k < i && (#[trigger] with[k]) is Some
            implies crate::float_bits::f64_lt(with[i]->0, with[k]->0) by {
            assert(heights[k] is Some);
        }
    }
    assert forall|k: int| 0 <= k < without.len() && (#[trigger] without[k]) is Some
        implies !crate::float_bits::f64_lt(without[k]->0, without[i]->0) by {
        if k < n {
            assert(heights[k] is Some);
        }
    }
    assert forall|k: int| 0 <= k < i && (#[trigger] without[k]) is Some
        implies crate::float_bits::f64_lt(without[i]->0, without[k]->0) by {
        assert(heights[k] is Some);
    }
}

/// A ring that ends where it begins, in both coordinates, is left as it is; any
/// other gets its first point once more at its end.
pub proof fn law_rings_are_closed(first: Point2, middle: Seq<Point2>, end: Point2)
    ensures
        crate::float_bits::f64_eq(first.x, end.x) && crate::float_bits::f64_eq(first.y, end.y)
            ==> closed_ring(seq![first] + middle + seq![end]) == seq![first] + middle + seq![end],
        !(crate::float_bits::f64_eq(first.x, end.x) && crate::float_bits::f64_eq(first.y, end.y))
            ==> closed_ring(seq![first] + middle + seq![end]) == seq![first] + middle + seq![
            end,
            first,
        ],
        closed_ring(Seq::empty()) == Seq::<Point2>::empty(),
{
    let ring = seq![first] + middle + seq![end];
    assert(ring[0] == first);
    assert(ring.last() == end);
    assert(ring.push(first) =~= seq![first] + middle + seq![end, first]);
}

/// The least number lies below all numbers of a list or is one of them, and the
/// greatest above all; each is one of them, or else the list has no number that
/// comes before infinity or after minus infinity. A NaN does not count.
pub proof fn law_reach_of_a_list(s: Seq<u64>)
    ensures
        forall|i: int|
            0 <= i < s.len() ==> !crate::float_bits::f64_lt(#[trigger] s[i], least(s))
                && !crate::float_bits::f64_lt(greatest(s), s[i]),
        s.contains(least(s)) || least(s) == 0x7ff0_0000_0000_0000,
        s.contains(greatest(s)) || greatest(s) == 0xfff0_0000_0000_0000,
        !crate::float_bits::f64_is_nan(least(s)),
        !crate::float_bits::f64_is_nan(greatest(s)),
    decreases s.len(),
{
    if s.len() > 0 {
        let head = s.drop_last();
        law_reach_of_a_list(head);
        assert(s[s.len() - 1] == s.last());
        if head.contains(least(head)) {
            let i = choose|i: int| 0 <= i < head.len() && head[i] == least(head);
            assert(s[i] == least(head));
        }
        if head.contains(greatest(head)) {
            let i = choose|i: int| 0 <= i < head.len() && head[i] == greatest(head);
            assert(s[i] == greatest(head));
        }
        assert forall|i: int| 0 <= i < s.len() implies !crate::float_bits::f64_lt(
            #[trigger] s[i],
            least(s),
        ) && !crate::float_bits::f64_lt(greatest(s), s[i]) by {
            if i < head.len() {
                assert(head[i] == s[i]);
            }
        }
    }
}

/// A geometry offers the surfaces that its semantics call ground, and none where
/// it has no semantics.
pub proof fn law_offered_surfaces(
    semantics: Option<crate::geoparquet_writer::feature::Semantics>,
    i: int,
)
    ensures
        semantics is None ==> offered_by(semantics).len() == 0,
        semantics matches Some(s) ==> (s.surfaces matches Some(list) ==> (0 <= i < list@.len()
            && list@.len() <= usize::MAX ==> (offered_by(semantics).contains(i as usize)
            <==> list@[i].surface_type@ == "GroundSurface"@))),
{
    match semantics {
        Some(s) => match s.surfaces {
            Some(list) => {
                assert(list.len() == list@.len());
                law_ground_surfaces_are_numbered(list@);
                if 0 <= i < list@.len() {
                    assert(list@[i] == list@[i]);
                }
            },
            None => {},
        },
        None => {},
    }
}

/// The footprint is the exterior of the first surface that is offered; else of
/// the lowest surface. There is none where no surface has a height.
pub proof fn law_footprint_is_ground_or_lowest(
    boundaries: Seq<Seq<Seq<usize>>>,
    offered: Seq<usize>,
    heights: Seq<Option<u64>>,
    count: int,
    result: Result<Seq<usize>, FootprintError>,
    i: int,
)
    requires
        is_footprint(boundaries, offered, heights, count, result),
        heights_are_numbers(heights),
        0 <= i < boundaries.len() <= usize::MAX,
        boundaries[i].len() > 0,
        boundaries[i][0].len() >= 3,
        forall|k: int| 0 <= k < boundaries[i][0].len() ==> #[trigger] boundaries[i][0][k] < count,
    ensures
        offered.len() > 0 && offered[0] == i ==> result == Ok::<Seq<usize>, FootprintError>(
            boundaries[i][0],
        ),
        offered.len() == 0 && is_lowest(heights, i) ==> result == Ok::<Seq<usize>, FootprintError>(
            boundaries[i][0],
        ),
        offered.len() == 0 && (forall|k: int|
            0 <= k < heights.len() ==> (#[trigger] heights[k]) is None) ==> result == Err::<
            Seq<usize>,
            FootprintError,
        >(FootprintError::NoValidSurface),
{
    lemma_all_exist(boundaries[i][0], count);
    if offered.len() == 0 {
        assert forall|k: int| #[trigger] is_lowest(heights, k) && is_lowest(heights, i) implies k
            == i by {
            assert(heights[k] is Some && heights[i] is Some);
        }
        if is_lowest(heights, i) {
            assert(heights[i] is Some);
        }
        if forall|k: int| 0 <= k < heights.len() ==> (#[trigger] heights[k]) is None {
            assert forall|k: int| !#[trigger] is_lowest(heights, k) by {
                if is_lowest(heights, k) {
                    assert(heights[k] is Some);
                }
            }
        }
    }
}

} // verus!

//! Trees: reading their meshes from well-known binary, and writing them as
//! CityJSON features.

use crate::bytes::{read_f64, read_u32};
use crate::json::{
    get_text, json_array, json_i64, json_object, json_one, json_str, json_u64, no_fields, put,
    read_json, write_json, Json,
};
use crate::text::{number_text, same_text};
use serde_json::Value;
use vstd::prelude::*;

verus! {

// --------------------------------------------------------- well-known binary

/// A point; its coordinates are doubles, by their bits.
#[derive(Clone, Copy, Debug, PartialEq, Eq, Structural)]
pub struct Point {
    pub x: u64,
    pub y: u64,
    pub z: u64,
}

/// What is wrong with a geometry.
#[derive(Clone, Copy, Debug, PartialEq, Eq, Structural)]
pub enum WkbError {
    /// It is too short to have a type; its length is given.
    TooShort(usize),
    /// It ends where the number of polygons or rings should stand.
    CountMissing,
    /// It ends where a further polygon should begin.
    TruncatedMultiPolygon,
    /// It ends where the number of points of a ring should stand.
    TruncatedCount,
    /// It ends within the points of a ring.
    TruncatedVertex,
    /// It is neither a polygon nor a multi-polygon.
    Unsupported { geom_type: u32, iso_type: u32 },
}

/// How many bytes a point takes up.
pub open spec fn point_size(has_z: bool) -> int {
    if has_z {
        24
    } else {
        16
    }
}

/// The point at `at`. Without a third coordinate that one is zero.
pub open spec fn point_at(s: Seq<u8>, at: int, le: bool, has_z: bool) -> Point {
    Point {
        x: crate::bytes::u64_at(s, at, le) as u64,
        y: crate::bytes::u64_at(s, at + 8, le) as u64,
        z: if has_z {
            crate::bytes::u64_at(s, at + 16, le) as u64
        } else {
            0
        },
    }
}

/// The ring at `at`, and where it ends: a count, then so many points.
pub open spec fn ring_at(s: Seq<u8>, at: int, le: bool, has_z: bool) -> Result<
    (Seq<Point>, int),
    WkbError,
> {
    let n = crate::bytes::u32_at(s, at, le);
    let end = at + 4 + n * point_size(has_z);
    if at + 4 > s.len() {
        Err(WkbError::TruncatedCount)
    } else if end > s.len() {
        Err(WkbError::TruncatedVertex)
    } else {
        Ok(
            (
                Seq::new(n, |i: int| point_at(s, at + 4 + i * point_size(has_z), le, has_z)),
                end,
            ),
        )
    }
}

/// The first `n` rings from `at` on, and where they end.
pub open spec fn rings_at(s: Seq<u8>, at: int, n: nat, le: bool, has_z: bool) -> Result<
    (Seq<Seq<Point>>, int),
    WkbError,
>
    decreases n,
{
    if n == 0 {
        Ok((Seq::empty(), at))
    } else {
        match rings_at(s, at, (n - 1) as nat, le, has_z) {
            Err(e) => Err(e),
            Ok((rings, next)) => match ring_at(s, next, le, has_z) {
                Err(e) => Err(e),
                Ok((ring, end)) => Ok((rings.push(ring), end)),
            },
        }
    }
}

/// The polygon at `at`, and where it ends: a count, then so many rings.
pub open spec fn polygon_at(s: Seq<u8>, at: int, le: bool, has_z: bool) -> Result<
    (Seq<Seq<Point>>, int),
    WkbError,
> {
    if at + 4 > s.len() {
        Err(WkbError::CountMissing)
    } else {
        rings_at(s, at + 4, crate::bytes::u32_at(s, at, le), le, has_z)
    }
}

/// The first `n` polygons of a multi-polygon from `at` on, and where they end.
/// Each has a header of its own, of which only the byte order counts.
pub open spec fn polygons_at(s: Seq<u8>, at: int, n: nat, has_z: bool) -> Result<
    (Seq<Seq<Seq<Point>>>, int),
    WkbError,
>
    decreases n,
{
    if n == 0 {
        Ok((Seq::empty(), at))
    } else {
        match polygons_at(s, at, (n - 1) as nat, has_z) {
            Err(e) => Err(e),
            Ok((polygons, next)) => if next + 5 > s.len() {
                Err(WkbError::TruncatedMultiPolygon)
            } else {
                match polygon_at(s, next + 5, s[next] == 1, has_z) {
                    Err(e) => Err(e),
                    Ok((polygon, end)) => Ok((polygons.push(polygon), end)),
                }
            },
        }
    }
}

/// The type of a geometry without the marks for a third coordinate.
pub open spec fn iso_type(geom_type: nat) -> nat {
    let base = geom_type % 0x1_0000;
    if base >= 1000 {
        (base - 1000) as nat
    } else {
        base
    }
}

/// Whether a geometry has a third coordinate: its type has the high bit set,
/// or is 1000 or more.
pub open spec fn type_has_z(geom_type: nat) -> bool {
    geom_type >= 0x8000_0000 || geom_type % 0x1_0000 >= 1000
}

/// The polygons of a geometry.
pub open spec fn wkb_polygons(s: Seq<u8>) -> Result<Seq<Seq<Seq<Point>>>, WkbError> {
    if s.len() < 5 {
        Err(WkbError::TooShort(s.len() as usize))
    } else {
        let le = s[0] == 1;
        let geom_type = crate::bytes::u32_at(s, 1, le);
        let iso = iso_type(geom_type);
        let has_z = type_has_z(geom_type);
        if iso == 3 {
            match polygon_at(s, 5, le, has_z) {
                Err(e) => Err(e),
                Ok((polygon, end)) => Ok(seq![polygon]),
            }
        } else if iso == 6 {
            if s.len() < 9 {
                Err(WkbError::CountMissing)
            } else {
                match polygons_at(s, 9, crate::bytes::u32_at(s, 5, le), has_z) {
                    Err(e) => Err(e),
                    Ok((polygons, end)) => Ok(polygons),
                }
            }
        } else {
            Err(WkbError::Unsupported { geom_type: geom_type as u32, iso_type: iso as u32 })
        }
    }
}

/// The points of rings.
pub open spec fn points_of(rings: Seq<Vec<Point>>) -> Seq<Seq<Point>> {
    Seq::new(rings.len(), |i: int| rings[i]@)
}

/// The points of polygons.
pub open spec fn rings_of(polygons: Seq<Vec<Vec<Point>>>) -> Seq<Seq<Seq<Point>>> {
    Seq::new(polygons.len(), |i: int| points_of(polygons[i]@))
}

/// What has failed for some rings fails for more.
proof fn lemma_rings_fail(s: Seq<u8>, at: int, k: nat, n: nat, le: bool, has_z: bool)
    requires
        k <= n,
        rings_at(s, at, k, le, has_z) is Err,
    ensures
        rings_at(s, at, n, le, has_z) == rings_at(s, at, k, le, has_z),
    decreases n,
{
    if k < n {
        lemma_rings_fail(s, at, k, (n - 1) as nat, le, has_z);
    }
}

/// What has failed for some polygons fails for more.
proof fn lemma_polygons_fail(s: Seq<u8>, at: int, k: nat, n: nat, has_z: bool)
    requires
        k <= n,
        polygons_at(s, at, k, has_z) is Err,
    ensures
        polygons_at(s, at, n, has_z) == polygons_at(s, at, k, has_z),
    decreases n,
{
    if k < n {
        lemma_polygons_fail(s, at, k, (n - 1) as nat, has_z);
    }
}

/// Reads the ring at `at`.
fn parse_ring(wkb: &[u8], at: usize, le: bool, has_z: bool) -> (r: Result<
    (Vec<Point>, usize),
    WkbError,
>)
    requires
        at <= wkb@.len(),
    ensures
        match r {
            Ok((ring, end)) => ring_at(wkb@, at as int, le, has_z) == Ok::<
                (Seq<Point>, int),
                WkbError,
            >((ring@, end as int)) && end <= wkb@.len(),
            Err(e) => ring_at(wkb@, at as int, le, has_z) == Err::<(Seq<Point>, int), WkbError>(e),
        },
{
    let len: usize = wkb.len();
    if len - at < 4 {
        return Err(WkbError::TruncatedCount);
    }
    let n: u32 = read_u32(wkb, at, le);
    let size: usize = if has_z {
        24
    } else {
        16
    };
    let mut ring: Vec<Point> = Vec::new();
    let mut offset: usize = at + 4;
    let mut i: u32 = 0;
    while i < n
        invariant
            len == wkb@.len(),
            at + 4 <= len,
            n == crate::bytes::u32_at(wkb@, at as int, le),
            size == point_size(has_z),
            i <= n,
            offset == at + 4 + i * size,
            offset <= len,
            ring@ =~= Seq::new(
                i as nat,
                |k: int| point_at(wkb@, at + 4 + k * point_size(has_z), le, has_z),
            ),
        decreases n - i,
    {
        if len - offset < size {
            proof {
                assert(n * size >= (i + 1) * size) by (nonlinear_arith)
                    requires
                        n >= i + 1,
                        size >= 0,
                ;
                assert((i + 1) * size == i * size + size) by (nonlinear_arith);
            }
            return Err(WkbError::TruncatedVertex);
        }
        assert(offset + size <= wkb.len());
        let x: u64 = read_f64(wkb, offset, le);
        let y: u64 = read_f64(wkb, offset + 8, le);
        let z: u64 = if has_z {
            read_f64(wkb, offset + 16, le)
        } else {
            0
        };
        ring.push(Point { x, y, z });
        proof {
            assert((i + 1) * size == i * size + size) by (nonlinear_arith);
        }
        offset += size;
        i += 1;
    }
    Ok((ring, offset))
}

/// Reads the polygon at `at`.
fn parse_polygon(wkb: &[u8], start: usize, le: bool, has_z: bool) -> (r: Result<
    (Vec<Vec<Point>>, usize),
    WkbError,
>)
    requires
        start <= wkb@.len(),
    ensures
        match r {
            Ok((polygon, end)) => polygon_at(wkb@, start as int, le, has_z) == Ok::<
                (Seq<Seq<Point>>, int),
                WkbError,
            >((points_of(polygon@), end as int)) && end <= wkb@.len(),
            Err(e) => polygon_at(wkb@, start as int, le, has_z) == Err::<
                (Seq<Seq<Point>>, int),
                WkbError,
            >(e),
        },
{
    let len: usize = wkb.len();
    if len - start < 4 {
        return Err(WkbError::CountMissing);
    }
    let num_rings: u32 = read_u32(wkb, start, le);
    let mut rings: Vec<Vec<Point>> = Vec::new();
    let mut offset: usize = start + 4;
    let mut i: u32 = 0;
    assert(points_of(rings@) =~= Seq::<Seq<Point>>::empty());
    while i < num_rings
        invariant
            len == wkb@.len(),
            offset <= len,
            i <= num_rings,
            rings_at(wkb@, start + 4, i as nat, le, has_z) == Ok::<
                (Seq<Seq<Point>>, int),
                WkbError,
            >((points_of(rings@), offset as int)),
            start + 4 <= len,
            num_rings == crate::bytes::u32_at(wkb@, start as int, le),
        decreases num_rings - i,
    {
        match parse_ring(wkb, offset, le, has_z) {
            Ok((ring, end)) => {
                let ghost before = points_of(rings@);
                rings.push(ring);
                assert(points_of(rings@) =~= before.push(ring@));
                offset = end;
            },
            Err(e) => {
                proof {
                    lemma_rings_fail(
                        wkb@,
                        start + 4,
                        (i + 1) as nat,
                        num_rings as nat,
                        le,
                        has_z,
                    );
                }
                return Err(e);
            },
        }
        i += 1;
    }
    Ok((rings, offset))
}

/// Reads the polygons of a geometry, which may have three coordinates or two.
pub fn parse_wkb_3d(wkb: &[u8]) -> (r: Result<Vec<Vec<Vec<Point>>>, WkbError>)
    ensures
        match r {
            Ok(polygons) => wkb_polygons(wkb@) == Ok::<Seq<Seq<Seq<Point>>>, WkbError>(
                rings_of(polygons@),
            ),
            Err(e) => wkb_polygons(wkb@) == Err::<Seq<Seq<Seq<Point>>>, WkbError>(e),
        },
{
    let len: usize = wkb.len();
    if len < 5 {
        return Err(WkbError::TooShort(len));
    }
    let le = wkb[0] == 1;
    let geom_type: u32 = read_u32(wkb, 1, le);
    let base_type: u32 = geom_type % 0x1_0000;
    let has_z = geom_type >= 0x8000_0000 || base_type >= 1000;
    let iso_type: u32 = if base_type >= 1000 {
        base_type - 1000
    } else {
        base_type
    };
    if iso_type == 3 {
        match parse_polygon(wkb, 5, le, has_z) {
            Ok((polygon, end)) => {
                let polygons: Vec<Vec<Vec<Point>>> = vec![polygon];
                assert(rings_of(polygons@) =~= seq![points_of(polygon@)]);
                Ok(polygons)
            },
            Err(e) => Err(e),
        }
    } else if iso_type == 6 {
        if len < 9 {
            return Err(WkbError::CountMissing);
        }
        let num_polygons: u32 = read_u32(wkb, 5, le);
        let mut polygons: Vec<Vec<Vec<Point>>> = Vec::new();
        let mut offset: usize = 9;
        let mut i: u32 = 0;
        assert(rings_of(polygons@) =~= Seq::<Seq<Seq<Point>>>::empty());
        while i < num_polygons
            invariant
                len == wkb@.len(),
                9 <= len,
                offset <= len,
                i <= num_polygons,
                le == (wkb@[0] == 1),
                geom_type == crate::bytes::u32_at(wkb@, 1, le),
                iso_type == crate::trees::iso_type(geom_type as nat),
                iso_type == 6,
                has_z == type_has_z(geom_type as nat),
                num_polygons == crate::bytes::u32_at(wkb@, 5, le),
                polygons_at(wkb@, 9, i as nat, has_z) == Ok::<
                    (Seq<Seq<Seq<Point>>>, int),
                    WkbError,
                >((rings_of(polygons@), offset as int)),
            decreases num_polygons - i,
        {
            if len - offset < 5 {
                proof {
                    lemma_polygons_fail(wkb@, 9, (i + 1) as nat, num_polygons as nat, has_z);
                }
                return Err(WkbError::TruncatedMultiPolygon);
            }
            let sub_le = wkb[offset] == 1;
            match parse_polygon(wkb, offset + 5, sub_le, has_z) {
                Ok((polygon, end)) => {
                    let ghost before = rings_of(polygons@);
                    polygons.push(polygon);
                    assert(rings_of(polygons@) =~= before.push(points_of(polygon@)));
                    offset = end;
                },
                Err(e) => {
                    proof {
                        lemma_polygons_fail(wkb@, 9, (i + 1) as nat, num_polygons as nat, has_z);
                    }
                    return Err(e);
                },
            }
            i += 1;
        }
        Ok(polygons)
    } else {
        Err(WkbError::Unsupported { geom_type, iso_type })
    }
}

// ------------------------------------------- laws of the well-known binary

/// A 32-bit number in a byte order.
pub open spec fn wkb_word(n: nat, le: bool) -> Seq<u8> {
    if le {
        crate::bytes::le_bytes(n, 4)
    } else {
        crate::bytes::le_bytes(n, 4).reverse()
    }
}

/// A double, by its bits, in a byte order.
pub open spec fn wkb_double(bits: u64, le: bool) -> Seq<u8> {
    if le {
        crate::bytes::le_bytes(bits as nat, 8)
    } else {
        crate::bytes::le_bytes(bits as nat, 8).reverse()
    }
}

/// Points as they are written: x, y and, where there is a third coordinate, z
/// of each, one after the other.
pub open spec fn wkb_points(points: Seq<Point>, le: bool, has_z: bool) -> Seq<u8>
    decreases points.len(),
{
    if points.len() == 0 {
        Seq::empty()
    } else {
        wkb_points(points.drop_last(), le, has_z) + wkb_double(points.last().x, le) + wkb_double(
            points.last().y,
            le,
        ) + (if has_z {
            wkb_double(points.last().z, le)
        } else {
            Seq::empty()
        })
    }
}

/// A ring as it is written: how many points it has, then the points.
pub open spec fn wkb_ring(ring: Seq<Point>, le: bool, has_z: bool) -> Seq<u8> {
    wkb_word(ring.len(), le) + wkb_points(ring, le, has_z)
}

/// Rings as they are written, one after the other.
pub open spec fn wkb_rings(rings: Seq<Seq<Point>>, le: bool, has_z: bool) -> Seq<u8>
    decreases rings.len(),
{
    if rings.len() == 0 {
        Seq::empty()
    } else {
        wkb_rings(rings.drop_last(), le, has_z) + wkb_ring(rings.last(), le, has_z)
    }
}

/// The beginning of a geometry: its byte order and its type.
pub open spec fn wkb_header(geom_type: nat, le: bool) -> Seq<u8> {
    seq![if le {
        1u8
    } else {
        0u8
    }] + wkb_word(geom_type, le)
}

/// A polygon as it is written: a header, how many rings it has, then the rings.
pub open spec fn wkb_polygon(
    rings: Seq<Seq<Point>>,
    geom_type: nat,
    le: bool,
    has_z: bool,
) -> Seq<u8> {
    wkb_header(geom_type, le) + wkb_word(rings.len(), le) + wkb_rings(rings, le, has_z)
}

/// Polygons as they are written, one after the other, each in a byte order of
/// its own.
pub open spec fn wkb_members(
    polygons: Seq<Seq<Seq<Point>>>,
    geom_type: nat,
    orders: Seq<bool>,
    has_z: bool,
) -> Seq<u8>
    decreases polygons.len(),
{
    if polygons.len() == 0 {
        Seq::empty()
    } else {
        wkb_members(polygons.drop_last(), geom_type, orders, has_z) + wkb_polygon(
            polygons.last(),
            geom_type,
            orders[polygons.len() - 1],
            has_z,
        )
    }
}

/// Whether the counts of rings and points fit, and points without a third
/// coordinate have none.
pub open spec fn can_be_written(rings: Seq<Seq<Point>>, has_z: bool) -> bool {
    &&& rings.len() <= u32::MAX
    &&& forall|i: int| 0 <= i < rings.len() ==> (#[trigger] rings[i]).len() <= u32::MAX
    &&& !has_z ==> forall|i: int, j: int|
        0 <= i < rings.len() && 0 <= j < rings[i].len() ==> (#[trigger] rings[i][j]).z == 0
}

/// Whether `part` stands in `s` at `at`.
pub open spec fn stands_at(s: Seq<u8>, at: int, part: Seq<u8>) -> bool {
    &&& 0 <= at
    &&& at + part.len() <= s.len()
    &&& s.subrange(at, at + part.len()) == part
}

proof fn lemma_stands_split(s: Seq<u8>, at: int, a: Seq<u8>, b: Seq<u8>)
    requires
        stands_at(s, at, a + b),
    ensures
        stands_at(s, at, a),
        stands_at(s, at + a.len(), b),
{
    let whole = s.subrange(at, at + (a + b).len());
    assert(s.subrange(at, at + a.len()) =~= whole.take(a.len() as int));
    assert((a + b).take(a.len() as int) =~= a);
    assert(s.subrange(at + a.len(), at + a.len() + b.len()) =~= whole.skip(a.len() as int));
    assert((a + b).skip(a.len() as int) =~= b);
}

proof fn lemma_word_read(s: Seq<u8>, at: int, n: nat, le: bool)
    requires
        n <= u32::MAX,
        stands_at(s, at, wkb_word(n, le)),
    ensures
        wkb_word(n, le).len() == 4,
        crate::bytes::u32_at(s, at, le) == n,
{
    reveal_with_fuel(crate::bytes::byte_range, 5);
    crate::bytes::lemma_le_round_trip(n, 4);
    let bytes = wkb_word(n, le);
    crate::bytes::law_bytes_have_weights(bytes);
    assert(bytes.reverse().reverse() =~= bytes);
    if !le {
        assert(bytes.reverse() =~= crate::bytes::le_bytes(n, 4));
    }
}

proof fn lemma_double_read(s: Seq<u8>, at: int, n: u64, le: bool)
    requires
        stands_at(s, at, wkb_double(n, le)),
    ensures
        wkb_double(n, le).len() == 8,
        crate::bytes::u64_at(s, at, le) == n,
{
    reveal_with_fuel(crate::bytes::byte_range, 9);
    crate::bytes::lemma_le_round_trip(n as nat, 8);
    let bytes = wkb_double(n, le);
    crate::bytes::law_bytes_have_weights(bytes);
    if !le {
        assert(bytes.reverse() =~= crate::bytes::le_bytes(n as nat, 8));
    }
}

proof fn lemma_points_read(s: Seq<u8>, at: int, points: Seq<Point>, le: bool, has_z: bool)
    requires
        stands_at(s, at, wkb_points(points, le, has_z)),
        !has_z ==> forall|j: int| 0 <= j < points.len() ==> (#[trigger] points[j]).z == 0,
    ensures
        wkb_points(points, le, has_z).len() == points.len() * point_size(has_z),
        forall|i: int|
            0 <= i < points.len() ==> #[trigger] point_at(
                s,
                at + i * point_size(has_z),
                le,
                has_z,
            ) == points[i],
    decreases points.len(),
{
    if points.len() > 0 {
        let head = points.drop_last();
        let last = points.last();
        let before = wkb_points(head, le, has_z);
        let x = wkb_double(last.x, le);
        let y = wkb_double(last.y, le);
        let z = if has_z {
            wkb_double(last.z, le)
        } else {
            Seq::empty()
        };
        lemma_stands_split(s, at, before + x + y, z);
        lemma_stands_split(s, at, before + x, y);
        lemma_stands_split(s, at, before, x);
        if !has_z {
            assert forall|j: int| 0 <= j < head.len() implies (#[trigger] head[j]).z == 0 by {
                assert(head[j] == points[j]);
            }
            assert(points[points.len() - 1].z == 0);
        }
        lemma_points_read(s, at, head, le, has_z);
        let n = head.len() as int;
        let size = point_size(has_z);
        assert(before.len() == n * size);
        assert((n + 1) * size == n * size + size) by (nonlinear_arith);
        lemma_double_read(s, at + n * size, last.x, le);
        lemma_double_read(s, at + n * size + 8, last.y, le);
        if has_z {
            lemma_double_read(s, at + n * size + 16, last.z, le);
        }
        assert forall|i: int| 0 <= i < points.len() implies #[trigger] point_at(
            s,
            at + i * point_size(has_z),
            le,
            has_z,
        ) == points[i] by {
            if i < n {
                assert(head[i] == points[i]);
            }
        }
    }
}

proof fn lemma_ring_read(s: Seq<u8>, at: int, ring: Seq<Point>, le: bool, has_z: bool)
    requires
        ring.len() <= u32::MAX,
        stands_at(s, at, wkb_ring(ring, le, has_z)),
        !has_z ==> forall|j: int| 0 <= j < ring.len() ==> (#[trigger] ring[j]).z == 0,
    ensures
        ring_at(s, at, le, has_z) == Ok::<(Seq<Point>, int), WkbError>(
            (ring, at + wkb_ring(ring, le, has_z).len()),
        ),
{
    lemma_stands_split(s, at, wkb_word(ring.len(), le), wkb_points(ring, le, has_z));
    lemma_word_read(s, at, ring.len(), le);
    lemma_points_read(s, at + 4, ring, le, has_z);
    let read = Seq::new(ring.len(), |i: int| point_at(s, at + 4 + i * point_size(has_z), le, has_z));
    assert(read =~= ring);
}

proof fn lemma_rings_read(s: Seq<u8>, at: int, rings: Seq<Seq<Point>>, le: bool, has_z: bool)
    requires
        can_be_written(rings, has_z),
        stands_at(s, at, wkb_rings(rings, le, has_z)),
    ensures
        rings_at(s, at, rings.len(), le, has_z) == Ok::<(Seq<Seq<Point>>, int), WkbError>(
            (rings, at + wkb_rings(rings, le, has_z).len()),
        ),
    decreases rings.len(),
{
    if rings.len() > 0 {
        let head = rings.drop_last();
        let last = rings.last();
        let before = wkb_rings(head, le, has_z);
        lemma_stands_split(s, at, before, wkb_ring(last, le, has_z));
        assert(can_be_written(head, has_z)) by {
            assert forall|i: int| 0 <= i < head.len() implies (#[trigger] head[i]).len()
                <= u32::MAX by {
                assert(head[i] == rings[i]);
            }
            if !has_z {
                assert forall|i: int, j: int|
                    0 <= i < head.len() && 0 <= j < head[i].len() implies (
                #[trigger] head[i][j]).z == 0 by {
                    assert(rings[i][j].z == 0);
                }
            }
        }
        lemma_rings_read(s, at, head, le, has_z);
        assert(rings[rings.len() - 1] == last);
        if !has_z {
            assert forall|j: int| 0 <= j < last.len() implies (#[trigger] last[j]).z == 0 by {
                assert(rings[rings.len() - 1][j].z == 0);
            }
        }
        lemma_ring_read(s, at + before.len(), last, le, has_z);
        assert(head.push(last) =~= rings);
    } else {
        assert(rings =~= Seq::<Seq<Point>>::empty());
    }
}

/// Reads what follows the header of a polygon.
proof fn lemma_polygon_read(
    s: Seq<u8>,
    at: int,
    rings: Seq<Seq<Point>>,
    geom_type: nat,
    le: bool,
    has_z: bool,
)
    requires
        geom_type <= u32::MAX,
        can_be_written(rings, has_z),
        stands_at(s, at, wkb_polygon(rings, geom_type, le, has_z)),
    ensures
        at + 5 <= s.len(),
        (s[at] == 1) == le,
        crate::bytes::u32_at(s, at + 1, le) == geom_type,
        polygon_at(s, at + 5, le, has_z) == Ok::<(Seq<Seq<Point>>, int), WkbError>(
            (rings, at + wkb_polygon(rings, geom_type, le, has_z).len()),
        ),
{
    let order = seq![if le {
        1u8
    } else {
        0u8
    }];
    let count = wkb_word(rings.len(), le);
    let body = wkb_rings(rings, le, has_z);
    lemma_stands_split(s, at, wkb_header(geom_type, le) + count, body);
    lemma_stands_split(s, at, wkb_header(geom_type, le), count);
    lemma_stands_split(s, at, order, wkb_word(geom_type, le));
    assert(s.subrange(at, at + 1)[0] == s[at]);
    lemma_word_read(s, at + 1, geom_type, le);
    lemma_word_read(s, at + 5, rings.len(), le);
    lemma_rings_read(s, at + 9, rings, le, has_z);
}

/// Reading a polygon gives back what was written, in either byte order, with a
/// third coordinate or without, whichever of the type numbers says so, and
/// whatever follows.
pub proof fn law_polygon_is_read_back(
    rings: Seq<Seq<Point>>,
    geom_type: nat,
    le: bool,
    has_z: bool,
    rest: Seq<u8>,
)
    requires
        can_be_written(rings, has_z),
        has_z ==> geom_type == 1003 || geom_type == 0x8000_0003 || geom_type == 0x8000_03eb,
        !has_z ==> geom_type == 3,
    ensures
        wkb_polygons(wkb_polygon(rings, geom_type, le, has_z) + rest) == Ok::<
            Seq<Seq<Seq<Point>>>,
            WkbError,
        >(seq![rings]),
{
    let own = wkb_polygon(rings, geom_type, le, has_z);
    let s = own + rest;
    assert(s.subrange(0, own.len() as int) =~= own);
    lemma_polygon_read(s, 0, rings, geom_type, le, has_z);
}

/// One more polygon is read after those before it.
proof fn lemma_one_more_member(
    s: Seq<u8>,
    at: int,
    head: Seq<Seq<Seq<Point>>>,
    middle: int,
    last: Seq<Seq<Point>>,
    end: int,
    has_z: bool,
)
    requires
        polygons_at(s, at, head.len(), has_z) == Ok::<(Seq<Seq<Seq<Point>>>, int), WkbError>(
            (head, middle),
        ),
        middle + 5 <= s.len(),
        polygon_at(s, middle + 5, s[middle] == 1, has_z) == Ok::<(Seq<Seq<Point>>, int), WkbError>(
            (last, end),
        ),
    ensures
        polygons_at(s, at, head.len() + 1, has_z) == Ok::<(Seq<Seq<Seq<Point>>>, int), WkbError>(
            (head.push(last), end),
        ),
{
}

#[verifier::rlimit(40)]
proof fn lemma_members_read(
    s: Seq<u8>,
    at: int,
    polygons: Seq<Seq<Seq<Point>>>,
    geom_type: nat,
    orders: Seq<bool>,
    has_z: bool,
)
    requires
        geom_type <= u32::MAX,
        forall|k: int|
            0 <= k < polygons.len() ==> can_be_written(#[trigger] polygons[k], has_z),
        stands_at(s, at, wkb_members(polygons, geom_type, orders, has_z)),
    ensures
        polygons_at(s, at, polygons.len(), has_z) == Ok::<(Seq<Seq<Seq<Point>>>, int), WkbError>(
            (polygons, at + wkb_members(polygons, geom_type, orders, has_z).len()),
        ),
    decreases polygons.len(),
{
    if polygons.len() > 0 {
        let head = polygons.drop_last();
        let last = polygons.last();
        let order = orders[polygons.len() - 1];
        let before = wkb_members(head, geom_type, orders, has_z);
        lemma_stands_split(s, at, before, wkb_polygon(last, geom_type, order, has_z));
        assert forall|k: int| 0 <= k < head.len() implies can_be_written(
            #[trigger] head[k],
            has_z,
        ) by {
            assert(head[k] == polygons[k]);
        }
        lemma_members_read(s, at, head, geom_type, orders, has_z);
        assert(polygons[polygons.len() - 1] == last);
        let own = wkb_polygon(last, geom_type, order, has_z);
        lemma_polygon_read(s, at + before.len(), last, geom_type, order, has_z);
        lemma_one_more_member(
            s,
            at,
            head,
            at + before.len(),
            last,
            at + before.len() + own.len(),
            has_z,
        );
        assert(wkb_members(polygons, geom_type, orders, has_z) == before + own);
        assert(head.push(last) =~= polygons);
    } else {
        assert(polygons =~= Seq::<Seq<Seq<Point>>>::empty());
    }
}

/// Reading a multi-polygon gives back what was written, in either byte order.
/// Each polygon may have a byte order of its own, and whatever type number.
pub proof fn law_multi_polygon_is_read_back(
    polygons: Seq<Seq<Seq<Point>>>,
    geom_type: nat,
    member_type: nat,
    le: bool,
    orders: Seq<bool>,
    has_z: bool,
    rest: Seq<u8>,
)
    requires
        polygons.len() <= u32::MAX,
        member_type <= u32::MAX,
        forall|k: int|
            0 <= k < polygons.len() ==> can_be_written(#[trigger] polygons[k], has_z),
        has_z ==> geom_type == 1006 || geom_type == 0x8000_0006 || geom_type == 0x8000_03ee,
        !has_z ==> geom_type == 6,
    ensures
        wkb_polygons(
            wkb_header(geom_type, le) + wkb_word(polygons.len(), le) + wkb_members(
                polygons,
                member_type,
                orders,
                has_z,
            ) + rest,
        ) == Ok::<Seq<Seq<Seq<Point>>>, WkbError>(polygons),
{
    let order = seq![if le {
        1u8
    } else {
        0u8
    }];
    let header = wkb_header(geom_type, le);
    let count = wkb_word(polygons.len(), le);
    let members = wkb_members(polygons, member_type, orders, has_z);
    let own = header + count + members;
    let s = own + rest;
    assert(s.subrange(0, own.len() as int) =~= own);
    lemma_stands_split(s, 0, header + count, members);
    lemma_stands_split(s, 0, header, count);
    lemma_stands_split(s, 0, order, wkb_word(geom_type, le));
    assert(s.subrange(0, 1)[0] == s[0]);
    lemma_word_read(s, 1, geom_type, le);
    lemma_word_read(s, 5, polygons.len(), le);
    lemma_members_read(s, 9, polygons, member_type, orders, has_z);
}

proof fn lemma_more_follows_ring(s: Seq<u8>, more: Seq<u8>, at: int, le: bool, has_z: bool)
    requires
        0 <= at,
        s.is_prefix_of(more),
        ring_at(s, at, le, has_z) is Ok,
    ensures
        ring_at(more, at, le, has_z) == ring_at(s, at, le, has_z),
        at <= ring_at(s, at, le, has_z)->Ok_0.1 <= s.len(),
{
    let n = crate::bytes::u32_at(s, at, le);
    let size = point_size(has_z);
    assert(n * size >= 0) by (nonlinear_arith)
        requires
            n >= 0,
            size >= 0,
    ;
    assert(more.subrange(at, at + 4) =~= s.subrange(at, at + 4));
    let a = Seq::new(n, |i: int| point_at(s, at + 4 + i * size, le, has_z));
    let b = Seq::new(n, |i: int| point_at(more, at + 4 + i * size, le, has_z));
    assert forall|i: int| 0 <= i < n implies a[i] == b[i] by {
        let start = at + 4 + i * size;
        assert(0 <= i * size && i * size + size <= n * size) by (nonlinear_arith)
            requires
                0 <= i < n,
                size >= 0,
        ;
        assert(more.subrange(start, start + 8) =~= s.subrange(start, start + 8));
        assert(more.subrange(start + 8, start + 16) =~= s.subrange(start + 8, start + 16));
        if has_z {
            assert(more.subrange(start + 16, start + 24) =~= s.subrange(start + 16, start + 24));
        }
    }
    assert(a =~= b);
}

proof fn lemma_more_follows_rings(
    s: Seq<u8>,
    more: Seq<u8>,
    at: int,
    n: nat,
    le: bool,
    has_z: bool,
)
    requires
        0 <= at <= s.len(),
        s.is_prefix_of(more),
        rings_at(s, at, n, le, has_z) is Ok,
    ensures
        rings_at(more, at, n, le, has_z) == rings_at(s, at, n, le, has_z),
        at <= rings_at(s, at, n, le, has_z)->Ok_0.1 <= s.len(),
    decreases n,
{
    if n > 0 {
        lemma_more_follows_rings(s, more, at, (n - 1) as nat, le, has_z);
        let next = rings_at(s, at, (n - 1) as nat, le, has_z)->Ok_0.1;
        lemma_more_follows_ring(s, more, next, le, has_z);
    }
}

/// A polygon that ends before its last byte is refused: nothing is made up for
/// what is missing.
pub proof fn law_truncated_polygon_is_refused(
    rings: Seq<Seq<Point>>,
    geom_type: nat,
    le: bool,
    has_z: bool,
    n: int,
)
    requires
        can_be_written(rings, has_z),
        has_z ==> geom_type == 1003 || geom_type == 0x8000_0003 || geom_type == 0x8000_03eb,
        !has_z ==> geom_type == 3,
        0 <= n < wkb_polygon(rings, geom_type, le, has_z).len(),
    ensures
        wkb_polygons(wkb_polygon(rings, geom_type, le, has_z).take(n)) is Err,
{
    let whole = wkb_polygon(rings, geom_type, le, has_z);
    let cut = whole.take(n);
    if n >= 9 {
        assert(whole.subrange(0, whole.len() as int) =~= whole);
        lemma_polygon_read(whole, 0, rings, geom_type, le, has_z);
        assert(whole.subrange(1, 5) =~= cut.subrange(1, 5));
        assert(whole.subrange(5, 9) =~= cut.subrange(5, 9));
        let count = crate::bytes::u32_at(cut, 5, le);
        if rings_at(cut, 9, count, le, has_z) is Ok {
            assert(cut.is_prefix_of(whole)) by {
                assert(whole.take(cut.len() as int) =~= cut);
            }
            lemma_more_follows_rings(cut, whole, 9, count, le, has_z);
            assert(false);
        }
    } else if n >= 5 {
        assert(whole.subrange(0, whole.len() as int) =~= whole);
        lemma_polygon_read(whole, 0, rings, geom_type, le, has_z);
        assert(whole.subrange(1, 5) =~= cut.subrange(1, 5));
    }
}

/// A geometry of any other type is refused, and the error tells its type.
pub proof fn law_other_geometries_are_refused(s: Seq<u8>)
    requires
        s.len() >= 5,
    ensures
        ({
            let geom_type = crate::bytes::u32_at(s, 1, s[0] == 1);
            let base = geom_type as int % 0x1_0000;
            base != 3 && base != 6 && base != 1003 && base != 1006 ==> (wkb_polygons(s) matches Err(
                WkbError::Unsupported { geom_type: told, .. },
            ) && told == geom_type as u32)
        }),
{
}

// ------------------------------------------------------------------ features

/// A vertex in the whole numbers that CityJSON stores.
#[derive(Clone, Copy, Debug, PartialEq, Eq, Structural)]
pub struct Quantized {
    pub x: i64,
    pub y: i64,
    pub z: i64,
}

/// The rings of all polygons, one polygon after the other.
pub open spec fn all_rings(polygons: Seq<Vec<Vec<Quantized>>>) -> Seq<Seq<Quantized>>
    decreases polygons.len(),
{
    if polygons.len() == 0 {
        Seq::empty()
    } else {
        all_rings(polygons.drop_last()) + Seq::new(
            polygons.last()@.len(),
            |i: int| polygons.last()@[i]@,
        )
    }
}

/// The vertices of rings, one ring after the other.
pub open spec fn all_vertices(rings: Seq<Seq<Quantized>>) -> Seq<Quantized>
    decreases rings.len(),
{
    if rings.len() == 0 {
        Seq::empty()
    } else {
        all_vertices(rings.drop_last()) + rings.last()
    }
}

/// The surfaces of rings: each ring is a surface by itself, and refers to its
/// vertices by their numbers.
pub open spec fn surfaces_json(rings: Seq<Seq<Quantized>>) -> Seq<Json>
    decreases rings.len(),
{
    if rings.len() == 0 {
        Seq::empty()
    } else {
        surfaces_json(rings.drop_last()).push(
            Json::Arr(
                seq![numbers_json(all_vertices(rings.drop_last()).len() as int, rings.last().len())],
            ),
        )
    }
}

/// `count` consecutive numbers from `start` on, as 32-bit numbers.
pub open spec fn numbers_json(start: int, count: nat) -> Json {
    Json::Arr(Seq::new(count, |i: int| Json::Int((start + i) % 0x1_0000_0000)))
}

/// A vertex, as it is written.
pub open spec fn vertex_json(v: Quantized) -> Json {
    Json::Arr(seq![Json::Int(v.x as int), Json::Int(v.y as int), Json::Int(v.z as int)])
}

/// The CityJSON feature of a tree.
pub open spec fn feature_json(
    id: Seq<char>,
    rings: Seq<Seq<Quantized>>,
    city_object_type: Seq<char>,
) -> Json {
    let vertices = all_vertices(rings);
    Json::Obj(map![
        "type"@ => Json::Str("CityJSONFeature"@),
        "id"@ => Json::Str(id),
        "CityObjects"@ => Json::Obj(map![
            id => Json::Obj(map![
                "type"@ => Json::Str(city_object_type),
                "geometry"@ => Json::Arr(seq![
                    Json::Obj(map![
                        "type"@ => Json::Str("MultiSurface"@),
                        "lod"@ => Json::Str("2"@),
                        "boundaries"@ => Json::Arr(surfaces_json(rings)),
                    ]),
                ]),
            ]),
        ]),
        "vertices"@ => Json::Arr(
            Seq::new(vertices.len(), |i: int| vertex_json(vertices[i])),
        ),
    ])
}

fn json_numbers(start: u64, count: usize) -> (r: Value)
    requires
        start + count <= u64::MAX,
    ensures
        crate::json::json_of(r) == numbers_json(start as int, count as nat),
{
    let mut items: Vec<Value> = Vec::new();
    let mut i: usize = 0;
    while i < count
        invariant
            i <= count,
            start + count <= u64::MAX,
            crate::json::jsons_of(items@) =~= Seq::new(
                i as nat,
                |k: int| Json::Int((start + k) % 0x1_0000_0000),
            ),
        decreases count - i,
    {
        let number = json_u64((start + i as u64) % 0x1_0000_0000);
        proof {
            crate::json::lemma_jsons_push(items@, number);
        }
        items.push(number);
        i += 1;
    }
    json_array(items)
}

fn json_vertex(v: &Quantized) -> (r: Value)
    ensures
        crate::json::json_of(r) == vertex_json(*v),
{
    let items: Vec<Value> = vec![json_i64(v.x), json_i64(v.y), json_i64(v.z)];
    assert(crate::json::jsons_of(items@) =~= seq![
        Json::Int(v.x as int),
        Json::Int(v.y as int),
        Json::Int(v.z as int),
    ]);
    json_array(items)
}

/// The vertices and the surfaces of polygons, as JSON values.
fn json_rings(polygons: &[Vec<Vec<Quantized>>]) -> (r: (Vec<Value>, Vec<Value>))
    ensures
        ({
            let rings = all_rings(polygons@);
            let vertices = all_vertices(rings);
            &&& crate::json::jsons_of(r.0@) == Seq::new(
                vertices.len(),
                |i: int| vertex_json(vertices[i]),
            )
            &&& crate::json::jsons_of(r.1@) == surfaces_json(rings)
        }),
{
    broadcast use crate::json::lemma_jsons_push;

    let mut vertices: Vec<Value> = Vec::new();
    let mut surfaces: Vec<Value> = Vec::new();
    let ghost mut rings = Seq::<Seq<Quantized>>::empty();
    let n: usize = polygons.len();
    let mut p: usize = 0;
    assert(crate::json::jsons_of(vertices@) =~= Seq::new(
        0,
        |i: int| vertex_json(all_vertices(rings)[i]),
    ));
    assert(crate::json::jsons_of(surfaces@) =~= surfaces_json(rings));
    while p < n
        invariant
            p <= n,
            n == polygons@.len(),
            rings == all_rings(polygons@.take(p as int)),
            vertices@.len() == all_vertices(rings).len(),
            crate::json::jsons_of(vertices@) == Seq::new(
                all_vertices(rings).len(),
                |i: int| vertex_json(all_vertices(rings)[i]),
            ),
            crate::json::jsons_of(surfaces@) == surfaces_json(rings),
        decreases n - p,
    {
        let polygon = &polygons[p];
        let ghost before = rings;
        let ghost added = Seq::new(polygon@.len(), |i: int| polygon@[i]@);
        let m: usize = polygon.len();
        let mut r: usize = 0;
        assert(before + added.take(0) =~= before);
        while r < m
            invariant
                r <= m,
                m == polygon@.len(),
                added == Seq::new(polygon@.len(), |i: int| polygon@[i]@),
                rings == before + added.take(r as int),
                vertices@.len() == all_vertices(rings).len(),
                crate::json::jsons_of(vertices@) == Seq::new(
                    all_vertices(rings).len(),
                    |i: int| vertex_json(all_vertices(rings)[i]),
                ),
                crate::json::jsons_of(surfaces@) == surfaces_json(rings),
            decreases m - r,
        {
            let ring = &polygon[r];
            let start: usize = vertices.len();
            let count: usize = ring.len();
            let ghost old_rings = rings;
            let ghost old_vertices = all_vertices(old_rings);
            let ghost next = rings.push(ring@);
            proof {
                assert(next.drop_last() =~= rings);
                assert(before + added.take(r + 1) =~= next);
            }
            let mut i: usize = 0;
            while i < count
                invariant
                    i <= count,
                    count == ring@.len(),
                    start == old_vertices.len(),
                    vertices@.len() == start + i,
                    crate::json::jsons_of(vertices@) =~= Seq::new(
                        (start + i) as nat,
                        |k: int| vertex_json((old_vertices + ring@)[k]),
                    ),
                decreases count - i,
            {
                let vertex = json_vertex(&ring[i]);
                proof {
                    crate::json::lemma_jsons_push(vertices@, vertex);
                    assert((old_vertices + ring@)[start + i] == ring@[i as int]);
                }
                vertices.push(vertex);
                i += 1;
            }
            assert(vertices.len() <= usize::MAX);
            let surface = json_one(json_numbers(start as u64, count));
            surfaces.push(surface);
            proof {
                rings = next;
                assert(all_vertices(rings) =~= old_vertices + ring@);
                assert(crate::json::jsons_of(vertices@) =~= Seq::new(
                    all_vertices(rings).len(),
                    |i: int| vertex_json(all_vertices(rings)[i]),
                ));
            }
            r += 1;
        }
        proof {
            assert(added.take(m as int) =~= added);
            assert(polygons@.take(p + 1).drop_last() =~= polygons@.take(p as int));
            assert(rings =~= all_rings(polygons@.take(p + 1)));
        }
        p += 1;
    }
    assert(polygons@.take(n as int) =~= polygons@);
    (vertices, surfaces)
}

/// Writes a tree as a CityJSON feature.
pub fn build_cityjson_feature_bytes(
    id: &str,
    polygons: &[Vec<Vec<Quantized>>],
    city_object_type: &str,
) -> (r: Vec<u8>)
    ensures
        r@ == crate::json::json_text(
            feature_json(id@, all_rings(polygons@), city_object_type@),
        ),
{
    let (vertices, surfaces) = json_rings(polygons);
    let mut geometry = no_fields();
    put(&mut geometry, "type", json_str("MultiSurface"));
    put(&mut geometry, "lod", json_str("2"));
    put(&mut geometry, "boundaries", json_array(surfaces));
    let mut object = no_fields();
    put(&mut object, "type", json_str(city_object_type));
    put(&mut object, "geometry", json_one(json_object(geometry)));
    let mut objects = no_fields();
    put(&mut objects, id, json_object(object));
    let mut feature = no_fields();
    put(&mut feature, "type", json_str("CityJSONFeature"));
    put(&mut feature, "id", json_str(id));
    put(&mut feature, "CityObjects", json_object(objects));
    put(&mut feature, "vertices", json_array(vertices));
    write_json(&json_object(feature))
}

/// The model of a tree: a collection of city objects and their vertices.
#[verifier::external_body]
pub struct TreeModel {
    pub model: cityjson_json::OwnedCityModel,
}

/// What the model holds that `cityjson_json::v2_0::read_feature` reads from some
/// bytes with the default options, or nothing where it reads no feature.
pub uninterp spec fn feature_read(bytes: Seq<u8>) -> Option<Json>;

/// What a model holds, as plain values: its city objects with their
/// geometries, and its vertices.
pub uninterp spec fn model_holds(model: TreeModel) -> Json;

/// Calls `cityjson_json::v2_0::read_feature` with the default options. Claims
/// that the bytes alone decide whether there is a model and what it holds. What
/// that is for given bytes is left unsaid.
#[verifier::external_body]
fn read_feature(bytes: &[u8]) -> (r: Option<TreeModel>)
    ensures
        match r {
            Some(model) => feature_read(bytes@) == Some(model_holds(model)),
            None => feature_read(bytes@) is None,
        },
{
    match cityjson_json::v2_0::read_feature(bytes, &cityjson_json::ReadOptions::default()) {
        Ok(model) => Some(TreeModel { model }),
        Err(_) => None,
    }
}

/// Makes the model of a tree, by way of its CityJSON feature. There is none
/// where the feature cannot be read.
pub fn build_tree_model(
    id: &str,
    polygons: &[Vec<Vec<Quantized>>],
    city_object_type: &str,
) -> (r: Option<TreeModel>)
    ensures
        ({
            let held = feature_read(
                crate::json::json_text(
                    feature_json(id@, all_rings(polygons@), city_object_type@),
                ),
            );
            match r {
                Some(model) => held == Some(model_holds(model)),
                None => held is None,
            }
        }),
{
    let bytes = build_cityjson_feature_bytes(id, polygons, city_object_type);
    read_feature(bytes.as_slice())
}

/// There is one surface for each ring, and the numbers of a ring's vertices
/// follow those of the rings before it.
pub proof fn law_surfaces_number_their_vertices(rings: Seq<Seq<Quantized>>, i: int)
    requires
        0 <= i < rings.len(),
    ensures
        surfaces_json(rings).len() == rings.len(),
        surfaces_json(rings)[i] == Json::Arr(
            seq![numbers_json(all_vertices(rings.take(i)).len() as int, rings[i].len())],
        ),
        all_vertices(rings.take(i)).len() + rings[i].len() <= all_vertices(rings).len(),
        all_vertices(rings).subrange(
            all_vertices(rings.take(i)).len() as int,
            (all_vertices(rings.take(i)).len() + rings[i].len()) as int,
        ) == rings[i],
    decreases rings.len(),
{
    lemma_surface_count(rings);
    let head = rings.drop_last();
    lemma_surface_count(head);
    if i == rings.len() - 1 {
        assert(rings.take(i) =~= head);
        assert(all_vertices(rings).subrange(
            all_vertices(head).len() as int,
            (all_vertices(head).len() + rings[i].len()) as int,
        ) =~= rings[i]);
    } else {
        law_surfaces_number_their_vertices(head, i);
        assert(head.take(i) =~= rings.take(i));
        assert(all_vertices(rings).subrange(
            all_vertices(rings.take(i)).len() as int,
            (all_vertices(rings.take(i)).len() + rings[i].len()) as int,
        ) =~= all_vertices(head).subrange(
            all_vertices(head.take(i)).len() as int,
            (all_vertices(head.take(i)).len() + head[i].len()) as int,
        ));
    }
}

proof fn lemma_surface_count(rings: Seq<Seq<Quantized>>)
    ensures
        surfaces_json(rings).len() == rings.len(),
    decreases rings.len(),
{
    if rings.len() > 0 {
        lemma_surface_count(rings.drop_last());
    }
}

// ------------------------------------------------------------------- columns

/// A key and its value in the metadata of a file; the value may be missing.
#[derive(Debug)]
pub struct KeyValue {
    pub key: String,
    pub value: Option<String>,
}

/// The geometry column of a file with a description that could be read: the
/// one it names, else "geometry".
pub open spec fn column_in(doc: Option<Json>) -> Option<Seq<char>> {
    match doc {
        None => None,
        Some(doc) => Some(column_or_default(crate::json::text_field(doc, "primary_column"@))),
    }
}

/// A column name, or "geometry" where there is none.
pub open spec fn column_or_default(name: Option<Seq<char>>) -> Seq<char> {
    match name {
        Some(name) => name,
        None => "geometry"@,
    }
}

/// The description of the geometry columns: the value of the first "geo" key.
pub open spec fn geo_text(entries: Seq<KeyValue>) -> Option<Seq<char>>
    decreases entries.len(),
{
    if entries.len() == 0 {
        None
    } else if entries[0].key@ == "geo"@ {
        match entries[0].value {
            Some(text) => Some(text@),
            None => None,
        }
    } else {
        geo_text(entries.skip(1))
    }
}

/// A column name, or "geometry" where there is none.
pub fn name_or_geometry(name: Option<&str>) -> (r: String)
    ensures
        r@ == column_or_default(
            match name {
                Some(name) => Some(name@),
                None => None,
            },
        ),
{
    match name {
        Some(name) => name.to_owned(),
        None => "geometry".to_owned(),
    }
}

/// The geometry column that the metadata of a file names.
pub fn primary_geometry_column(entries: &Option<Vec<KeyValue>>) -> (r: Option<String>)
    ensures
        ({
            let named = match entries {
                None => None,
                Some(list) => match geo_text(list@) {
                    None => None,
                    Some(text) => column_in(crate::json::parsed_json(text)),
                },
            };
            match r {
                Some(name) => named == Some(name@),
                None => named is None,
            }
        }),
{
    let list = match entries {
        None => {
            return None;
        },
        Some(list) => list,
    };
    let n: usize = list.len();
    let mut i: usize = 0;
    assert(list@.skip(0) =~= list@);
    while i < n
        invariant
            i <= n,
            n == list@.len(),
            *entries == Some(*list),
            geo_text(list@) == geo_text(list@.skip(i as int)),
        decreases n - i,
    {
        assert(list@.skip(i as int).skip(1) =~= list@.skip(i + 1));
        assert(list@.skip(i as int)[0] == list@[i as int]);
        if same_text(list[i].key.as_str(), "geo") {
            return match &list[i].value {
                None => None,
                Some(text) => match read_json(text.as_str()) {
                    None => None,
                    Some(doc) => Some(name_or_geometry(get_text(&doc, "primary_column"))),
                },
            };
        }
        i += 1;
    }
    None
}

/// The id of a tree: that of its row, else "tree-" with the next number.
pub fn tree_id(row_id: Option<String>, auto_id: u64) -> (r: (String, u64))
    requires
        auto_id < u64::MAX,
    ensures
        match row_id {
            Some(id) => r.0@ == id@ && r.1 == auto_id,
            None => r.0@ == "tree-"@ + crate::text::decimal((auto_id + 1) as nat) && r.1
                == auto_id + 1,
        },
{
    match row_id {
        Some(id) => (id, auto_id),
        None => {
            let next: u64 = auto_id + 1;
            ("tree-".to_owned().concat(number_text(next).as_str()), next)
        },
    }
}

// -------------------------------------------------------------------- laws

/// The rings of one list of polygons after another are those of the one and then
/// those of the other; the rings of a single polygon are its own, holes too.
pub proof fn law_rings_of_polygons(
    a: Seq<Vec<Vec<Quantized>>>,
    b: Seq<Vec<Vec<Quantized>>>,
    one: Vec<Vec<Quantized>>,
)
    ensures
        all_rings(a + b) == all_rings(a) + all_rings(b),
        all_rings(seq![one]).len() == one@.len(),
        forall|i: int| 0 <= i < one@.len() ==> #[trigger] all_rings(seq![one])[i] == one@[i]@,
    decreases b.len(),
{
    let none = Seq::<Vec<Vec<Quantized>>>::empty();
    assert(seq![one].drop_last() =~= none);
    assert(seq![one].last() == one);
    assert(all_rings(none) =~= Seq::<Seq<Quantized>>::empty());
    if b.len() == 0 {
        assert(a + b =~= a);
        assert(all_rings(a) + all_rings(b) =~= all_rings(a));
    } else {
        assert((a + b).drop_last() =~= a + b.drop_last());
        law_rings_of_polygons(a, b.drop_last(), one);
        assert(all_rings(a + b) =~= all_rings(a) + all_rings(b));
    }
}

/// The item at a place of an array.
pub open spec fn item_at(doc: Json, i: int) -> Json {
    match doc {
        Json::Arr(items) => items[i],
        _ => Json::Null,
    }
}

/// The field of a name of an object.
pub open spec fn field_at(doc: Json, name: Seq<char>) -> Json {
    match doc {
        Json::Obj(fields) => fields[name],
        _ => Json::Null,
    }
}

proof fn lemma_feature_keys()
    ensures
        "type"@ != "id"@,
        "type"@ != "CityObjects"@,
        "type"@ != "vertices"@,
        "id"@ != "CityObjects"@,
        "id"@ != "vertices"@,
        "CityObjects"@ != "vertices"@,
        "type"@ != "geometry"@,
        "type"@ != "lod"@,
        "type"@ != "boundaries"@,
        "lod"@ != "boundaries"@,
{
    reveal_strlit("type");
    reveal_strlit("id");
    reveal_strlit("CityObjects");
    reveal_strlit("vertices");
    reveal_strlit("geometry");
    reveal_strlit("lod");
    reveal_strlit("boundaries");
    assert("type"@.len() == 4);
    assert("id"@.len() == 2);
    assert("CityObjects"@.len() == 11);
    assert("vertices"@.len() == 8);
    assert("geometry"@.len() == 8);
    assert("lod"@.len() == 3);
    assert("boundaries"@.len() == 10);
}

/// The corners of a tree can be read from its document: each ring is a surface of
/// the one geometry of the one object, and the number of its corner is the place
/// of the corner's coordinates among the vertices.
pub proof fn law_tree_can_be_read(
    id: Seq<char>,
    rings: Seq<Seq<Quantized>>,
    city_object_type: Seq<char>,
    i: int,
    k: int,
)
    requires
        0 <= i < rings.len(),
        0 <= k < rings[i].len(),
        all_vertices(rings).len() <= 0x1_0000_0000,
    ensures
        ({
            let doc = feature_json(id, rings, city_object_type);
            let object = field_at(field_at(doc, "CityObjects"@), id);
            let geometry = item_at(field_at(object, "geometry"@), 0);
            let corner = item_at(item_at(item_at(field_at(geometry, "boundaries"@), i), 0), k);
            &&& field_at(doc, "type"@) == Json::Str("CityJSONFeature"@)
            &&& field_at(doc, "id"@) == Json::Str(id)
            &&& field_at(object, "type"@) == Json::Str(city_object_type)
            &&& field_at(geometry, "type"@) == Json::Str("MultiSurface"@)
            &&& field_at(geometry, "lod"@) == Json::Str("2"@)
            &&& corner matches Json::Int(n) && {
                let vertex = item_at(field_at(doc, "vertices"@), n);
                &&& item_at(vertex, 0) == Json::Int(rings[i][k].x as int)
                &&& item_at(vertex, 1) == Json::Int(rings[i][k].y as int)
                &&& item_at(vertex, 2) == Json::Int(rings[i][k].z as int)
            }
        }),
{
    lemma_feature_keys();
    law_surfaces_number_their_vertices(rings, i);
    let start = all_vertices(rings.take(i)).len() as int;
    let vertices = all_vertices(rings);
    assert(vertices.subrange(start, start + rings[i].len())[k] == rings[i][k]);
    assert(vertices[start + k] == rings[i][k]);
    vstd::arithmetic::div_mod::lemma_small_mod((start + k) as nat, 0x1_0000_0000);
    let doc = feature_json(id, rings, city_object_type);
    let object = field_at(field_at(doc, "CityObjects"@), id);
    let geometry = item_at(field_at(object, "geometry"@), 0);
    assert(field_at(geometry, "boundaries"@) == Json::Arr(surfaces_json(rings)));
    assert(item_at(field_at(geometry, "boundaries"@), i) == surfaces_json(rings)[i]);
    assert(item_at(field_at(doc, "vertices"@), start + k) == vertex_json(vertices[start + k]));
}

/// The description of the geometry columns is the value of the first key "geo",
/// whatever else there is.
pub proof fn law_first_geo_key_counts(before: Seq<KeyValue>, geo: KeyValue, after: Seq<KeyValue>)
    requires
        forall|k: int| 0 <= k < before.len() ==> (#[trigger] before[k]).key@ != "geo"@,
    ensures
        geo_text(before) is None,
        geo.key@ == "geo"@ ==> geo_text(before + seq![geo] + after) == (match geo.value {
            Some(text) => Some(text@),
            None => None,
        }),
    decreases before.len(),
{
    let all = before + seq![geo] + after;
    if before.len() == 0 {
        assert(all[0] == geo);
    } else {
        let rest = before.skip(1);
        assert forall|k: int| 0 <= k < rest.len() implies (#[trigger] rest[k]).key@ != "geo"@ by {
            assert(rest[k] == before[k + 1]);
        }
        law_first_geo_key_counts(rest, geo, after);
        assert(all[0] == before[0]);
        assert(all.skip(1) =~= rest + seq![geo] + after);
    }
}

/// The geometry column is the one that the description names in
/// "primary_column", else "geometry"; without a description there is none.
pub proof fn law_named_column_is_taken(fields: Map<Seq<char>, Json>, name: Seq<char>)
    ensures
        fields.contains_key("primary_column"@) && fields["primary_column"@] == Json::Str(name)
            ==> column_in(Some(Json::Obj(fields))) == Some(name),
        !fields.contains_key("primary_column"@) ==> column_in(Some(Json::Obj(fields))) == Some(
            "geometry"@,
        ),
        column_in(None) is None,
{
}

} // verus!

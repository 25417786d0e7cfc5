//! How far numbers reach.

use crate::float_bits::{lt_f32, max_f32, min_f32, F32_INFINITY, F32_MAX, F32_MIN, F32_NEG_INFINITY};
use crate::gltf_writer::mesh::Vec3;
use vstd::prelude::*;

verus! {

/// One of the three numbers of a vector.
pub open spec fn axis_of(v: Vec3, axis: int) -> u32 {
    if axis == 0 {
        v.x
    } else if axis == 1 {
        v.y
    } else {
        v.z
    }
}

/// The numbers along one axis.
pub open spec fn along(s: Seq<Vec3>, axis: int) -> Seq<u32> {
    Seq::new(s.len(), |i: int| axis_of(s[i], axis))
}

/// The smallest of some numbers; a NaN does not count.
pub open spec fn lowest(s: Seq<u32>) -> u32
    decreases s.len(),
{
    if s.len() == 0 {
        F32_INFINITY
    } else {
        crate::float_bits::f32_min(lowest(s.drop_last()), s.last())
    }
}

/// The largest of some numbers; a NaN does not count.
pub open spec fn highest(s: Seq<u32>) -> u32
    decreases s.len(),
{
    if s.len() == 0 {
        F32_NEG_INFINITY
    } else {
        crate::float_bits::f32_max(highest(s.drop_last()), s.last())
    }
}

/// The first of the smallest numbers, if any lies below the largest finite
/// number.
pub open spec fn lowest_finite(s: Seq<u32>) -> u32
    decreases s.len(),
{
    if s.len() == 0 {
        F32_MAX
    } else if crate::float_bits::f32_lt(s.last(), lowest_finite(s.drop_last())) {
        s.last()
    } else {
        lowest_finite(s.drop_last())
    }
}

/// The first of the largest numbers, if any lies above the smallest finite
/// number.
pub open spec fn highest_finite(s: Seq<u32>) -> u32
    decreases s.len(),
{
    if s.len() == 0 {
        F32_MIN
    } else if crate::float_bits::f32_lt(highest_finite(s.drop_last()), s.last()) {
        s.last()
    } else {
        highest_finite(s.drop_last())
    }
}

/// One of the three numbers of a vector.
fn component(v: &Vec3, axis: u8) -> (r: u32)
    requires
        axis < 3,
    ensures
        r == axis_of(*v, axis as int),
{
    if axis == 0 {
        v.x
    } else if axis == 1 {
        v.y
    } else {
        v.z
    }
}

/// The smallest and the largest number along an axis.
pub(crate) fn extent(s: &[Vec3], a: u8) -> (r: (u32, u32))
    requires
        a < 3,
    ensures
        r.0 == lowest(along(s@, a as int)),
        r.1 == highest(along(s@, a as int)),
{
    let mut low: u32 = F32_INFINITY;
    let mut high: u32 = F32_NEG_INFINITY;
    let ghost all = along(s@, a as int);
    let n: usize = s.len();
    let mut i: usize = 0;
    while i < n
        invariant
            a < 3,
            i <= n,
            n == s@.len(),
            all == along(s@, a as int),
            low == lowest(all.take(i as int)),
            high == highest(all.take(i as int)),
        decreases n - i,
    {
        proof {
            assert(all.take(i + 1).drop_last() =~= all.take(i as int));
        }
        let v: u32 = component(&s[i], a);
        low = min_f32(low, v);
        high = max_f32(high, v);
        i += 1;
    }
    assert(all.take(n as int) =~= all);
    (low, high)
}

/// The smallest and the largest number along an axis, within the finite
/// numbers.
pub(crate) fn finite_extent(s: &[Vec3], a: u8) -> (r: (u32, u32))
    requires
        a < 3,
    ensures
        r.0 == lowest_finite(along(s@, a as int)),
        r.1 == highest_finite(along(s@, a as int)),
{
    let mut low: u32 = F32_MAX;
    let mut high: u32 = F32_MIN;
    let ghost all = along(s@, a as int);
    let n: usize = s.len();
    let mut i: usize = 0;
    while i < n
        invariant
            a < 3,
            i <= n,
            n == s@.len(),
            all == along(s@, a as int),
            low == lowest_finite(all.take(i as int)),
            high == highest_finite(all.take(i as int)),
        decreases n - i,
    {
        proof {
            assert(all.take(i + 1).drop_last() =~= all.take(i as int));
        }
        let v: u32 = component(&s[i], a);
        if lt_f32(v, low) {
            low = v;
        }
        if lt_f32(high, v) {
            high = v;
        }
        i += 1;
    }
    assert(all.take(n as int) =~= all);
    (low, high)
}

/// The smallest of some words, or 0 where there are none.
pub open spec fn smallest(s: Seq<u32>) -> u32
    decreases s.len(),
{
    if s.len() == 0 {
        0
    } else if s.len() == 1 || s.last() < smallest(s.drop_last()) {
        s.last()
    } else {
        smallest(s.drop_last())
    }
}

/// The largest of some words, or 0 where there are none.
pub open spec fn largest(s: Seq<u32>) -> u32
    decreases s.len(),
{
    if s.len() == 0 {
        0
    } else if s.last() > largest(s.drop_last()) {
        s.last()
    } else {
        largest(s.drop_last())
    }
}

/// The smallest and the largest of some words.
pub(crate) fn word_extent(s: &[u32]) -> (r: (u32, u32))
    ensures
        r.0 == smallest(s@),
        r.1 == largest(s@),
{
    let mut low: u32 = 0;
    let mut high: u32 = 0;
    let n: usize = s.len();
    let mut i: usize = 0;
    while i < n
        invariant
            i <= n,
            n == s@.len(),
            low == smallest(s@.take(i as int)),
            high == largest(s@.take(i as int)),
        decreases n - i,
    {
        proof {
            assert(s@.take(i + 1).drop_last() =~= s@.take(i as int));
        }
        if i == 0 || s[i] < low {
            low = s[i];
        }
        if s[i] > high {
            high = s[i];
        }
        i += 1;
    }
    assert(s@.take(n as int) =~= s@);
    (low, high)
}

// -------------------------------------------------------------------- laws

/// None of the numbers is less than the smallest, and none is greater than the
/// largest. Each is one of the numbers, or infinite where no number is finite.
pub proof fn law_extent_is_reached(s: Seq<u32>)
    ensures
        forall|k: int|
            0 <= k < s.len() ==> !crate::float_bits::f32_lt(#[trigger] s[k], lowest(s))
                && !crate::float_bits::f32_lt(highest(s), s[k]),
        s.contains(lowest(s)) || lowest(s) == 0x7f80_0000,
        s.contains(highest(s)) || highest(s) == 0xff80_0000,
        !crate::float_bits::f32_is_nan(lowest(s)),
        !crate::float_bits::f32_is_nan(highest(s)),
    decreases s.len(),
{
    if s.len() > 0 {
        let head = s.drop_last();
        law_extent_is_reached(head);
        assert(s[s.len() - 1] == s.last());
        assert forall|k: int| 0 <= k < s.len() implies !crate::float_bits::f32_lt(
            #[trigger] s[k],
            lowest(s),
        ) && !crate::float_bits::f32_lt(highest(s), s[k]) by {
            if k < head.len() {
                assert(head[k] == s[k]);
            }
        }
        if head.contains(lowest(head)) {
            let k = choose|k: int| 0 <= k < head.len() && head[k] == lowest(head);
            assert(s[k] == lowest(head));
        }
        if head.contains(highest(head)) {
            let k = choose|k: int| 0 <= k < head.len() && head[k] == highest(head);
            assert(s[k] == highest(head));
        }
    }
}

/// None of the numbers is less than the smallest, and none is greater than the
/// largest, within the finite numbers. Each is one of the numbers, or the end of
/// the finite numbers where none lies within.
pub proof fn law_finite_extent_is_reached(s: Seq<u32>)
    ensures
        forall|k: int|
            0 <= k < s.len() ==> !crate::float_bits::f32_lt(#[trigger] s[k], lowest_finite(s))
                && !crate::float_bits::f32_lt(highest_finite(s), s[k]),
        s.contains(lowest_finite(s)) || lowest_finite(s) == 0x7f7f_ffff,
        s.contains(highest_finite(s)) || highest_finite(s) == 0xff7f_ffff,
        !crate::float_bits::f32_is_nan(lowest_finite(s)),
        !crate::float_bits::f32_is_nan(highest_finite(s)),
    decreases s.len(),
{
    if s.len() > 0 {
        let head = s.drop_last();
        law_finite_extent_is_reached(head);
        assert(s[s.len() - 1] == s.last());
        assert forall|k: int| 0 <= k < s.len() implies !crate::float_bits::f32_lt(
            #[trigger] s[k],
            lowest_finite(s),
        ) && !crate::float_bits::f32_lt(highest_finite(s), s[k]) by {
            if k < head.len() {
                assert(head[k] == s[k]);
            }
        }
        if head.contains(lowest_finite(head)) {
            let k = choose|k: int| 0 <= k < head.len() && head[k] == lowest_finite(head);
            assert(s[k] == lowest_finite(head));
        }
        if head.contains(highest_finite(head)) {
            let k = choose|k: int| 0 <= k < head.len() && head[k] == highest_finite(head);
            assert(s[k] == highest_finite(head));
        }
    }
}

/// The smallest and the largest of some words are two of them, and all lie
/// between the two. Where there are none, both are zero.
pub proof fn law_word_extent_is_reached(s: Seq<u32>)
    ensures
        forall|k: int| 0 <= k < s.len() ==> smallest(s) <= #[trigger] s[k] <= largest(s),
        s.len() > 0 ==> s.contains(smallest(s)) && s.contains(largest(s)),
        s.len() == 0 ==> smallest(s) == 0 && largest(s) == 0,
    decreases s.len(),
{
    if s.len() > 0 {
        let head = s.drop_last();
        law_word_extent_is_reached(head);
        assert(s[s.len() - 1] == s.last());
        assert forall|k: int| 0 <= k < s.len() implies smallest(s) <= #[trigger] s[k]
            <= largest(s) by {
            if k < head.len() {
                assert(head[k] == s[k]);
            }
        }
        if head.len() > 0 {
            let i = choose|i: int| 0 <= i < head.len() && head[i] == smallest(head);
            let j = choose|j: int| 0 <= j < head.len() && head[j] == largest(head);
            assert(s[i] == smallest(head) && s[j] == largest(head));
        }
    }
}

/// The numbers along the three axes are the first, the second and the third
/// numbers of the vectors.
pub proof fn law_axes_are_told_apart(s: Seq<Vec3>, i: int)
    requires
        0 <= i < s.len(),
    ensures
        along(s, 0).len() == s.len() && along(s, 1).len() == s.len() && along(s, 2).len()
            == s.len(),
        s[i] == (Vec3 { x: along(s, 0)[i], y: along(s, 1)[i], z: along(s, 2)[i] }),
{
}

} // verus!

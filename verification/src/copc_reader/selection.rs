//! Which chunks a query selects: those that match, and each once.

use crate::copc_reader::octree::{Entry, VoxelKey};
use vstd::prelude::*;

verus! {

/// The voxel `n` levels above a voxel.
pub open spec fn above(key: VoxelKey, n: nat) -> VoxelKey
    decreases n,
{
    if n == 0 {
        key
    } else {
        above(key, (n - 1) as nat).parent()
    }
}

/// Whether a search from `top` can come to a voxel: it lies at or below `top`,
/// and every voxel from there on down to it is known and takes part.
pub open spec fn is_open_to(
    entries: Map<VoxelKey, Entry>,
    inside: spec_fn(VoxelKey) -> bool,
    top: VoxelKey,
    key: VoxelKey,
) -> bool {
    &&& top.level <= key.level
    &&& above(key, (key.level - top.level) as nat) == top
    &&& forall|n: nat|
        n <= key.level - top.level ==> entries.contains_key(#[trigger] above(key, n)) && inside(
            above(key, n),
        )
}

proof fn lemma_level_above(key: VoxelKey, n: nat)
    requires
        key.level - n >= i32::MIN,
    ensures
        above(key, n).level == key.level - n,
    decreases n,
{
    if n > 0 {
        lemma_level_above(key, (n - 1) as nat);
    }
}

/// What is found below a child is found below the voxel.
proof fn lemma_found_below_child(
    entries: Map<VoxelKey, Entry>,
    level_min: i32,
    level_max: i32,
    inside: spec_fn(VoxelKey) -> bool,
    key: VoxelKey,
    dir: int,
    n: int,
    entry: Entry,
)
    requires
        0 <= dir < n <= 8,
        key.level < level_max,
        crate::copc_reader::query::chunks_below(
            entries,
            level_min,
            level_max,
            inside,
            key.child(dir),
        ).contains(entry),
    ensures
        crate::copc_reader::query::chunks_of_children(
            entries,
            level_min,
            level_max,
            inside,
            key,
            n,
        ).contains(entry),
    decreases n,
{
    let first = crate::copc_reader::query::chunks_below(
        entries,
        level_min,
        level_max,
        inside,
        key.child(n - 1),
    );
    let rest = crate::copc_reader::query::chunks_of_children(
        entries,
        level_min,
        level_max,
        inside,
        key,
        n - 1,
    );
    if dir == n - 1 {
        let i = choose|i: int| 0 <= i < first.len() && first[i] == entry;
        assert((first + rest)[i] == entry);
    } else {
        lemma_found_below_child(
            entries,
            level_min,
            level_max,
            inside,
            key,
            dir,
            n - 1,
            entry,
        );
        let i = choose|i: int| 0 <= i < rest.len() && rest[i] == entry;
        assert((first + rest)[first.len() + i] == entry);
    }
}

/// The search for a chunk goes from a voxel `n` levels above it.
proof fn lemma_found_from_above(
    entries: Map<VoxelKey, Entry>,
    level_min: i32,
    level_max: i32,
    inside: spec_fn(VoxelKey) -> bool,
    key: VoxelKey,
    n: nat,
)
    requires
        entries[key].point_count > 0,
        level_min <= key.level < level_max,
        key.level - n >= i32::MIN,
        forall|k: nat|
            k <= n ==> entries.contains_key(#[trigger] above(key, k)) && inside(above(key, k)),
    ensures
        crate::copc_reader::query::chunks_below(
            entries,
            level_min,
            level_max,
            inside,
            above(key, n),
        ).contains(entries[key]),
    decreases n,
{
    let top = above(key, n);
    let own = crate::copc_reader::query::own_chunk(entries, level_min, top);
    let rest = crate::copc_reader::query::chunks_of_children(
        entries,
        level_min,
        level_max,
        inside,
        top,
        8,
    );
    lemma_level_above(key, n);
    assert(entries.contains_key(top) && inside(top));
    if n == 0 {
        assert((own + rest)[0] == entries[key]);
    } else {
        let below = above(key, (n - 1) as nat);
        lemma_level_above(key, (n - 1) as nat);
        lemma_found_from_above(entries, level_min, level_max, inside, key, (n - 1) as nat);
        crate::copc_reader::octree::law_voxel_is_child_of_its_parent(below);
        assert(top.child(below.direction()) == below);
        lemma_found_below_child(
            entries,
            level_min,
            level_max,
            inside,
            top,
            below.direction(),
            8,
            entries[key],
        );
        let i = choose|i: int| 0 <= i < rest.len() && rest[i] == entries[key];
        assert((own + rest)[own.len() + i] == entries[key]);
    }
}

/// A query selects every chunk that matches: it has points, its level is asked
/// for, and every voxel from the root down to it is known and takes part.
pub proof fn law_query_selects_all_matching_chunks(
    entries: Map<VoxelKey, Entry>,
    level_min: i32,
    level_max: i32,
    inside: spec_fn(VoxelKey) -> bool,
    key: VoxelKey,
)
    requires
        entries[key].point_count > 0,
        level_min <= key.level < level_max,
        is_open_to(entries, inside, crate::copc_reader::query::root(), key),
    ensures
        crate::copc_reader::query::chunks_below(
            entries,
            level_min,
            level_max,
            inside,
            crate::copc_reader::query::root(),
        ).contains(entries[key]),
{
    lemma_found_from_above(entries, level_min, level_max, inside, key, key.level as nat);
}

// ------------------------------------------------------------- only once

/// Whether every entry is filed under its own voxel.
pub open spec fn filed_by_key(entries: Map<VoxelKey, Entry>) -> bool {
    forall|key: VoxelKey| #[trigger] entries.contains_key(key) ==> entries[key].key == key
}

/// Whether no voxel that a search can come to lies so deep that its address
/// would no longer tell its parent.
pub open spec fn levels_are_told(entries: Map<VoxelKey, Entry>, level_max: i32) -> bool {
    forall|key: VoxelKey| #[trigger]
        entries.contains_key(key) && key.level < level_max ==> key.level <= 32
}

/// How many voxels there are in a row at a level.
pub open spec fn row_length(level: nat) -> int
    decreases level,
{
    if level == 0 {
        1
    } else {
        2 * row_length((level - 1) as nat)
    }
}

/// Whether the coordinates of a voxel are in the range of its level, as far as
/// that range fits 31 bits.
pub open spec fn in_range(key: VoxelKey) -> bool {
    &&& 0 <= key.level
    &&& key.level <= 31 ==> {
        &&& 0 <= key.x < row_length(key.level as nat)
        &&& 0 <= key.y < row_length(key.level as nat)
        &&& 0 <= key.z < row_length(key.level as nat)
    }
}

proof fn lemma_row_lengths(level: nat)
    requires
        level <= 30,
    ensures
        1 <= row_length(level) <= 0x4000_0000,
{
    reveal_with_fuel(row_length, 32);
}

proof fn lemma_child_in_range(key: VoxelKey, dir: int)
    requires
        in_range(key),
        key.level < i32::MAX,
        0 <= dir < 8,
    ensures
        in_range(key.child(dir)),
{
    if key.level <= 30 {
        lemma_row_lengths(key.level as nat);
        crate::copc_reader::octree::lemma_finer(key.x, (dir % 2) as i32);
        crate::copc_reader::octree::lemma_finer(key.y, (dir / 2 % 2) as i32);
        crate::copc_reader::octree::lemma_finer(key.z, (dir / 4 % 2) as i32);
        assert(row_length((key.level + 1) as nat) == 2 * row_length(key.level as nat));
    }
}

/// Whether an entry is filed, and lies at or below a voxel.
pub open spec fn lies_below(
    entries: Map<VoxelKey, Entry>,
    top: VoxelKey,
    entry: Entry,
) -> bool {
    &&& entries.contains_key(entry.key)
    &&& entries[entry.key] == entry
    &&& top.level <= entry.key.level
    &&& above(entry.key, (entry.key.level - top.level) as nat) == top
}

/// Whether an entry lies below one of the first `n` children of a voxel.
pub open spec fn lies_below_child(
    entries: Map<VoxelKey, Entry>,
    top: VoxelKey,
    n: int,
    entry: Entry,
) -> bool {
    exists|dir: int| 0 <= dir < n && #[trigger] lies_below(entries, top.child(dir), entry)
}

proof fn lemma_below_child_is_below(
    entries: Map<VoxelKey, Entry>,
    top: VoxelKey,
    dir: int,
    entry: Entry,
)
    requires
        0 <= dir < 8,
        in_range(top),
        top.level <= 31,
        lies_below(entries, top.child(dir), entry),
    ensures
        lies_below(entries, top, entry),
        top.level < entry.key.level,
{
    assert(top.x >= 0 && top.y >= 0 && top.z >= 0);
    crate::copc_reader::octree::law_child_has_parent(top, dir);
    let n = (entry.key.level - top.level) as nat;
    assert(above(entry.key, n) == above(entry.key, (n - 1) as nat).parent());
}

proof fn lemma_no_duplicates_add(a: Seq<Entry>, b: Seq<Entry>)
    requires
        a.no_duplicates(),
        b.no_duplicates(),
        forall|i: int, j: int|
            0 <= i < a.len() && 0 <= j < b.len() ==> #[trigger] a[i] != #[trigger] b[j],
    ensures
        (a + b).no_duplicates(),
{
    let c = a + b;
    assert forall|i: int, j: int| 0 <= i < c.len() && 0 <= j < c.len() && i != j implies c[i]
        != c[j] by {
        if i < a.len() && j >= a.len() {
            assert(a[i] != b[j - a.len()]);
        }
        if j < a.len() && i >= a.len() {
            assert(a[j] != b[i - a.len()]);
        }
    }
}

/// What is found below a voxel lies there, and is found once.
proof fn lemma_found_once(
    entries: Map<VoxelKey, Entry>,
    level_min: i32,
    level_max: i32,
    inside: spec_fn(VoxelKey) -> bool,
    key: VoxelKey,
)
    requires
        filed_by_key(entries),
        levels_are_told(entries, level_max),
        in_range(key),
    ensures
        ({
            let found = crate::copc_reader::query::chunks_below(
                entries,
                level_min,
                level_max,
                inside,
                key,
            );
            &&& found.no_duplicates()
            &&& forall|i: int|
                0 <= i < found.len() ==> lies_below(entries, key, #[trigger] found[i])
        }),
    decreases level_max - key.level, 9int,
{
    let found = crate::copc_reader::query::chunks_below(
        entries,
        level_min,
        level_max,
        inside,
        key,
    );
    if crate::copc_reader::query::is_candidate(entries, level_max, key) && inside(key) {
        let own = crate::copc_reader::query::own_chunk(entries, level_min, key);
        let rest = crate::copc_reader::query::chunks_of_children(
            entries,
            level_min,
            level_max,
            inside,
            key,
            8,
        );
        lemma_children_found_once(entries, level_min, level_max, inside, key, 8);
        assert(entries[key].key == key);
        assert(lies_below(entries, key, entries[key]));
        assert forall|i: int| 0 <= i < rest.len() implies lies_below(entries, key, rest[i])
            && key.level < (#[trigger] rest[i]).key.level by {
            assert(lies_below_child(entries, key, 8, rest[i]));
            let dir = choose|dir: int|
                0 <= dir < 8 && #[trigger] lies_below(entries, key.child(dir), rest[i]);
            if key.level <= 31 {
                lemma_below_child_is_below(entries, key, dir, rest[i]);
            } else {
                assert(entries.contains_key(rest[i].key));
                lemma_deepest_has_no_children(
                    entries,
                    level_min,
                    level_max,
                    inside,
                    key,
                    8,
                );
            }
        }
        lemma_no_duplicates_add(own, rest);
        assert forall|i: int| 0 <= i < found.len() implies lies_below(
            entries,
            key,
            #[trigger] found[i],
        ) by {
            if i >= own.len() {
                assert(found[i] == rest[i - own.len()]);
            }
        }
    }
}

/// Nothing is found below the deepest level that an address can tell.
proof fn lemma_deepest_has_no_children(
    entries: Map<VoxelKey, Entry>,
    level_min: i32,
    level_max: i32,
    inside: spec_fn(VoxelKey) -> bool,
    key: VoxelKey,
    n: int,
)
    requires
        levels_are_told(entries, level_max),
        key.level >= 32,
        key.level < level_max,
        0 <= n <= 8,
    ensures
        crate::copc_reader::query::chunks_of_children(
            entries,
            level_min,
            level_max,
            inside,
            key,
            n,
        ).len() == 0,
    decreases n,
{
    if n > 0 {
        lemma_deepest_has_no_children(entries, level_min, level_max, inside, key, n - 1);
        let child = key.child(n - 1);
        assert(child.level == key.level + 1);
        assert(!crate::copc_reader::query::is_candidate(entries, level_max, child));
        assert(crate::copc_reader::query::chunks_below(
            entries,
            level_min,
            level_max,
            inside,
            child,
        ).len() == 0);
    }
}

proof fn lemma_children_found_once(
    entries: Map<VoxelKey, Entry>,
    level_min: i32,
    level_max: i32,
    inside: spec_fn(VoxelKey) -> bool,
    key: VoxelKey,
    n: int,
)
    requires
        filed_by_key(entries),
        levels_are_told(entries, level_max),
        in_range(key),
        key.level < level_max,
        0 <= n <= 8,
    ensures
        ({
            let found = crate::copc_reader::query::chunks_of_children(
                entries,
                level_min,
                level_max,
                inside,
                key,
                n,
            );
            &&& found.no_duplicates()
            &&& forall|i: int|
                0 <= i < found.len() ==> lies_below_child(entries, key, n, #[trigger] found[i])
        }),
    decreases level_max - key.level, n,
{
    let found = crate::copc_reader::query::chunks_of_children(
        entries,
        level_min,
        level_max,
        inside,
        key,
        n,
    );
    if n > 0 {
        let child = key.child(n - 1);
        let first = crate::copc_reader::query::chunks_below(
            entries,
            level_min,
            level_max,
            inside,
            child,
        );
        let rest = crate::copc_reader::query::chunks_of_children(
            entries,
            level_min,
            level_max,
            inside,
            key,
            n - 1,
        );
        lemma_child_in_range(key, n - 1);
        lemma_found_once(entries, level_min, level_max, inside, child);
        lemma_children_found_once(entries, level_min, level_max, inside, key, n - 1);
        assert forall|i: int, j: int|
            0 <= i < first.len() && 0 <= j < rest.len() implies #[trigger] first[i]
            != #[trigger] rest[j] by {
            assert(lies_below(entries, child, first[i]));
            assert(lies_below_child(entries, key, n - 1, rest[j]));
            let dir = choose|dir: int|
                0 <= dir < n - 1 && #[trigger] lies_below(entries, key.child(dir), rest[j]);
            if first[i] == rest[j] {
                assert(key.child(dir) == child);
                crate::copc_reader::octree::law_children_are_distinct(key, dir, n - 1);
            }
        }
        lemma_no_duplicates_add(first, rest);
        assert forall|i: int| 0 <= i < found.len() implies lies_below_child(
            entries,
            key,
            n,
            #[trigger] found[i],
        ) by {
            if i < first.len() {
                assert(lies_below(entries, key.child(n - 1), first[i]));
            } else {
                assert(lies_below_child(entries, key, n - 1, rest[i - first.len()]));
                let dir = choose|dir: int|
                    0 <= dir < n - 1 && #[trigger] lies_below(
                        entries,
                        key.child(dir),
                        rest[i - first.len()],
                    );
                assert(lies_below(entries, key.child(dir), found[i]));
            }
        }
    }
}

/// A query selects no chunk twice, where the entries are filed under their own
/// voxels and no level is deeper than an address can tell.
pub proof fn law_query_selects_chunks_once(
    entries: Map<VoxelKey, Entry>,
    level_min: i32,
    level_max: i32,
    inside: spec_fn(VoxelKey) -> bool,
)
    requires
        filed_by_key(entries),
        levels_are_told(entries, level_max),
    ensures
        crate::copc_reader::query::chunks_below(
            entries,
            level_min,
            level_max,
            inside,
            crate::copc_reader::query::root(),
        ).no_duplicates(),
{
    assert(in_range(crate::copc_reader::query::root()));
    lemma_found_once(
        entries,
        level_min,
        level_max,
        inside,
        crate::copc_reader::query::root(),
    );
}

// ------------------------------------------------------------ only matches

/// Whether an entry is that of a chunk that a search from `top` is after: it
/// has points, its level is asked for, and every voxel from `top` down to it is
/// known and takes part.
pub open spec fn is_match(
    entries: Map<VoxelKey, Entry>,
    level_min: i32,
    level_max: i32,
    inside: spec_fn(VoxelKey) -> bool,
    top: VoxelKey,
    entry: Entry,
) -> bool {
    exists|key: VoxelKey|
        {
            &&& #[trigger] is_open_to(entries, inside, top, key)
            &&& entries[key] == entry
            &&& entry.point_count > 0
            &&& level_min <= key.level < level_max
        }
}

/// What a search from a child is after, a search from the voxel is after.
proof fn lemma_match_from_above(
    entries: Map<VoxelKey, Entry>,
    level_min: i32,
    level_max: i32,
    inside: spec_fn(VoxelKey) -> bool,
    top: VoxelKey,
    dir: int,
    entry: Entry,
)
    requires
        0 <= dir < 8,
        in_range(top),
        top.level <= 31,
        entries.contains_key(top),
        inside(top),
        is_match(entries, level_min, level_max, inside, top.child(dir), entry),
    ensures
        is_match(entries, level_min, level_max, inside, top, entry),
{
    let child = top.child(dir);
    let key = choose|key: VoxelKey|
        {
            &&& #[trigger] is_open_to(entries, inside, child, key)
            &&& entries[key] == entry
            &&& entry.point_count > 0
            &&& level_min <= key.level < level_max
        };
    assert(top.x >= 0 && top.y >= 0 && top.z >= 0);
    crate::copc_reader::octree::law_child_has_parent(top, dir);
    let n = (key.level - top.level) as nat;
    assert(above(key, n) == above(key, (n - 1) as nat).parent());
    assert forall|k: nat| k <= n implies entries.contains_key(#[trigger] above(key, k)) && inside(
        above(key, k),
    ) by {
        if k < n {
            assert(k <= key.level - child.level);
        }
    }
    assert(is_open_to(entries, inside, top, key));
}

proof fn lemma_found_matches(
    entries: Map<VoxelKey, Entry>,
    level_min: i32,
    level_max: i32,
    inside: spec_fn(VoxelKey) -> bool,
    key: VoxelKey,
    i: int,
)
    requires
        levels_are_told(entries, level_max),
        in_range(key),
        0 <= i < crate::copc_reader::query::chunks_below(
            entries,
            level_min,
            level_max,
            inside,
            key,
        ).len(),
    ensures
        is_match(
            entries,
            level_min,
            level_max,
            inside,
            key,
            crate::copc_reader::query::chunks_below(
                entries,
                level_min,
                level_max,
                inside,
                key,
            )[i],
        ),
    decreases level_max - key.level, 9int,
{
    let own = crate::copc_reader::query::own_chunk(entries, level_min, key);
    if i < own.len() {
        assert forall|n: nat| n <= 0 implies entries.contains_key(#[trigger] above(key, n))
            && inside(above(key, n)) by {}
        assert(is_open_to(entries, inside, key, key));
    } else {
        lemma_children_found_match(
            entries,
            level_min,
            level_max,
            inside,
            key,
            8,
            i - own.len(),
        );
    }
}

proof fn lemma_children_found_match(
    entries: Map<VoxelKey, Entry>,
    level_min: i32,
    level_max: i32,
    inside: spec_fn(VoxelKey) -> bool,
    key: VoxelKey,
    n: int,
    i: int,
)
    requires
        levels_are_told(entries, level_max),
        in_range(key),
        crate::copc_reader::query::is_candidate(entries, level_max, key),
        inside(key),
        0 <= n <= 8,
        0 <= i < crate::copc_reader::query::chunks_of_children(
            entries,
            level_min,
            level_max,
            inside,
            key,
            n,
        ).len(),
    ensures
        is_match(
            entries,
            level_min,
            level_max,
            inside,
            key,
            crate::copc_reader::query::chunks_of_children(
                entries,
                level_min,
                level_max,
                inside,
                key,
                n,
            )[i],
        ),
    decreases level_max - key.level, n,
{
    if key.level >= 32 {
        lemma_deepest_has_no_children(entries, level_min, level_max, inside, key, n);
    } else if n > 0 {
        let child = key.child(n - 1);
        let first = crate::copc_reader::query::chunks_below(
            entries,
            level_min,
            level_max,
            inside,
            child,
        );
        if i < first.len() {
            lemma_child_in_range(key, n - 1);
            lemma_found_matches(entries, level_min, level_max, inside, child, i);
            lemma_match_from_above(
                entries,
                level_min,
                level_max,
                inside,
                key,
                n - 1,
                first[i],
            );
        } else {
            lemma_children_found_match(
                entries,
                level_min,
                level_max,
                inside,
                key,
                n - 1,
                i - first.len(),
            );
        }
    }
}

/// A query selects a chunk only if it matches, where no level is deeper than an
/// address can tell: for every chunk that is found from the root there is a
/// voxel that has this entry, with points and at a level that is asked for, and
/// every voxel from the root down to it is known and takes part.
pub proof fn law_query_selects_only_matching_chunks(
    entries: Map<VoxelKey, Entry>,
    level_min: i32,
    level_max: i32,
    inside: spec_fn(VoxelKey) -> bool,
    i: int,
)
    requires
        levels_are_told(entries, level_max),
        0 <= i < crate::copc_reader::query::chunks_below(
            entries,
            level_min,
            level_max,
            inside,
            crate::copc_reader::query::root(),
        ).len(),
    ensures
        is_match(
            entries,
            level_min,
            level_max,
            inside,
            crate::copc_reader::query::root(),
            crate::copc_reader::query::chunks_below(
                entries,
                level_min,
                level_max,
                inside,
                crate::copc_reader::query::root(),
            )[i],
        ),
{
    assert(in_range(crate::copc_reader::query::root()));
    lemma_found_matches(
        entries,
        level_min,
        level_max,
        inside,
        crate::copc_reader::query::root(),
        i,
    );
}

// ------------------------------------------------------------------ the root

proof fn lemma_above_in_range(key: VoxelKey, n: nat)
    requires
        n <= key.level,
        0 <= key.x < vstd::arithmetic::power2::pow2(key.level as nat),
        0 <= key.y < vstd::arithmetic::power2::pow2(key.level as nat),
        0 <= key.z < vstd::arithmetic::power2::pow2(key.level as nat),
    ensures
        ({
            let a = above(key, n);
            let row = vstd::arithmetic::power2::pow2((key.level - n) as nat);
            &&& a.level == key.level - n
            &&& 0 <= a.x < row
            &&& 0 <= a.y < row
            &&& 0 <= a.z < row
        }),
    decreases n,
{
    if n > 0 {
        lemma_above_in_range(key, (n - 1) as nat);
        let a = above(key, (n - 1) as nat);
        crate::copc_reader::octree::law_parents_have_half_the_coordinates(a);
        vstd::arithmetic::power2::lemma_pow2_unfold((key.level - n + 1) as nat);
    }
}

/// Every voxel lies below the root: a voxel of level `n`, whose coordinates are
/// less than `2^n`, has the voxel of level zero at zero, zero, zero above it.
pub proof fn law_root_holds_everything(key: VoxelKey)
    requires
        0 <= key.level,
        0 <= key.x < vstd::arithmetic::power2::pow2(key.level as nat),
        0 <= key.y < vstd::arithmetic::power2::pow2(key.level as nat),
        0 <= key.z < vstd::arithmetic::power2::pow2(key.level as nat),
    ensures
        above(key, key.level as nat) == crate::copc_reader::query::root(),
        above(key, key.level as nat) == (VoxelKey { level: 0, x: 0, y: 0, z: 0 }),
{
    lemma_above_in_range(key, key.level as nat);
    vstd::arithmetic::power2::lemma2_to64();
}

} // verus!

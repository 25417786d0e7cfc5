//! Which chunks of points a query reads.

use crate::copc_reader::hierarchy::Hierarchy;
use crate::copc_reader::octree::{Entry, VoxelKey};
use crate::copc_reader::sorting::sort_by_falling_offset;
use crate::copc_reader::CopcError;
use crate::float_bits::lt_f64;
use vstd::prelude::*;

verus! {

// ------------------------------------------------------------------ levels

/// How much detail a query asks for.
#[derive(Clone, Copy, Debug, PartialEq, Eq, Structural)]
pub enum LodSelection {
    /// Every level.
    All,
    /// The levels down to this spacing of points, a double given by its bits.
    Resolution(u64),
    /// A single level.
    Level(i32),
    /// The levels from the first number up to, and without, the second.
    LevelMinMax(i32, i32),
}

/// A resolution is usable when it is a positive normal number.
pub open spec fn usable_resolution(bits: u64) -> bool {
    crate::float_bits::f64_is_normal(bits) && crate::float_bits::f64_is_sign_positive(bits)
}

impl LodSelection {
    /// The levels that are asked for: from the first number up to, and
    /// without, the second. `halvings` is how often the spacing of the root
    /// level has to be halved to reach the resolution, rounded up.
    pub open spec fn levels(self, halvings: i32) -> Result<(i32, i32), CopcError> {
        match self {
            LodSelection::All => Ok((0, i32::MAX)),
            LodSelection::Resolution(bits) => if usable_resolution(bits) {
                Ok(
                    (
                        0,
                        if halvings < 0 {
                            1
                        } else {
                            (halvings + 1) as i32
                        },
                    ),
                )
            } else {
                Err(CopcError::InvalidResolution(bits))
            },
            LodSelection::Level(level) => Ok((level, (level + 1) as i32)),
            LodSelection::LevelMinMax(min, max) => Ok((min, max)),
        }
    }

    /// Whether the end of the range of levels can be counted.
    pub open spec fn can_count(self, halvings: i32) -> bool {
        match self {
            LodSelection::Resolution(bits) => usable_resolution(bits) ==> halvings < i32::MAX,
            LodSelection::Level(level) => level < i32::MAX,
            _ => true,
        }
    }

    /// The range of levels that is asked for.
    pub fn level_range(&self, halvings: i32) -> (r: Result<(i32, i32), CopcError>)
        requires
            self.can_count(halvings),
        ensures
            r == self.levels(halvings),
    {
        match *self {
            LodSelection::All => Ok((0, i32::MAX)),
            LodSelection::Resolution(bits) => {
                if !(0x0010_0000_0000_0000 <= bits && bits < 0x7ff0_0000_0000_0000) {
                    return Err(CopcError::InvalidResolution(bits));
                }
                if halvings < 0 {
                    Ok((0, 1))
                } else {
                    Ok((0, halvings + 1))
                }
            },
            LodSelection::Level(level) => Ok((level, level + 1)),
            LodSelection::LevelMinMax(min, max) => Ok((min, max)),
        }
    }
}

/// A resolution that is reached by halving the spacing some times asks for as
/// many levels and one more; one that the root level reaches asks for that
/// level alone. Resolutions that are not positive normal numbers are errors.
pub proof fn law_resolution_asks_for_levels(bits: u64, halvings: i32)
    requires
        usable_resolution(bits) ==> halvings < i32::MAX,
    ensures
        ({
            let levels = LodSelection::Resolution(bits).levels(halvings);
            &&& usable_resolution(bits) && halvings >= 0 ==> levels == LodSelection::LevelMinMax(
                0,
                (halvings + 1) as i32,
            ).levels(halvings)
            &&& usable_resolution(bits) && halvings <= 0 ==> levels == LodSelection::LevelMinMax(
                0,
                1,
            ).levels(halvings)
            &&& !usable_resolution(bits) ==> levels == Err::<(i32, i32), CopcError>(
                CopcError::InvalidResolution(bits),
            )
        }),
{
}

// ------------------------------------------------------------------ bounds

/// A box whose six sides are doubles, given by their bits.
#[derive(Clone, Copy, Debug, PartialEq, Eq, Structural)]
pub struct Bounds {
    pub min_x: u64,
    pub min_y: u64,
    pub min_z: u64,
    pub max_x: u64,
    pub max_y: u64,
    pub max_z: u64,
}

/// The part of space that a query asks for.
#[derive(Clone, Copy, Debug, PartialEq, Eq, Structural)]
pub enum BoundsSelection {
    /// All of it.
    All,
    /// What lies in a box.
    Within(Bounds),
}

/// Two boxes intersect unless one lies wholly to one side of the other.
/// Boxes that touch intersect.
pub open spec fn boxes_intersect(a: Bounds, b: Bounds) -> bool {
    !(crate::float_bits::f64_lt(a.max_x, b.min_x) || crate::float_bits::f64_lt(a.max_y, b.min_y)
        || crate::float_bits::f64_lt(a.max_z, b.min_z) || crate::float_bits::f64_lt(
        b.max_x,
        a.min_x,
    ) || crate::float_bits::f64_lt(b.max_y, a.min_y) || crate::float_bits::f64_lt(
        b.max_z,
        a.min_z,
    ))
}

/// Whether two boxes intersect.
pub fn bounds_intersect(a: &Bounds, b: &Bounds) -> (r: bool)
    ensures
        r == boxes_intersect(*a, *b),
{
    !(lt_f64(a.max_x, b.min_x) || lt_f64(a.max_y, b.min_y) || lt_f64(a.max_z, b.min_z) || lt_f64(
        b.max_x,
        a.min_x,
    ) || lt_f64(b.max_y, a.min_y) || lt_f64(b.max_z, a.min_z))
}

/// It does not matter in which order two boxes are named.
pub proof fn law_intersection_is_symmetric(a: Bounds, b: Bounds)
    ensures
        boxes_intersect(a, b) == boxes_intersect(b, a),
{
}

impl BoundsSelection {
    /// Whether a voxel with the given bounds takes part in the query.
    pub open spec fn admits(self, node: Bounds) -> bool {
        match self {
            BoundsSelection::All => true,
            BoundsSelection::Within(bounds) => boxes_intersect(node, bounds),
        }
    }

    /// Whether a voxel with the given bounds takes part in the query.
    pub fn admits_node(&self, node: &Bounds) -> (r: bool)
        ensures
            r == self.admits(*node),
    {
        match self {
            BoundsSelection::All => true,
            BoundsSelection::Within(bounds) => bounds_intersect(node, bounds),
        }
    }
}

// --------------------------------------------------------------- traversal

/// The voxel that holds everything.
pub open spec fn root() -> VoxelKey {
    VoxelKey { level: 0, x: 0, y: 0, z: 0 }
}

/// The entry of a voxel, if it has points and its level is asked for.
pub open spec fn own_chunk(
    entries: Map<VoxelKey, Entry>,
    level_min: i32,
    key: VoxelKey,
) -> Seq<Entry> {
    if entries[key].point_count > 0 && level_min <= key.level {
        seq![entries[key]]
    } else {
        Seq::empty()
    }
}

/// Whether the search goes on below a voxel: its level is above the end of the
/// range, and the hierarchy knows it.
pub open spec fn is_candidate(entries: Map<VoxelKey, Entry>, level_max: i32, key: VoxelKey) -> bool {
    key.level < level_max && entries.contains_key(key)
}

/// The chunks of a voxel and of all voxels below it, parents before children
/// and later children before earlier ones. Nothing below a voxel that is not
/// `inside` is looked at.
pub open spec fn chunks_below(
    entries: Map<VoxelKey, Entry>,
    level_min: i32,
    level_max: i32,
    inside: spec_fn(VoxelKey) -> bool,
    key: VoxelKey,
) -> Seq<Entry>
    decreases level_max - key.level, 9int,
{
    if is_candidate(entries, level_max, key) && inside(key) {
        own_chunk(entries, level_min, key) + chunks_of_children(
            entries,
            level_min,
            level_max,
            inside,
            key,
            8,
        )
    } else {
        Seq::empty()
    }
}

/// The chunks below the first `n` children of a voxel, the last of them first.
pub open spec fn chunks_of_children(
    entries: Map<VoxelKey, Entry>,
    level_min: i32,
    level_max: i32,
    inside: spec_fn(VoxelKey) -> bool,
    key: VoxelKey,
    n: int,
) -> Seq<Entry>
    decreases level_max - key.level, n,
{
    if n <= 0 || n > 8 || key.level >= level_max {
        Seq::empty()
    } else {
        chunks_below(entries, level_min, level_max, inside, key.child(n - 1)) + chunks_of_children(
            entries,
            level_min,
            level_max,
            inside,
            key,
            n - 1,
        )
    }
}

/// The chunks below the voxels on a stack, top first.
pub open spec fn chunks_of_stack(
    entries: Map<VoxelKey, Entry>,
    level_min: i32,
    level_max: i32,
    inside: spec_fn(VoxelKey) -> bool,
    stack: Seq<VoxelKey>,
) -> Seq<Entry>
    decreases stack.len(),
{
    if stack.len() == 0 {
        Seq::empty()
    } else {
        chunks_below(entries, level_min, level_max, inside, stack.last()) + chunks_of_stack(
            entries,
            level_min,
            level_max,
            inside,
            stack.drop_last(),
        )
    }
}

/// Putting the first `n` children of a voxel on a stack puts their chunks
/// before those of the stack.
proof fn lemma_children_on_stack(
    entries: Map<VoxelKey, Entry>,
    level_min: i32,
    level_max: i32,
    inside: spec_fn(VoxelKey) -> bool,
    stack: Seq<VoxelKey>,
    key: VoxelKey,
    n: int,
)
    requires
        0 <= n <= 8,
        key.level < level_max,
    ensures
        chunks_of_stack(
            entries,
            level_min,
            level_max,
            inside,
            stack + Seq::new(n as nat, |dir: int| key.child(dir)),
        ) == chunks_of_children(entries, level_min, level_max, inside, key, n) + chunks_of_stack(
            entries,
            level_min,
            level_max,
            inside,
            stack,
        ),
    decreases n,
{
    let children = Seq::new(n as nat, |dir: int| key.child(dir));
    if n == 0 {
        assert(stack + children =~= stack);
        assert(chunks_of_children(entries, level_min, level_max, inside, key, n) =~= Seq::<
            Entry,
        >::empty());
        assert(Seq::<Entry>::empty() + chunks_of_stack(
            entries,
            level_min,
            level_max,
            inside,
            stack,
        ) =~= chunks_of_stack(entries, level_min, level_max, inside, stack));
    } else {
        let fewer = Seq::new((n - 1) as nat, |dir: int| key.child(dir));
        assert((stack + children).drop_last() =~= stack + fewer);
        assert((stack + children).last() == key.child(n - 1));
        lemma_children_on_stack(entries, level_min, level_max, inside, stack, key, n - 1);
        assert(chunks_of_stack(entries, level_min, level_max, inside, stack + children)
            =~= chunks_of_children(entries, level_min, level_max, inside, key, n)
            + chunks_of_stack(entries, level_min, level_max, inside, stack));
    }
}

/// A search through the octree. It hands out the voxels whose place in space
/// has to be looked at, one by one, and is told of each whether it takes part.
pub struct OctreeQuery {
    level_min: i32,
    level_max: i32,
    stack: Vec<VoxelKey>,
    found: Vec<Entry>,
    asking: Option<VoxelKey>,
}

impl OctreeQuery {
    /// The voxel that has been handed out and not been answered for.
    pub closed spec fn open_question(self) -> Option<VoxelKey> {
        self.asking
    }

    /// The range of levels.
    pub closed spec fn range(self) -> (i32, i32) {
        (self.level_min, self.level_max)
    }

    /// Whether nothing is left to look at.
    pub closed spec fn exhausted(self) -> bool {
        self.stack@.len() == 0 && self.asking is None
    }

    /// What the whole search finds, where the voxels that take part are those
    /// `inside`.
    pub closed spec fn outcome(
        self,
        entries: Map<VoxelKey, Entry>,
        inside: spec_fn(VoxelKey) -> bool,
    ) -> Seq<Entry> {
        self.found@ + (match self.asking {
            Some(key) => chunks_below(entries, self.level_min, self.level_max, inside, key),
            None => Seq::empty(),
        }) + chunks_of_stack(entries, self.level_min, self.level_max, inside, self.stack@)
    }

    /// Starts a search at the root.
    pub fn new(level_min: i32, level_max: i32) -> (r: OctreeQuery)
        ensures
            r.open_question() is None,
            r.range() == (level_min, level_max),
            forall|entries: Map<VoxelKey, Entry>, inside: spec_fn(VoxelKey) -> bool| #[trigger]
                r.outcome(entries, inside) == chunks_below(
                    entries,
                    level_min,
                    level_max,
                    inside,
                    root(),
                ),
    {
        let stack: Vec<VoxelKey> = vec![VoxelKey { level: 0, x: 0, y: 0, z: 0 }];
        let r = OctreeQuery { level_min, level_max, stack, found: Vec::new(), asking: None };
        proof {
            assert forall|entries: Map<VoxelKey, Entry>, inside: spec_fn(VoxelKey) -> bool| #[trigger]
                r.outcome(entries, inside) == chunks_below(
                    entries,
                    level_min,
                    level_max,
                    inside,
                    root(),
                ) by {
                assert(r.stack@.last() == root());
                assert(r.stack@.drop_last() =~= Seq::<VoxelKey>::empty());
                assert(chunks_of_stack(
                    entries,
                    level_min,
                    level_max,
                    inside,
                    r.stack@.drop_last(),
                ) == Seq::<Entry>::empty());
                assert(r.outcome(entries, inside) =~= chunks_below(
                    entries,
                    level_min,
                    level_max,
                    inside,
                    root(),
                ));
            }
        }
        r
    }

    /// The next voxel whose place in space has to be looked at.
    pub fn next_node(&mut self, hierarchy: &Hierarchy) -> (r: Option<VoxelKey>)
        requires
            old(self).open_question() is None,
        ensures
            r == final(self).open_question(),
            r matches Some(key) ==> is_candidate(hierarchy@, old(self).range().1, key),
            r is None ==> final(self).exhausted(),
            final(self).range() == old(self).range(),
            forall|inside: spec_fn(VoxelKey) -> bool| #[trigger]
                final(self).outcome(hierarchy@, inside) == old(self).outcome(hierarchy@, inside),
            final(self).ahead(hierarchy@) <= old(self).ahead(hierarchy@),
    {
        while self.stack.len() > 0
            invariant
                self.open_question() is None,
                self.range() == old(self).range(),
                forall|inside: spec_fn(VoxelKey) -> bool| #[trigger]
                    self.outcome(hierarchy@, inside) == old(self).outcome(hierarchy@, inside),
                self.ahead(hierarchy@) <= old(self).ahead(hierarchy@),
            decreases self.stack@.len(),
        {
            let ghost before = *self;
            match self.stack.pop() {
                Some(key) => {
                    if key.level < self.level_max && hierarchy.get(&key).is_some() {
                        self.asking = Some(key);
                    }
                    proof {
                        assert(before.stack@.last() == key);
                        assert(before.stack@.drop_last() =~= self.stack@);
                        assert forall|inside: spec_fn(VoxelKey) -> bool| #[trigger]
                            self.outcome(hierarchy@, inside) == old(self).outcome(
                                hierarchy@,
                                inside,
                            ) by {
                            assert(self.outcome(hierarchy@, inside) =~= before.outcome(
                                hierarchy@,
                                inside,
                            ));
                        }
                    }
                    if self.asking.is_some() {
                        return self.asking;
                    }
                },
                None => {},
            }
        }
        None
    }

    /// Takes in whether the voxel that was handed out takes part in the query.
    pub fn answer(&mut self, hierarchy: &Hierarchy, takes_part: bool)
        requires
            old(self).open_question() matches Some(key) && is_candidate(
                hierarchy@,
                old(self).range().1,
                key,
            ),
        ensures
            final(self).open_question() is None,
            final(self).range() == old(self).range(),
            forall|inside: spec_fn(VoxelKey) -> bool|
                inside(old(self).open_question()->0) == takes_part ==> old(self).outcome(
                    hierarchy@,
                    inside,
                ) == #[trigger] final(self).outcome(hierarchy@, inside),
            final(self).ahead(hierarchy@) < old(self).ahead(hierarchy@),
    {
        let ghost before = *self;
        match self.asking {
            Some(key) => {
                self.asking = None;
                if takes_part {
                    match hierarchy.get(&key) {
                        Some(entry) => {
                            if entry.point_count > 0 && self.level_min <= key.level {
                                self.found.push(entry);
                            }
                        },
                        None => {},
                    }
                    proof {
                        lemma_reach_of_children_on_stack(
                            hierarchy@,
                            self.level_max,
                            before.stack@,
                            key,
                            8,
                        );
                    }
                    let mut children = key.children();
                    self.stack.append(&mut children);
                }
                proof {
                    assert forall|inside: spec_fn(VoxelKey) -> bool| inside(key)
                        == takes_part implies #[trigger] self.outcome(hierarchy@, inside)
                        == before.outcome(hierarchy@, inside) by {
                        if takes_part {
                            lemma_children_on_stack(
                                hierarchy@,
                                self.level_min,
                                self.level_max,
                                inside,
                                before.stack@,
                                key,
                                8,
                            );
                        }
                        assert(self.outcome(hierarchy@, inside) =~= before.outcome(
                            hierarchy@,
                            inside,
                        ));
                    }
                }
            },
            None => {},
        }
    }

    /// The chunks that were found.
    pub closed spec fn chunks(self) -> Seq<Entry> {
        self.found@
    }

    /// Ends the search: what it found, by falling offset in the file.
    pub fn finish(self) -> (r: Vec<Entry>)
        requires
            self.exhausted(),
        ensures
            crate::copc_reader::sorting::is_sorted_from(r@, self.chunks()),
    {
        sort_by_falling_offset(self.found)
    }

    /// When nothing is left to look at, what has been found is what the search
    /// finds.
    pub proof fn law_exhausted_search_has_found_all(
        self,
        entries: Map<VoxelKey, Entry>,
        inside: spec_fn(VoxelKey) -> bool,
    )
        requires
            self.exhausted(),
        ensures
            self.chunks() == self.outcome(entries, inside),
    {
        assert(self.chunks() =~= self.outcome(entries, inside));
    }
}

// ---------------------------------------------------------- whole searches

/// How many voxels a search can come across below a voxel.
pub open spec fn reach(entries: Map<VoxelKey, Entry>, level_max: i32, key: VoxelKey) -> nat
    decreases level_max - key.level, 9int,
{
    if is_candidate(entries, level_max, key) {
        1 + reach_of_children(entries, level_max, key, 8)
    } else {
        1
    }
}

/// How many voxels a search can come across below the first `n` children.
pub open spec fn reach_of_children(
    entries: Map<VoxelKey, Entry>,
    level_max: i32,
    key: VoxelKey,
    n: int,
) -> nat
    decreases level_max - key.level, n,
{
    if n <= 0 || n > 8 || key.level >= level_max {
        0
    } else {
        reach(entries, level_max, key.child(n - 1)) + reach_of_children(
            entries,
            level_max,
            key,
            n - 1,
        )
    }
}

/// How many voxels a search can come across below those on a stack.
pub open spec fn reach_of_stack(
    entries: Map<VoxelKey, Entry>,
    level_max: i32,
    stack: Seq<VoxelKey>,
) -> nat
    decreases stack.len(),
{
    if stack.len() == 0 {
        0
    } else {
        reach(entries, level_max, stack.last()) + reach_of_stack(
            entries,
            level_max,
            stack.drop_last(),
        )
    }
}

proof fn lemma_reach_of_children_on_stack(
    entries: Map<VoxelKey, Entry>,
    level_max: i32,
    stack: Seq<VoxelKey>,
    key: VoxelKey,
    n: int,
)
    requires
        0 <= n <= 8,
        key.level < level_max,
    ensures
        reach_of_stack(entries, level_max, stack + Seq::new(n as nat, |dir: int| key.child(dir)))
            == reach_of_children(entries, level_max, key, n) + reach_of_stack(
            entries,
            level_max,
            stack,
        ),
    decreases n,
{
    let children = Seq::new(n as nat, |dir: int| key.child(dir));
    if n == 0 {
        assert(stack + children =~= stack);
    } else {
        let fewer = Seq::new((n - 1) as nat, |dir: int| key.child(dir));
        assert((stack + children).drop_last() =~= stack + fewer);
        assert((stack + children).last() == key.child(n - 1));
        lemma_reach_of_children_on_stack(entries, level_max, stack, key, n - 1);
    }
}

impl OctreeQuery {
    /// How many voxels this search can still come across.
    pub closed spec fn ahead(self, entries: Map<VoxelKey, Entry>) -> nat {
        (match self.asking {
            Some(key) => reach(entries, self.level_max, key),
            None => 0,
        }) + reach_of_stack(entries, self.level_max, self.stack@)
    }
}

/// The chunks of every voxel in a range of levels, wherever they lie.
pub fn load_octree_everywhere(hierarchy: &Hierarchy, level_min: i32, level_max: i32) -> (r: Vec<
    Entry,
>)
    ensures
        crate::copc_reader::sorting::is_sorted_from(
            r@,
            chunks_below(hierarchy@, level_min, level_max, |key: VoxelKey| true, root()),
        ),
{
    let ghost everywhere = |key: VoxelKey| true;
    let mut query = OctreeQuery::new(level_min, level_max);
    let ghost goal = query.outcome(hierarchy@, everywhere);
    let mut node = query.next_node(hierarchy);
    while node.is_some()
        invariant
            node == query.open_question(),
            node matches Some(key) ==> is_candidate(hierarchy@, query.range().1, key),
            node is None ==> query.exhausted(),
            everywhere == (|key: VoxelKey| true),
            query.outcome(hierarchy@, everywhere) == goal,
        decreases query.ahead(hierarchy@),
    {
        query.answer(hierarchy, true);
        node = query.next_node(hierarchy);
    }
    proof {
        query.law_exhausted_search_has_found_all(hierarchy@, everywhere);
    }
    query.finish()
}

/// Whether an entry may be the result of a query: it is filed in the
/// hierarchy, has points, and its level is asked for.
pub open spec fn is_selectable(
    entries: Map<VoxelKey, Entry>,
    level_min: i32,
    level_max: i32,
    entry: Entry,
) -> bool {
    exists|key: VoxelKey|
        {
            &&& #[trigger] entries.contains_key(key)
            &&& entries[key] == entry
            &&& entry.point_count > 0
            &&& level_min <= key.level < level_max
        }
}

/// A query finds only chunks that are filed in the hierarchy, that have points
/// and whose level is asked for.
pub proof fn law_query_selects_matching_chunks(
    entries: Map<VoxelKey, Entry>,
    level_min: i32,
    level_max: i32,
    inside: spec_fn(VoxelKey) -> bool,
    key: VoxelKey,
    i: int,
)
    requires
        0 <= i < chunks_below(entries, level_min, level_max, inside, key).len(),
    ensures
        is_selectable(
            entries,
            level_min,
            level_max,
            chunks_below(entries, level_min, level_max, inside, key)[i],
        ),
    decreases level_max - key.level, 9int,
{
    let own = own_chunk(entries, level_min, key);
    if i >= own.len() {
        lemma_children_match(entries, level_min, level_max, inside, key, 8, i - own.len());
    }
}

proof fn lemma_children_match(
    entries: Map<VoxelKey, Entry>,
    level_min: i32,
    level_max: i32,
    inside: spec_fn(VoxelKey) -> bool,
    key: VoxelKey,
    n: int,
    i: int,
)
    requires
        0 <= i < chunks_of_children(entries, level_min, level_max, inside, key, n).len(),
    ensures
        is_selectable(
            entries,
            level_min,
            level_max,
            chunks_of_children(entries, level_min, level_max, inside, key, n)[i],
        ),
    decreases level_max - key.level, n,
{
    if 0 < n <= 8 && key.level < level_max {
        let first = chunks_below(entries, level_min, level_max, inside, key.child(n - 1));
        if i < first.len() {
            law_query_selects_matching_chunks(
                entries,
                level_min,
                level_max,
                inside,
                key.child(n - 1),
                i,
            );
        } else {
            lemma_children_match(
                entries,
                level_min,
                level_max,
                inside,
                key,
                n - 1,
                i - first.len(),
            );
        }
    }
}

// -------------------------------------------------------------------- laws

/// Whether the sides of a box are numbers and in order.
pub open spec fn is_box(b: Bounds) -> bool {
    &&& crate::float_bits::f64_le(b.min_x, b.max_x)
    &&& crate::float_bits::f64_le(b.min_y, b.max_y)
    &&& crate::float_bits::f64_le(b.min_z, b.max_z)
}

/// Whether a point, whose coordinates are doubles by their bits, lies in a box
/// or on its sides.
pub open spec fn holds_point(b: Bounds, x: u64, y: u64, z: u64) -> bool {
    &&& crate::float_bits::f64_le(b.min_x, x) && crate::float_bits::f64_le(x, b.max_x)
    &&& crate::float_bits::f64_le(b.min_y, y) && crate::float_bits::f64_le(y, b.max_y)
    &&& crate::float_bits::f64_le(b.min_z, z) && crate::float_bits::f64_le(z, b.max_z)
}

/// Two boxes intersect if and only if there is a point that lies in both.
pub proof fn law_boxes_intersect_in_a_point(a: Bounds, b: Bounds)
    requires
        is_box(a),
        is_box(b),
    ensures
        boxes_intersect(a, b) <==> exists|x: u64, y: u64, z: u64| #[trigger]
            holds_point(a, x, y, z) && holds_point(b, x, y, z),
{
    if boxes_intersect(a, b) {
        let x = crate::float_bits::f64_max(a.min_x, b.min_x);
        let y = crate::float_bits::f64_max(a.min_y, b.min_y);
        let z = crate::float_bits::f64_max(a.min_z, b.min_z);
        assert(holds_point(a, x, y, z) && holds_point(b, x, y, z));
    }
}

/// A box intersects every box that it lies in, and every box that lies in it.
/// So a query that asks for a part of a voxel, or for all of it and more, looks
/// at the voxel.
pub proof fn law_boxes_intersect_what_holds_them(inner: Bounds, outer: Bounds)
    requires
        is_box(inner),
        holds_point(outer, inner.min_x, inner.min_y, inner.min_z),
        holds_point(outer, inner.max_x, inner.max_y, inner.max_z),
    ensures
        boxes_intersect(inner, outer),
        boxes_intersect(outer, inner),
        BoundsSelection::Within(inner).admits(outer),
        BoundsSelection::Within(outer).admits(inner),
{
}

/// A box that lies beyond another along one axis does not intersect it,
/// wherever the two lie along the other axes.
pub proof fn law_boxes_are_parted_by_one_axis(a: Bounds, b: Bounds)
    requires
        crate::float_bits::f64_lt(a.max_x, b.min_x) || crate::float_bits::f64_lt(a.max_y, b.min_y)
            || crate::float_bits::f64_lt(a.max_z, b.min_z),
    ensures
        !boxes_intersect(a, b),
        !boxes_intersect(b, a),
        !BoundsSelection::Within(a).admits(b),
        !BoundsSelection::Within(b).admits(a),
{
}

/// Sides that are not numbers part nothing: a box without numbers intersects
/// every box. A query over all of space admits every voxel.
pub proof fn law_boxes_without_numbers_are_not_parted(a: Bounds, b: Bounds)
    requires
        crate::float_bits::f64_is_nan(a.min_x) && crate::float_bits::f64_is_nan(a.max_x),
        crate::float_bits::f64_is_nan(a.min_y) && crate::float_bits::f64_is_nan(a.max_y),
        crate::float_bits::f64_is_nan(a.min_z) && crate::float_bits::f64_is_nan(a.max_z),
    ensures
        boxes_intersect(a, b),
        BoundsSelection::All.admits(a),
        BoundsSelection::All.admits(b),
{
}

/// Whether a level is one that a selection asks for.
pub open spec fn asks_for(selection: LodSelection, halvings: i32, level: i32) -> bool {
    selection.levels(halvings) matches Ok((min, max)) && min <= level < max
}

/// A selection of all levels asks for every level from the root on, but the
/// last that can be counted; one of a single level asks for this and for no
/// other; one of a range asks for the levels from its first number up to, and
/// without, the second; one of a resolution asks for the root level and for as
/// many more as the spacing has to be halved.
pub proof fn law_levels_that_are_asked_for(
    halvings: i32,
    level: i32,
    one: i32,
    first: i32,
    end: i32,
    bits: u64,
)
    requires
        one < i32::MAX,
        halvings < i32::MAX,
    ensures
        asks_for(LodSelection::All, halvings, level) <==> 0 <= level < i32::MAX,
        asks_for(LodSelection::Level(one), halvings, level) <==> level == one,
        asks_for(LodSelection::LevelMinMax(first, end), halvings, level) <==> first <= level < end,
        asks_for(LodSelection::Resolution(bits), halvings, level) <==> usable_resolution(bits) && (
        level == 0 || 0 < level <= halvings),
        usable_resolution(bits) <==> 0x0010_0000_0000_0000 <= bits < 0x7ff0_0000_0000_0000,
{
}

} // verus!

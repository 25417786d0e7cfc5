//! Walking through the points of the chunks that a query selected.

use crate::copc_reader::octree::{Entry, VoxelKey};
use crate::copc_reader::query::{load_octree_everywhere, LodSelection, OctreeQuery};
use crate::copc_reader::reader::CopcReader;
use crate::copc_reader::CopcError;
use vstd::prelude::*;

verus! {

/// A box in the raw integer coordinates of the file.
#[derive(Clone, Copy, Debug, PartialEq, Eq, Structural)]
pub struct RawBounds {
    pub min_x: i32,
    pub min_y: i32,
    pub min_z: i32,
    pub max_x: i32,
    pub max_y: i32,
    pub max_z: i32,
}

impl RawBounds {
    /// Whether a point lies in the box or on its sides.
    pub open spec fn contains(self, x: i32, y: i32, z: i32) -> bool {
        &&& self.min_x <= x <= self.max_x
        &&& self.min_y <= y <= self.max_y
        &&& self.min_z <= z <= self.max_z
    }

    /// Whether a point lies in the box or on its sides.
    pub fn contains_point(&self, x: i32, y: i32, z: i32) -> (r: bool)
        ensures
            r == self.contains(x, y, z),
    {
        !(x < self.min_x || y < self.min_y || z < self.min_z || x > self.max_x || y > self.max_y
            || z > self.max_z)
    }
}

/// Whether a point, by its raw coordinates, lies in a box; without a box all
/// points do.
pub open spec fn within(limits: Option<RawBounds>, point: (i32, i32, i32)) -> bool {
    match limits {
        Some(bounds) => bounds.contains(point.0, point.1, point.2),
        None => true,
    }
}

/// The layout that a point format number stands for. Formats of compressed
/// points have the highest bit set.
pub open spec fn format_layout(format: u8) -> int {
    if format >= 128 {
        format as int % 64
    } else {
        format as int
    }
}

/// How many bytes a record of a point format has: the fields that all have,
/// then those of its layout (time, color, near infrared, wave packet), then
/// the extra bytes.
pub open spec fn record_length(format: u8, extra_bytes: u16) -> int {
    let n = format_layout(format);
    (if n >= 6 {
        22int
    } else {
        20int
    }) + (if n == 1 || 3 <= n <= 10 {
        8int
    } else {
        0int
    }) + (if n == 2 || n == 3 || n == 5 || n == 7 || n == 8 || n == 10 {
        6int
    } else {
        0int
    }) + (if n == 8 || n == 10 {
        2int
    } else {
        0int
    }) + (if n == 4 || n == 5 || n == 9 || n == 10 {
        29int
    } else {
        0int
    }) + extra_bytes
}

/// The raw coordinates in a record of a point, or nothing where there is no
/// such format or the record is not complete.
pub open spec fn point_record(bytes: Seq<u8>, format: u8, extra_bytes: u16) -> Option<
    (i32, i32, i32),
> {
    if 10 < format < 128 || bytes.len() < record_length(format, extra_bytes) {
        None
    } else {
        Some(
            (
                crate::copc_reader::octree::signed_at(bytes, 0),
                crate::copc_reader::octree::signed_at(bytes, 4),
                crate::copc_reader::octree::signed_at(bytes, 8),
            ),
        )
    }
}

/// Calls `las::raw::Point::read_from` with the format that
/// `las::point::Format::new` makes of the number, and that many extra bytes.
/// Claims that it reads complete records of known formats, and that the
/// coordinates of a point are the first three little-endian numbers. What else
/// is in the point is left unsaid.
#[verifier::external_body]
fn read_point(bytes: &[u8], format: u8, extra_bytes: u16) -> (r: Option<(i32, i32, i32)>)
    ensures
        r == point_record(bytes@, format, extra_bytes),
{
    let mut layout = las::point::Format::new(format).ok()?;
    layout.extra_bytes = extra_bytes;
    let point = las::raw::Point::read_from(bytes, &layout).ok()?;
    Some((point.x, point.y, point.z))
}

/// Whether every chunk has points.
pub open spec fn all_have_points(chunks: Seq<Entry>) -> bool {
    forall|i: int| 0 <= i < chunks.len() ==> (#[trigger] chunks[i]).point_count > 0
}

/// How many points some chunks have.
pub open spec fn point_total(chunks: Seq<Entry>) -> int
    decreases chunks.len(),
{
    if chunks.len() == 0 {
        0
    } else {
        point_total(chunks.drop_last()) + chunks.last().point_count
    }
}

/// The octree level of every point, in the order in which the points come: the
/// chunks are worked through from the last to the first.
pub open spec fn levels_of(chunks: Seq<Entry>) -> Seq<i32>
    decreases chunks.len(),
{
    if chunks.len() == 0 {
        Seq::empty()
    } else {
        level_run(chunks.last().key.level, chunks.last().point_count as int) + levels_of(
            chunks.drop_last(),
        )
    }
}

/// One level, `count` times.
pub open spec fn level_run(level: i32, count: int) -> Seq<i32> {
    Seq::new(count as nat, |i: int| level)
}

proof fn lemma_totals(chunks: Seq<Entry>)
    requires
        all_have_points(chunks),
    ensures
        levels_of(chunks).len() == point_total(chunks),
        point_total(chunks) >= chunks.len(),
    decreases chunks.len(),
{
    if chunks.len() > 0 {
        lemma_totals(chunks.drop_last());
    }
}

proof fn lemma_total_grows(chunks: Seq<Entry>, n: int)
    requires
        all_have_points(chunks),
        0 <= n <= chunks.len(),
    ensures
        0 <= point_total(chunks.take(n)) <= point_total(chunks),
    decreases chunks.len(),
{
    lemma_totals(chunks.take(n));
    if n == chunks.len() {
        assert(chunks.take(n) =~= chunks);
    } else {
        assert(chunks.drop_last().take(n) =~= chunks.take(n));
        lemma_total_grows(chunks.drop_last(), n);
    }
}

/// What has to happen next to get at a point.
#[derive(Clone, Copy, Debug, PartialEq, Eq, Structural)]
pub enum PointStep {
    /// There are no more points.
    Done,
    /// Decompress the next point.
    Decompress,
    /// Go to this offset, then decompress a point.
    SeekAndDecompress(u64),
}

/// A walk through the points of some chunks, from the last chunk to the first.
pub struct PointIter {
    nodes: Vec<Entry>,
    bounds: Option<RawBounds>,
    node_points_left: usize,
    total_points_left: usize,
    current_node_level: i32,
}

impl PointIter {
    pub closed spec fn wf(self) -> bool {
        &&& all_have_points(self.nodes@)
        &&& self.total_points_left == self.node_points_left + point_total(self.nodes@)
    }

    /// The octree levels of the points to come.
    pub closed spec fn ahead(self) -> Seq<i32> {
        level_run(self.current_node_level, self.node_points_left as int) + levels_of(self.nodes@)
    }

    /// The chunks that have not been begun.
    pub closed spec fn chunks(self) -> Seq<Entry> {
        self.nodes@
    }

    /// The box that points have to lie in.
    pub closed spec fn limits(self) -> Option<RawBounds> {
        self.bounds
    }

    /// How many points of the chunk that has been begun are to come.
    pub closed spec fn left_in_chunk(self) -> nat {
        self.node_points_left as nat
    }

    /// Whether a chunk has been begun and not ended.
    pub open spec fn in_chunk(self) -> bool {
        self.left_in_chunk() > 0
    }

    /// Whether a step says what has to happen next, and `after` is the walk
    /// after it. A new chunk is begun where none is under way.
    pub open spec fn stepped(self, step: PointStep, after: PointIter) -> bool {
        &&& after.ahead() == self.ahead()
        &&& after.limits() == self.limits()
        &&& if self.ahead().len() == 0 {
            &&& step == PointStep::Done
            &&& after.chunks() == self.chunks()
            &&& after.left_in_chunk() == self.left_in_chunk()
        } else if self.in_chunk() {
            &&& step == PointStep::Decompress
            &&& after.chunks() == self.chunks()
            &&& after.left_in_chunk() == self.left_in_chunk()
        } else {
            &&& self.chunks().len() > 0
            &&& step == PointStep::SeekAndDecompress(self.chunks().last().offset)
            &&& after.chunks() == self.chunks().drop_last()
            &&& after.left_in_chunk() == self.chunks().last().point_count
        }
    }

    /// Whether a point was taken in, and `after` is the walk after it. The
    /// point is reported with its octree level, unless it lies outside the box.
    pub open spec fn accepted(
        self,
        point: (i32, i32, i32),
        level: Option<i32>,
        after: PointIter,
    ) -> bool {
        &&& self.ahead().len() > 0
        &&& after.ahead() == self.ahead().skip(1)
        &&& after.chunks() == self.chunks()
        &&& after.limits() == self.limits()
        &&& after.left_in_chunk() == self.left_in_chunk() - 1
        &&& level == (if within(self.limits(), point) {
            Some(self.ahead()[0])
        } else {
            None
        })
    }

    /// Starts the walk. Only points within `bounds` will be kept.
    pub fn new(nodes: Vec<Entry>, bounds: Option<RawBounds>) -> (r: PointIter)
        requires
            all_have_points(nodes@),
            point_total(nodes@) <= usize::MAX,
        ensures
            r.wf(),
            r.ahead() == levels_of(nodes@),
            r.chunks() == nodes@,
            r.limits() == bounds,
            !r.in_chunk(),
    {
        let mut total_points_left: usize = 0;
        let n: usize = nodes.len();
        let mut i: usize = 0;
        while i < n
            invariant
                n == nodes@.len(),
                i <= n,
                all_have_points(nodes@),
                point_total(nodes@) <= usize::MAX,
                total_points_left == point_total(nodes@.take(i as int)),
            decreases n - i,
        {
            proof {
                lemma_total_grows(nodes@, i + 1);
                assert(nodes@.take(i + 1).drop_last() =~= nodes@.take(i as int));
            }
            total_points_left += nodes[i].point_count as usize;
            i += 1;
        }
        assert(nodes@.take(n as int) =~= nodes@);
        let r = PointIter {
            nodes,
            bounds,
            node_points_left: 0,
            total_points_left,
            current_node_level: 0,
        };
        assert(r.ahead() =~= levels_of(nodes@));
        r
    }

    /// What has to happen to get at the next point. Where a new chunk begins,
    /// its offset is given.
    pub fn step(&mut self) -> (r: PointStep)
        requires
            old(self).wf(),
        ensures
            final(self).wf(),
            old(self).stepped(r, *final(self)),
    {
        let ghost before = *self;
        proof {
            lemma_totals(self.nodes@);
        }
        if self.total_points_left == 0 {
            return PointStep::Done;
        }
        if self.node_points_left > 0 {
            return PointStep::Decompress;
        }
        match self.nodes.pop() {
            Some(node) => {
                assert(before.nodes@.last() == node);
                assert(before.nodes@.drop_last() =~= self.nodes@);
                self.node_points_left = node.point_count as usize;
                self.current_node_level = node.key.level;
                assert(self.ahead() =~= before.ahead());
                PointStep::SeekAndDecompress(node.offset)
            },
            None => PointStep::Done,
        }
    }

    /// Takes in the raw coordinates of the point that was decompressed: the
    /// octree level to report it with, or nothing where it lies outside the
    /// box.
    pub fn accept(&mut self, x: i32, y: i32, z: i32) -> (r: Option<i32>)
        requires
            old(self).wf(),
            old(self).in_chunk(),
        ensures
            final(self).wf(),
            old(self).accepted((x, y, z), r, *final(self)),
    {
        let ghost before = *self;
        proof {
            lemma_totals(self.nodes@);
        }
        self.node_points_left = self.node_points_left - 1;
        self.total_points_left = self.total_points_left - 1;
        assert(self.ahead() =~= before.ahead().skip(1));
        let in_bounds = match &self.bounds {
            Some(bounds) => bounds.contains_point(x, y, z),
            None => true,
        };
        if in_bounds {
            Some(self.current_node_level)
        } else {
            None
        }
    }

    /// Takes in the record of the point that was decompressed: the octree
    /// level to report it with, or nothing where it lies outside the box. There
    /// is no result, and the walk stays as it is, where the record cannot be
    /// read.
    pub fn accept_record(&mut self, bytes: &[u8], format: u8, extra_bytes: u16) -> (r: Option<
        Option<i32>,
    >)
        requires
            old(self).wf(),
            old(self).in_chunk(),
        ensures
            final(self).wf(),
            match point_record(bytes@, format, extra_bytes) {
                Some(point) => r matches Some(level) && old(self).accepted(
                    point,
                    level,
                    *final(self),
                ),
                None => r is None && *final(self) == *old(self),
            },
    {
        match read_point(bytes, format, extra_bytes) {
            Some((x, y, z)) => Some(self.accept(x, y, z)),
            None => None,
        }
    }

    /// How many points are to come, at least and at most, before the box is
    /// looked at.
    pub fn size_hint(&self) -> (r: (usize, Option<usize>))
        requires
            self.wf(),
        ensures
            r.0 == self.ahead().len(),
            r.1 == Some(r.0),
    {
        proof {
            lemma_totals(self.nodes@);
        }
        (self.total_points_left, Some(self.total_points_left))
    }
}

// ------------------------------------------------------------ whole walks

/// The steps through one chunk: to its offset, then from point to point.
pub open spec fn chunk_steps(chunk: Entry) -> Seq<PointStep> {
    Seq::new(
        chunk.point_count as nat,
        |i: int|
            if i == 0 {
                PointStep::SeekAndDecompress(chunk.offset)
            } else {
                PointStep::Decompress
            },
    )
}

/// The steps through some chunks, from the last chunk to the first.
pub open spec fn walk_steps(chunks: Seq<Entry>) -> Seq<PointStep>
    decreases chunks.len(),
{
    if chunks.len() == 0 {
        Seq::empty()
    } else {
        chunk_steps(chunks.last()) + walk_steps(chunks.drop_last())
    }
}

/// The steps to come in a walk that has begun a chunk with `left` points to
/// come, or none.
pub open spec fn steps_ahead(left: nat, chunks: Seq<Entry>) -> Seq<PointStep> {
    Seq::new(left, |i: int| PointStep::Decompress) + walk_steps(chunks)
}

/// A walk, point by point: `walks[k]` is the walk before point `k`, which comes
/// by `steps[k]`, after which the walk is `ready[k]`; the point is `points[k]`
/// and is reported as `levels[k]`.
pub open spec fn is_walk(
    walks: Seq<PointIter>,
    steps: Seq<PointStep>,
    ready: Seq<PointIter>,
    points: Seq<(i32, i32, i32)>,
    levels: Seq<Option<i32>>,
) -> bool {
    let n = points.len();
    &&& walks.len() == n + 1
    &&& steps.len() == n
    &&& ready.len() == n
    &&& levels.len() == n
    &&& forall|k: int|
        0 <= k <= n ==> (#[trigger] walks[k]).wf()
    &&& forall|k: int|
        0 <= k < n ==> {
            &&& (#[trigger] walks[k]).stepped(steps[k], ready[k])
            &&& ready[k].accepted(points[k], levels[k], walks[k + 1])
        }
}

/// A walk knows the levels of the points in the chunk that it has begun, and
/// of those in the chunks that it has not.
proof fn lemma_ahead(walk: PointIter)
    requires
        walk.wf(),
    ensures
        walk.ahead().len() == walk.left_in_chunk() + point_total(walk.chunks()),
        walk.ahead().skip(walk.left_in_chunk() as int) == levels_of(walk.chunks()),
        all_have_points(walk.chunks()),
{
    lemma_totals(walk.chunks());
    assert(walk.ahead().skip(walk.left_in_chunk() as int) =~= levels_of(walk.chunks()));
}

proof fn lemma_walk_steps(chunks: Seq<Entry>)
    requires
        all_have_points(chunks),
    ensures
        walk_steps(chunks).len() == point_total(chunks),
    decreases chunks.len(),
{
    if chunks.len() > 0 {
        lemma_walk_steps(chunks.drop_last());
    }
}

/// One point takes a walk one step on.
proof fn lemma_one_point(
    here: PointIter,
    step: PointStep,
    ready: PointIter,
    point: (i32, i32, i32),
    level: Option<i32>,
    next: PointIter,
)
    requires
        here.wf(),
        here.stepped(step, ready),
        ready.accepted(point, level, next),
    ensures
        ({
            let coming = steps_ahead(here.left_in_chunk(), here.chunks());
            &&& coming.len() == here.ahead().len()
            &&& coming.len() > 0
            &&& coming[0] == step
            &&& steps_ahead(next.left_in_chunk(), next.chunks()) == coming.skip(1)
            &&& next.ahead() == here.ahead().skip(1)
            &&& next.limits() == here.limits()
        }),
{
    lemma_ahead(here);
    lemma_walk_steps(here.chunks());
    let left = here.left_in_chunk();
    let coming = steps_ahead(left, here.chunks());
    let after = steps_ahead(next.left_in_chunk(), next.chunks());
    assert(here.ahead().len() > 0);
    if here.in_chunk() {
        assert(after =~= coming.skip(1));
    } else {
        let chunk = here.chunks()[here.chunks().len() - 1];
        let rest = walk_steps(here.chunks().drop_last());
        assert(chunk.point_count > 0);
        assert(coming =~= chunk_steps(chunk) + rest);
        assert(next.left_in_chunk() == chunk.point_count - 1);
        assert(chunk_steps(chunk).skip(1) =~= Seq::new(
            (chunk.point_count - 1) as nat,
            |i: int| PointStep::Decompress,
        ));
        assert(coming.skip(1) =~= chunk_steps(chunk).skip(1) + rest);
    }
}

proof fn lemma_skip_one_more<A>(s: Seq<A>, k: int)
    requires
        0 <= k < s.len(),
    ensures
        s.skip(k).skip(1) == s.skip(k + 1),
        s.skip(k)[0] == s[k],
        s.take(k + 1) == s.take(k).push(s[k]),
{
    assert(s.skip(k).skip(1) =~= s.skip(k + 1));
    assert(s.take(k + 1) =~= s.take(k).push(s[k]));
}

/// What a walk has come to after `k` points.
proof fn lemma_walk_so_far(
    walks: Seq<PointIter>,
    steps: Seq<PointStep>,
    ready: Seq<PointIter>,
    points: Seq<(i32, i32, i32)>,
    levels: Seq<Option<i32>>,
    k: int,
)
    requires
        is_walk(walks, steps, ready, points, levels),
        0 <= k <= points.len(),
    ensures
        ({
            let all = steps_ahead(walks[0].left_in_chunk(), walks[0].chunks());
            &&& k <= all.len()
            &&& all.len() == walks[0].ahead().len()
            &&& steps.take(k) == all.take(k)
            &&& steps_ahead(walks[k].left_in_chunk(), walks[k].chunks()) == all.skip(k)
            &&& walks[k].ahead() == walks[0].ahead().skip(k)
            &&& walks[k].limits() == walks[0].limits()
        }),
    decreases k,
{
    let all = steps_ahead(walks[0].left_in_chunk(), walks[0].chunks());
    assert(walks[0].wf());
    if k == 0 {
        lemma_ahead(walks[0]);
        lemma_walk_steps(walks[0].chunks());
        assert(steps.take(0) =~= all.take(0));
        assert(all.skip(0) =~= all);
        assert(walks[0].ahead().skip(0) =~= walks[0].ahead());
    } else {
        let j = k - 1;
        lemma_walk_so_far(walks, steps, ready, points, levels, j);
        assert(walks[j].wf());
        assert(walks[j].stepped(steps[j], ready[j]));
        lemma_one_point(walks[j], steps[j], ready[j], points[j], levels[j], walks[k]);
        assert(all.skip(j).len() == all.len() - j);
        lemma_skip_one_more(all, j);
        lemma_skip_one_more(walks[0].ahead(), j);
        lemma_skip_one_more(steps, j);
    }
}

/// A whole walk, from its beginning to where there are no more points, takes
/// every point of every chunk once: it goes to each chunk in turn, from the
/// last to the first, and through its points. Each point that lies in the box
/// is reported with the octree level of its chunk, and no other.
pub proof fn law_walk_takes_every_point(
    chunks: Seq<Entry>,
    walks: Seq<PointIter>,
    steps: Seq<PointStep>,
    ready: Seq<PointIter>,
    points: Seq<(i32, i32, i32)>,
    levels: Seq<Option<i32>>,
    end: PointIter,
)
    requires
        is_walk(walks, steps, ready, points, levels),
        walks[0].chunks() == chunks,
        walks[0].ahead() == levels_of(chunks),
        !walks[0].in_chunk(),
        walks.last().stepped(PointStep::Done, end),
    ensures
        points.len() == point_total(chunks),
        steps == walk_steps(chunks),
        levels == Seq::new(
            points.len(),
            |k: int|
                if within(walks[0].limits(), points[k]) {
                    Some(levels_of(chunks)[k])
                } else {
                    None
                },
        ),
{
    let n = points.len() as int;
    assert(walks[0].wf());
    assert(walks[n].wf());
    lemma_ahead(walks[0]);
    lemma_walk_so_far(walks, steps, ready, points, levels, n);
    assert(walks[n].ahead().len() == 0);
    lemma_walk_steps(chunks);
    let all = steps_ahead(walks[0].left_in_chunk(), chunks);
    assert(all =~= walk_steps(chunks));
    assert(steps.take(n) =~= steps);
    assert(all.take(n) =~= all);
    assert forall|k: int| 0 <= k < n implies #[trigger] levels[k] == (if within(
        walks[0].limits(),
        points[k],
    ) {
        Some(levels_of(chunks)[k])
    } else {
        None
    }) by {
        lemma_walk_so_far(walks, steps, ready, points, levels, k);
        assert(walks[k].stepped(steps[k], ready[k]));
        assert(ready[k].accepted(points[k], levels[k], walks[k + 1]));
        assert(walks[0].ahead().skip(k)[0] == levels_of(chunks)[k]);
    }
    assert(levels =~= Seq::new(
        points.len(),
        |k: int|
            if within(walks[0].limits(), points[k]) {
                Some(levels_of(chunks)[k])
            } else {
                None
            },
    ));
}

/// A walk that is done stays done.
pub proof fn law_done_stays_done(walk: PointIter, end: PointIter, step: PointStep, after: PointIter)
    requires
        walk.stepped(PointStep::Done, end),
        end.stepped(step, after),
    ensures
        step == PointStep::Done,
        after.ahead().len() == 0,
{
}

/// The offsets that a walk goes to.
pub open spec fn visited(steps: Seq<PointStep>) -> Seq<u64>
    decreases steps.len(),
{
    if steps.len() == 0 {
        Seq::empty()
    } else {
        match steps.last() {
            PointStep::SeekAndDecompress(offset) => visited(steps.drop_last()).push(offset),
            _ => visited(steps.drop_last()),
        }
    }
}

proof fn lemma_visited_add(a: Seq<PointStep>, b: Seq<PointStep>)
    ensures
        visited(a + b) == visited(a) + visited(b),
    decreases b.len(),
{
    if b.len() == 0 {
        assert(a + b =~= a);
        assert(visited(a) + visited(b) =~= visited(a));
    } else {
        assert((a + b).drop_last() =~= a + b.drop_last());
        assert((a + b).last() == b.last());
        lemma_visited_add(a, b.drop_last());
        assert(visited(a + b) =~= visited(a) + visited(b));
    }
}

proof fn lemma_visited_chunk(chunk: Entry, n: int)
    requires
        0 < n <= chunk.point_count,
    ensures
        visited(chunk_steps(chunk).take(n)) == seq![chunk.offset],
    decreases n,
{
    let steps = chunk_steps(chunk).take(n);
    assert(steps.drop_last() =~= chunk_steps(chunk).take(n - 1));
    if n == 1 {
        assert(steps.drop_last() =~= Seq::<PointStep>::empty());
        assert(visited(Seq::<PointStep>::empty()) == Seq::<u64>::empty());
        assert(steps.last() == PointStep::SeekAndDecompress(chunk.offset));
        assert(visited(steps) == Seq::<u64>::empty().push(chunk.offset));
        assert(visited(steps) =~= seq![chunk.offset]);
    } else {
        lemma_visited_chunk(chunk, n - 1);
    }
}

/// A walk through chunks that are sorted by falling offset goes to each of
/// them once, by rising offset.
pub proof fn law_chunks_are_visited_in_order(chunks: Seq<Entry>)
    requires
        all_have_points(chunks),
        crate::copc_reader::sorting::falls(chunks),
    ensures
        ({
            let offsets = visited(walk_steps(chunks));
            &&& offsets == Seq::new(
                chunks.len(),
                |i: int| chunks[chunks.len() - 1 - i].offset,
            )
            &&& forall|i: int, j: int| 0 <= i <= j < offsets.len() ==> offsets[i] <= offsets[j]
        }),
    decreases chunks.len(),
{
    let offsets = visited(walk_steps(chunks));
    if chunks.len() > 0 {
        let head = chunks.drop_last();
        let last = chunks[chunks.len() - 1];
        law_chunks_are_visited_in_order(head);
        lemma_visited_add(chunk_steps(last), walk_steps(head));
        lemma_visited_chunk(last, last.point_count as int);
        assert(chunk_steps(last).take(last.point_count as int) =~= chunk_steps(last));
    }
    assert(offsets =~= Seq::new(chunks.len(), |i: int| chunks[chunks.len() - 1 - i].offset));
}

/// The chunks that a query selects, once sorted, can be walked through: all of
/// them have points.
pub proof fn law_selected_chunks_have_points(
    entries: Map<VoxelKey, Entry>,
    level_min: i32,
    level_max: i32,
    inside: spec_fn(VoxelKey) -> bool,
    selected: Seq<Entry>,
)
    requires
        crate::copc_reader::sorting::is_sorted_from(
            selected,
            crate::copc_reader::query::chunks_below(entries, level_min, level_max, inside, crate::copc_reader::query::root()),
        ),
    ensures
        all_have_points(selected),
{
    let found = crate::copc_reader::query::chunks_below(entries, level_min, level_max, inside, crate::copc_reader::query::root());
    assert forall|i: int| 0 <= i < selected.len() implies (#[trigger] selected[i]).point_count
        > 0 by {
        crate::copc_reader::sorting::law_sorting_keeps_entries(selected, found, selected[i]);
        let j = choose|j: int| 0 <= j < found.len() && found[j] == selected[i];
        crate::copc_reader::query::law_query_selects_matching_chunks(entries, level_min, level_max, inside, crate::copc_reader::query::root(), j);
    }
}

impl CopcReader {
    /// Starts a query over a part of space.
    pub fn begin_query(&self, levels: &LodSelection, halvings: i32) -> (r: Result<
        OctreeQuery,
        CopcError,
    >)
        requires
            levels.can_count(halvings),
        ensures
            match levels.levels(halvings) {
                Ok((level_min, level_max)) => {
                    &&& r matches Ok(query)
                    &&& query.open_question() is None
                    &&& query.range() == (level_min, level_max)
                    &&& forall|inside: spec_fn(VoxelKey) -> bool| #[trigger]
                        query.outcome(self.entries(), inside) == crate::copc_reader::query::chunks_below(
                            self.entries(),
                            level_min,
                            level_max,
                            inside,
                            crate::copc_reader::query::root(),
                        )
                },
                Err(e) => r == Err::<OctreeQuery, CopcError>(e),
            },
    {
        match levels.level_range(halvings) {
            Ok((level_min, level_max)) => Ok(OctreeQuery::new(level_min, level_max)),
            Err(e) => Err(e),
        }
    }

    /// The chunks that a query over all of space reads, by falling offset.
    pub fn load_octree_for_query(&self, levels: &LodSelection, halvings: i32) -> (r: Result<
        Vec<Entry>,
        CopcError,
    >)
        requires
            levels.can_count(halvings),
        ensures
            match levels.levels(halvings) {
                Ok((level_min, level_max)) => {
                    &&& r matches Ok(chunks)
                    &&& crate::copc_reader::sorting::is_sorted_from(
                        chunks@,
                        crate::copc_reader::query::chunks_below(
                            self.entries(),
                            level_min,
                            level_max,
                            |key: VoxelKey| true,
                            crate::copc_reader::query::root(),
                        ),
                    )
                    &&& all_have_points(chunks@)
                },
                Err(e) => r == Err::<Vec<Entry>, CopcError>(e),
            },
    {
        match levels.level_range(halvings) {
            Ok((level_min, level_max)) => {
                let chunks = load_octree_everywhere(self.hierarchy(), level_min, level_max);
                proof {
                    law_selected_chunks_have_points(
                        self.entries(),
                        level_min,
                        level_max,
                        |key: VoxelKey| true,
                        chunks@,
                    );
                }
                Ok(chunks)
            },
            Err(e) => Err(e),
        }
    }

    /// Starts a walk through the points of some chunks of the file.
    pub fn points(&self, chunks: Vec<Entry>, bounds: Option<RawBounds>) -> (r: PointIter)
        requires
            all_have_points(chunks@),
            point_total(chunks@) <= usize::MAX,
        ensures
            r.wf(),
            r.ahead() == levels_of(chunks@),
            r.chunks() == chunks@,
            r.limits() == bounds,
            !r.in_chunk(),
    {
        PointIter::new(chunks, bounds)
    }
}

// -------------------------------------------------------------------- laws

/// The box from a point to itself contains this point and no other.
pub proof fn law_box_of_one_point(x: i32, y: i32, z: i32, point: (i32, i32, i32))
    ensures
        ({
            let one = RawBounds { min_x: x, min_y: y, min_z: z, max_x: x, max_y: y, max_z: z };
            &&& one.contains(point.0, point.1, point.2) <==> point == (x, y, z)
            &&& within(Some(one), point) <==> point == (x, y, z)
        }),
{
}

/// A box contains, along each axis by itself, what lies between its two sides:
/// moving a point along an axis takes it out of the box if and only if it then
/// lies beyond a side of that axis. Without a box every point is kept.
pub proof fn law_box_is_bounded_on_each_axis(b: RawBounds, x: i32, y: i32, z: i32, to: i32)
    requires
        b.contains(x, y, z),
    ensures
        b.contains(to, y, z) <==> b.min_x <= to <= b.max_x,
        b.contains(x, to, z) <==> b.min_y <= to <= b.max_y,
        b.contains(x, y, to) <==> b.min_z <= to <= b.max_z,
        within(None, (x, y, z)),
{
}

/// The points of a chunk come one after the other, behind those of the chunks
/// after it, and each has the level of its chunk.
pub proof fn law_points_have_the_level_of_their_chunk(chunks: Seq<Entry>, i: int, j: int)
    requires
        all_have_points(chunks),
        0 <= i < chunks.len(),
        0 <= j < chunks[i].point_count,
    ensures
        0 <= point_total(chunks) - point_total(chunks.take(i + 1)) + j < levels_of(chunks).len(),
        levels_of(chunks)[point_total(chunks) - point_total(chunks.take(i + 1)) + j]
            == chunks[i].key.level,
    decreases chunks.len(),
{
    lemma_totals(chunks);
    let head = chunks.drop_last();
    assert(all_have_points(head)) by {
        assert forall|k: int| 0 <= k < head.len() implies (#[trigger] head[k]).point_count > 0 by {
            assert(head[k] == chunks[k]);
        }
    }
    assert(chunks[chunks.len() - 1] == chunks.last());
    lemma_totals(head);
    if i == head.len() {
        assert(chunks.take(i + 1) =~= chunks);
    } else {
        law_points_have_the_level_of_their_chunk(head, i, j);
        assert(head.take(i + 1) =~= chunks.take(i + 1));
    }
}

/// How many points chunks have is the sum of what each has.
pub proof fn law_points_add_up(a: Seq<Entry>, b: Seq<Entry>, chunk: Entry)
    ensures
        point_total(Seq::empty()) == 0,
        point_total(seq![chunk]) == chunk.point_count,
        point_total(a + b) == point_total(a) + point_total(b),
    decreases b.len(),
{
    assert(seq![chunk].drop_last() =~= Seq::<Entry>::empty());
    assert(seq![chunk].last() == chunk);
    reveal_with_fuel(point_total, 2);
    if b.len() == 0 {
        assert(a + b =~= a);
    } else {
        assert((a + b).drop_last() =~= a + b.drop_last());
        law_points_add_up(a, b.drop_last(), chunk);
    }
}

/// Reading the record of a point gives back the three coordinates that it begins
/// with, whatever else is in it, if the record is complete and the format known.
pub proof fn law_point_is_read_back(
    x: i32,
    y: i32,
    z: i32,
    rest: Seq<u8>,
    format: u8,
    extra_bytes: u16,
)
    requires
        format <= 10 || format >= 128,
        12 + rest.len() >= record_length(format, extra_bytes),
    ensures
        point_record(
            crate::copc_reader::octree::signed_bytes(x) + crate::copc_reader::octree::signed_bytes(y)
                + crate::copc_reader::octree::signed_bytes(z) + rest,
            format,
            extra_bytes,
        ) == Some((x, y, z)),
{
    broadcast use crate::bytes::lemma_le_bytes_len;

    let a = crate::copc_reader::octree::signed_bytes(x);
    let b = crate::copc_reader::octree::signed_bytes(y);
    let c = crate::copc_reader::octree::signed_bytes(z);
    let s = a + b + c + rest;
    assert(s.subrange(0, 4) =~= a);
    assert(s.subrange(4, 8) =~= b);
    assert(s.subrange(8, 12) =~= c);
    crate::copc_reader::octree::lemma_signed_bytes(s, 0, x);
    crate::copc_reader::octree::lemma_signed_bytes(s, 4, y);
    crate::copc_reader::octree::lemma_signed_bytes(s, 8, z);
}

} // verus!

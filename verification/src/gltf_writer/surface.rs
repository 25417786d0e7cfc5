//! Turning the surfaces of a feature into triangles.

use crate::float_bits::lt_f32;
use crate::gltf_writer::extents::finite_extent;
use crate::gltf_writer::mesh::{MeshBuilder, Vec3, Vec4};
use ahash::AHashMap;
use vstd::prelude::*;

verus! {

// ----------------------------------------------------------- vertex cache

/// `ahash::AHashMap`.
#[verifier::external_type_specification]
#[verifier::external_body]
#[verifier::reject_recursive_types(K)]
#[verifier::reject_recursive_types(V)]
#[verifier::reject_recursive_types(S)]
pub struct ExAHashMap<K, V, S>(ahash::AHashMap<K, V, S>);

/// `ahash::RandomState`.
#[verifier::external_type_specification]
#[verifier::external_body]
pub struct ExRandomState(ahash::RandomState);

/// What a vertex cache holds: for the vertices of a feature, their indices in
/// the mesh.
pub uninterp spec fn cached(cache: ahash::AHashMap<usize, u32>) -> Map<usize, u32>;

/// Calls `ahash::AHashMap::new`. Claims that the result is empty.
#[verifier::external_body]
fn new_cache() -> (r: AHashMap<usize, u32>)
    ensures
        cached(r).dom() == Set::<usize>::empty(),
{
    AHashMap::new()
}

/// Calls `ahash::AHashMap::get`. Claims that the result is the value under
/// the key, if there is one.
#[verifier::external_body]
fn look_up(cache: &AHashMap<usize, u32>, vertex: usize) -> (r: Option<u32>)
    ensures
        r == (if cached(*cache).contains_key(vertex) {
            Some(cached(*cache)[vertex])
        } else {
            None
        }),
{
    cache.get(&vertex).copied()
}

/// Calls `ahash::AHashMap::insert`. Claims that the value is put under the
/// key, and that everything else stays.
#[verifier::external_body]
fn remember(cache: &mut AHashMap<usize, u32>, vertex: usize, index: u32)
    ensures
        cached(*final(cache)) == cached(*old(cache)).insert(vertex, index),
{
    cache.insert(vertex, index);
}

/// The vertices of a feature that are in the mesh already. They are shared by
/// the surfaces of the feature.
pub struct VertexCache {
    map: AHashMap<usize, u32>,
}

impl View for VertexCache {
    type V = Map<usize, u32>;

    closed spec fn view(&self) -> Map<usize, u32> {
        cached(self.map)
    }
}

impl VertexCache {
    /// A cache without vertices.
    pub fn new() -> (r: VertexCache)
        ensures
            r@ == Map::<usize, u32>::empty(),
    {
        let r = VertexCache { map: new_cache() };
        assert(r@ =~= Map::<usize, u32>::empty());
        r
    }
}

// ---------------------------------------------------------------- outlines

/// Rings of fewer vertices are no rings.
pub open spec fn is_ring(ring: Seq<usize>) -> bool {
    ring.len() >= 3
}

/// The vertices of the rings, one ring after the other.
pub open spec fn outline(rings: Seq<Vec<usize>>) -> Seq<usize>
    decreases rings.len(),
{
    if rings.len() == 0 {
        Seq::empty()
    } else if is_ring(rings.last()@) {
        outline(rings.drop_last()) + rings.last()@
    } else {
        outline(rings.drop_last())
    }
}

/// Where the rings after the first begin in the outline.
pub open spec fn hole_starts(rings: Seq<Vec<usize>>) -> Seq<usize>
    decreases rings.len(),
{
    if rings.len() <= 1 {
        Seq::empty()
    } else if is_ring(rings.last()@) {
        hole_starts(rings.drop_last()).push(outline(rings.drop_last()).len() as usize)
    } else {
        hole_starts(rings.drop_last())
    }
}

/// Whether a surface has an exterior ring.
pub open spec fn has_exterior(rings: Seq<Vec<usize>>) -> bool {
    rings.len() > 0 && is_ring(rings[0]@)
}

/// The vertices of the rings, and where the rings after the first begin.
pub fn trace_outline(rings: &[Vec<usize>]) -> (r: (Vec<usize>, Vec<usize>))
    ensures
        r.0@ == outline(rings@),
        r.1@ == hole_starts(rings@),
{
    let mut vertices: Vec<usize> = Vec::new();
    let mut holes: Vec<usize> = Vec::new();
    let n: usize = rings.len();
    let mut i: usize = 0;
    assert(rings@.take(0) =~= Seq::<Vec<usize>>::empty());
    while i < n
        invariant
            i <= n,
            n == rings@.len(),
            vertices@ == outline(rings@.take(i as int)),
            holes@ == hole_starts(rings@.take(i as int)),
        decreases n - i,
    {
        proof {
            assert(rings@.take(i + 1).drop_last() =~= rings@.take(i as int));
        }
        if rings[i].len() >= 3 {
            if i > 0 {
                holes.push(vertices.len());
            }
            vertices.extend_from_slice(rings[i].as_slice());
        }
        i += 1;
    }
    assert(rings@.take(n as int) =~= rings@);
    (vertices, holes)
}

/// The triangles of a surface for which nothing has to be computed: one ring
/// of three or four vertices. Their corners are places in the outline.
pub open spec fn simple_triangles(rings: Seq<Vec<usize>>) -> Option<Seq<usize>> {
    if rings.len() == 1 && rings[0]@.len() == 3 {
        Some(seq![0, 1, 2])
    } else if rings.len() == 1 && rings[0]@.len() == 4 {
        Some(seq![0, 1, 2, 0, 2, 3])
    } else {
        None
    }
}

/// The triangles of a surface for which nothing has to be computed.
pub fn find_simple_triangles(rings: &[Vec<usize>]) -> (r: Option<Vec<usize>>)
    ensures
        match r {
            Some(triangles) => simple_triangles(rings@) == Some(triangles@),
            None => simple_triangles(rings@) is None,
        },
{
    if rings.len() == 1 && rings[0].len() == 3 {
        let triangles: Vec<usize> = vec![0, 1, 2];
        assert(triangles@ =~= seq![0, 1, 2]);
        Some(triangles)
    } else if rings.len() == 1 && rings[0].len() == 4 {
        let triangles: Vec<usize> = vec![0, 1, 2, 0, 2, 3];
        assert(triangles@ =~= seq![0, 1, 2, 0, 2, 3]);
        Some(triangles)
    } else {
        None
    }
}

// ---------------------------------------------------------------- placing

/// The vertices that have been put in the mesh, and the indices that they
/// have there.
#[verifier::ext_equal]
pub struct Placed {
    /// The vertices that were new, in their order.
    pub added: Seq<usize>,
    /// The index of every vertex that is in the mesh.
    pub known: Map<usize, u32>,
    /// The indices of the vertices that were asked for.
    pub indices: Seq<u32>,
}

/// Places one more vertex. A vertex that is in the mesh keeps its index; a new
/// one gets the next. `base` is the number of vertices in the mesh before.
pub open spec fn place(p: Placed, base: int, vertex: usize) -> Placed {
    if p.known.contains_key(vertex) {
        Placed { added: p.added, known: p.known, indices: p.indices.push(p.known[vertex]) }
    } else {
        let index = (base + p.added.len()) as u32;
        Placed {
            added: p.added.push(vertex),
            known: p.known.insert(vertex, index),
            indices: p.indices.push(index),
        }
    }
}

/// Places vertices, one after the other.
pub open spec fn place_all(p: Placed, base: int, vertices: Seq<usize>) -> Placed
    decreases vertices.len(),
{
    if vertices.len() == 0 {
        p
    } else {
        place(place_all(p, base, vertices.drop_last()), base, vertices.last())
    }
}

/// Before anything is placed.
pub open spec fn nothing_placed(known: Map<usize, u32>) -> Placed {
    Placed { added: Seq::empty(), known, indices: Seq::empty() }
}

/// Whether a vertex has a position.
pub open spec fn has_position(positions: Seq<Option<Vec3>>, vertex: usize) -> bool {
    vertex < positions.len() && positions[vertex as int] is Some
}

/// Whether a vertex can be placed: it is in the mesh, or has a position.
pub open spec fn placeable(
    known: Map<usize, u32>,
    positions: Seq<Option<Vec3>>,
    vertex: usize,
) -> bool {
    known.contains_key(vertex) || has_position(positions, vertex)
}

/// Whether the vertices can be placed up to `at`, and the one there cannot.
pub open spec fn stops_at(
    known: Map<usize, u32>,
    positions: Seq<Option<Vec3>>,
    vertices: Seq<usize>,
    at: int,
) -> bool {
    &&& 0 <= at < vertices.len()
    &&& !placeable(known, positions, vertices[at])
    &&& forall|k: int| 0 <= k < at ==> placeable(known, positions, #[trigger] vertices[k])
}

/// What stops a surface from being added.
#[derive(Clone, Copy, Debug, PartialEq, Eq, Structural)]
pub enum SurfaceError {
    /// The feature has no vertex of this number.
    NoSuchVertex(usize),
    /// The position of this vertex could not be computed.
    Transform(usize),
}

/// The error for a vertex that cannot be placed.
pub open spec fn error_for(positions: Seq<Option<Vec3>>, vertex: usize) -> SurfaceError {
    if vertex < positions.len() {
        SurfaceError::Transform(vertex)
    } else {
        SurfaceError::NoSuchVertex(vertex)
    }
}

/// Everything that is known of a placing: each placed vertex is known, each
/// known vertex was so before or has been added, and added vertices have
/// positions.
spec fn placing_holds(
    p: Placed,
    known: Map<usize, u32>,
    positions: Seq<Option<Vec3>>,
    base: int,
) -> bool {
    &&& forall|v: usize| #[trigger] known.contains_key(v) ==> p.known.contains_key(v)
    &&& forall|v: usize| #[trigger]
        p.known.contains_key(v) ==> known.contains_key(v) || has_position(positions, v)
    &&& forall|k: int| 0 <= k < p.added.len() ==> has_position(positions, #[trigger] p.added[k])
    &&& forall|v: usize| #[trigger] p.known.contains_key(v) ==> p.known[v] < base + p.added.len()
    &&& forall|k: int| 0 <= k < p.indices.len() ==> #[trigger] p.indices[k] < base + p.added.len()
}

/// Whether the indices in a cache are those of vertices of the mesh.
pub open spec fn cache_fits(known: Map<usize, u32>, count: int) -> bool {
    forall|v: usize| #[trigger] known.contains_key(v) ==> known[v] < count
}

/// The outline of a shorter list of rings is a beginning of the whole.
proof fn lemma_outline_grows(rings: Seq<Vec<usize>>, n: int)
    requires
        0 <= n <= rings.len(),
    ensures
        outline(rings.take(n)).is_prefix_of(outline(rings)),
    decreases rings.len(),
{
    if n == rings.len() {
        assert(rings.take(n) =~= rings);
        assert(outline(rings) =~= outline(rings).take(outline(rings).len() as int));
    } else {
        let rest = rings.drop_last();
        assert(rest.take(n) =~= rings.take(n));
        lemma_outline_grows(rest, n);
        let short = outline(rings.take(n));
        assert(short =~= outline(rest).take(short.len() as int));
        assert(short =~= outline(rings).take(short.len() as int));
    }
}

/// What the mesh is after new vertices: their positions, empty normals, one
/// color and one surface number. The rest stays.
pub open spec fn grown(
    before: MeshBuilder,
    after: MeshBuilder,
    added: Seq<usize>,
    positions: Seq<Option<Vec3>>,
    color: Vec4,
    batch: u32,
) -> bool {
    let n = added.len();
    &&& after.positions@ == before.positions@ + Seq::new(
        n,
        |i: int| positions[added[i] as int]->0,
    )
    &&& after.normals@ == before.normals@ + Seq::new(n, |i: int| Vec3 { x: 0, y: 0, z: 0 })
    &&& after.colors@ == before.colors@ + Seq::new(n, |i: int| color)
    &&& after.batch_ids@ == before.batch_ids@ + Seq::new(n, |i: int| batch)
    &&& after.indices@ == before.indices@
    &&& same_table(before, after)
}

/// Whether the tables of surfaces are the same.
pub open spec fn same_table(a: MeshBuilder, b: MeshBuilder) -> bool {
    &&& a.next_batch_index == b.next_batch_index
    &&& a.batch_id_to_cityobject_id == b.batch_id_to_cityobject_id
    &&& a.batch_id_to_cityobject_type == b.batch_id_to_cityobject_type
    &&& a.batch_id_to_surface_type == b.batch_id_to_surface_type
    &&& a.attribute_sets == b.attribute_sets
    &&& a.batch_id_to_attributes == b.batch_id_to_attributes
    &&& a.batch_id_to_area == b.batch_id_to_area
    &&& a.batch_id_to_azimuth == b.batch_id_to_azimuth
    &&& a.batch_id_to_elevation == b.batch_id_to_elevation
    &&& a.metallic_factor == b.metallic_factor
    &&& a.roughness_factor == b.roughness_factor
}

/// What comes of a surface.
#[derive(Debug)]
pub enum SurfaceStep {
    /// It has no exterior ring.
    Nothing,
    /// Its triangles are known. `vertices` are the indices of its outline.
    Faces { vertices: Vec<u32>, faces: Vec<u32> },
    /// Its outline, with the places where holes begin, has to be divided into
    /// triangles.
    Outline { vertices: Vec<u32>, holes: Vec<usize> },
}

/// What comes of a surface whose outline has been placed: one ring of three
/// vertices is a triangle, one of four is two triangles.
pub open spec fn step_for(
    step: SurfaceStep,
    rings: Seq<Vec<usize>>,
    indices: Seq<u32>,
) -> bool {
    if rings.len() == 1 && indices.len() == 3 {
        step matches SurfaceStep::Faces { vertices, faces } && vertices@ == indices && faces@
            == seq![indices[0], indices[1], indices[2]]
    } else if rings.len() == 1 && indices.len() == 4 {
        step matches SurfaceStep::Faces { vertices, faces } && vertices@ == indices && faces@
            == seq![indices[0], indices[1], indices[2], indices[0], indices[2], indices[3]]
    } else {
        step matches SurfaceStep::Outline { vertices, holes } && vertices@ == indices && holes@
            == hole_starts(rings)
    }
}

/// Whether the outline of a surface was put in the mesh, and `step` is what
/// comes of the surface. `known` and `known_after` are the vertices in the
/// cache before and after.
pub open spec fn surface_added(
    before: MeshBuilder,
    after: MeshBuilder,
    known: Map<usize, u32>,
    known_after: Map<usize, u32>,
    rings: Seq<Vec<usize>>,
    positions: Seq<Option<Vec3>>,
    color: Vec4,
    batch: u32,
    step: SurfaceStep,
) -> bool {
    if has_exterior(rings) {
        let p = place_all(
            nothing_placed(known),
            before.positions@.len() as int,
            outline(rings),
        );
        &&& forall|i: int|
            0 <= i < outline(rings).len() ==> placeable(
                known,
                positions,
                #[trigger] outline(rings)[i],
            )
        &&& grown(before, after, p.added, positions, color, batch)
        &&& known_after == p.known
        &&& p.indices.len() == outline(rings).len()
        &&& step_for(step, rings, p.indices)
    } else {
        &&& step is Nothing
        &&& after == before
        &&& known_after == known
    }
}

impl MeshBuilder {
    /// Whether the mesh is consistent: every vertex has all its attributes,
    /// triangles have three corners, and corners are vertices.
    pub open spec fn sound(self) -> bool {
        &&& self.normals@.len() == self.positions@.len()
        &&& self.colors@.len() == self.positions@.len()
        &&& self.batch_ids@.len() == self.positions@.len()
        &&& self.indices@.len() % 3 == 0
        &&& forall|i: int|
            0 <= i < self.indices@.len() ==> #[trigger] self.indices@[i] < self.positions@.len()
    }

    /// Puts the vertex in the mesh, unless it is there, and returns its index.
    fn place_vertex(
        &mut self,
        vertex: usize,
        positions: &[Option<Vec3>],
        color: Vec4,
        batch: u32,
        cache: &mut VertexCache,
        Ghost(before): Ghost<MeshBuilder>,
        Ghost(p): Ghost<Placed>,
    ) -> (r: Result<u32, SurfaceError>)
        requires
            grown(before, *old(self), p.added, positions@, color, batch),
            old(cache)@ == p.known,
            before.positions@.len() + p.added.len() < u32::MAX,
        ensures
            match r {
                Ok(index) => {
                    let q = place(p, before.positions@.len() as int, vertex);
                    &&& placeable(p.known, positions@, vertex)
                    &&& grown(before, *final(self), q.added, positions@, color, batch)
                    &&& final(cache)@ == q.known
                    &&& q.indices == p.indices.push(index)
                },
                Err(e) => {
                    &&& !placeable(p.known, positions@, vertex)
                    &&& e == error_for(positions@, vertex)
                    &&& grown(before, *final(self), p.added, positions@, color, batch)
                    &&& final(cache)@ == old(cache)@
                },
            },
    {
        match look_up(&cache.map, vertex) {
            Some(index) => Ok(index),
            None => {
                if vertex >= positions.len() {
                    return Err(SurfaceError::NoSuchVertex(vertex));
                }
                match positions[vertex] {
                    Some(position) => {
                        let index: u32 = self.positions.len() as u32;
                        self.positions.push(position);
                        self.normals.push(Vec3 { x: 0, y: 0, z: 0 });
                        self.colors.push(color);
                        self.batch_ids.push(batch);
                        remember(&mut cache.map, vertex, index);
                        proof {
                            let q = place(p, before.positions@.len() as int, vertex);
                            let n = q.added.len();
                            assert(self.positions@ =~= before.positions@ + Seq::new(
                                n,
                                |i: int| positions@[q.added[i] as int]->0,
                            ));
                            assert(self.normals@ =~= before.normals@ + Seq::new(
                                n,
                                |i: int| Vec3 { x: 0, y: 0, z: 0 },
                            ));
                            assert(self.colors@ =~= before.colors@ + Seq::new(n, |i: int| color));
                            assert(self.batch_ids@ =~= before.batch_ids@ + Seq::new(
                                n,
                                |i: int| batch,
                            ));
                        }
                        Ok(index)
                    },
                    None => Err(SurfaceError::Transform(vertex)),
                }
            },
        }
    }

    /// Puts the outline of a surface in the mesh. `positions` are the
    /// positions of the feature's vertices, as far as they could be computed;
    /// vertices in the cache are shared.
    pub fn add_surface_cached(
        &mut self,
        rings: &[Vec<usize>],
        positions: &[Option<Vec3>],
        batch_index: u32,
        color: Vec4,
        cache: &mut VertexCache,
    ) -> (r: Result<SurfaceStep, SurfaceError>)
        requires
            old(self).sound(),
            cache_fits(old(cache)@, old(self).positions@.len() as int),
            old(self).positions@.len() + outline(rings@).len() < u32::MAX,
        ensures
            final(self).sound(),
            same_table(*old(self), *final(self)),
            final(self).indices@ == old(self).indices@,
            cache_fits(final(cache)@, final(self).positions@.len() as int),
            match r {
                Ok(step) => {
                    &&& surface_added(
                        *old(self),
                        *final(self),
                        old(cache)@,
                        final(cache)@,
                        rings@,
                        positions@,
                        color,
                        batch_index,
                        step,
                    )
                    &&& has_exterior(rings@) ==> forall|i: int|
                        0 <= i < outline(rings@).len() ==> #[trigger] place_all(
                            nothing_placed(old(cache)@),
                            old(self).positions@.len() as int,
                            outline(rings@),
                        ).indices[i] < final(self).positions@.len()
                },
                Err(e) => has_exterior(rings@) && exists|at: int| #[trigger]
                    stops_at(old(cache)@, positions@, outline(rings@), at) && {
                        let p = place_all(
                            nothing_placed(old(cache)@),
                            old(self).positions@.len() as int,
                            outline(rings@).take(at),
                        );
                        &&& e == error_for(positions@, outline(rings@)[at])
                        &&& grown(
                            *old(self),
                            *final(self),
                            p.added,
                            positions@,
                            color,
                            batch_index,
                        )
                        &&& final(cache)@ == p.known
                    },
            },
    {
        if rings.len() == 0 || rings[0].len() < 3 {
            return Ok(SurfaceStep::Nothing);
        }
        let ghost before = *self;
        let ghost known = cache@;
        let ghost base = self.positions@.len() as int;
        let ghost all = outline(rings@);
        let mut indices: Vec<u32> = Vec::new();
        let mut holes: Vec<usize> = Vec::new();
        let ghost mut p = nothing_placed(known);
        let n: usize = rings.len();
        let mut r: usize = 0;
        assert(rings@.take(0) =~= Seq::<Vec<usize>>::empty());
        while r < n
            invariant
                r <= n,
                n == rings@.len(),
                before.sound(),
                base == before.positions@.len(),
                all == outline(rings@),
                base + all.len() < u32::MAX,
                has_exterior(rings@),
                before == *old(self),
                known == old(cache)@,
                cache_fits(known, base),
                p == place_all(nothing_placed(known), base, outline(rings@.take(r as int))),
                placing_holds(p, known, positions@, base),
                grown(before, *self, p.added, positions@, color, batch_index),
                cache@ == p.known,
                indices@ == p.indices,
                p.indices.len() == outline(rings@.take(r as int)).len(),
                p.added.len() <= p.indices.len(),
                holes@ == hole_starts(rings@.take(r as int)),
                forall|k: int|
                    0 <= k < outline(rings@.take(r as int)).len() ==> placeable(
                        known,
                        positions@,
                        #[trigger] outline(rings@.take(r as int))[k],
                    ),
            decreases n - r,
        {
            let ring = &rings[r];
            let ghost done = outline(rings@.take(r as int));
            proof {
                assert(rings@.take(r + 1).drop_last() =~= rings@.take(r as int));
                assert(rings@.take(r + 1).last() == rings@[r as int]);
                lemma_outline_grows(rings@, r + 1);
            }
            if ring.len() >= 3 {
                if r > 0 {
                    holes.push(indices.len());
                }
                let m: usize = ring.len();
                let mut i: usize = 0;
                assert(ring@.take(0) =~= Seq::<usize>::empty());
                assert(done + ring@.take(0) =~= done);
                let ghost whole = done + ring@;
                while i < m
                    invariant
                        i <= m,
                        m == ring@.len(),
                        before.sound(),
                        base == before.positions@.len(),
                        all == outline(rings@),
                        base + all.len() < u32::MAX,
                        whole == done + ring@,
                        whole.is_prefix_of(all),
                        has_exterior(rings@),
                        before == *old(self),
                        known == old(cache)@,
                        cache_fits(known, base),
                        p == place_all(nothing_placed(known), base, done + ring@.take(i as int)),
                        placing_holds(p, known, positions@, base),
                        grown(before, *self, p.added, positions@, color, batch_index),
                        cache@ == p.known,
                        indices@ == p.indices,
                        p.indices.len() == done.len() + i,
                        p.added.len() <= p.indices.len(),
                        forall|k: int|
                            0 <= k < done.len() + i ==> placeable(
                                known,
                                positions@,
                                #[trigger] whole[k],
                            ),
                    decreases m - i,
                {
                    let vertex: usize = ring[i];
                    let ghost next = done + ring@.take(i + 1);
                    proof {
                        assert(next.drop_last() =~= done + ring@.take(i as int));
                        assert(next.last() == vertex);
                        assert(whole[done.len() + i] == vertex);
                    }
                    match self.place_vertex(
                        vertex,
                        positions,
                        color,
                        batch_index,
                        cache,
                        Ghost(before),
                        Ghost(p),
                    ) {
                        Ok(index) => {
                            indices.push(index);
                            proof {
                                let q = place(p, base, vertex);
                                assert(placeable(known, positions@, vertex)) by {
                                    if p.known.contains_key(vertex) {
                                        assert(known.contains_key(vertex) || has_position(
                                            positions@,
                                            vertex,
                                        ));
                                    }
                                }
                                p = q;
                            }
                        },
                        Err(e) => {
                            proof {
                                let at = done.len() + i;
                                assert(whole =~= all.take(whole.len() as int));
                                assert(all[at as int] == vertex);
                                assert forall|k: int| 0 <= k < at implies placeable(
                                    known,
                                    positions@,
                                    #[trigger] all[k],
                                ) by {
                                    assert(all[k] == whole[k]);
                                }
                                assert(!placeable(known, positions@, vertex));
                                assert(stops_at(known, positions@, all, at as int));
                                assert(all.take(at as int) =~= done + ring@.take(i as int));
                            }
                            return Err(e);
                        },
                    }
                    i += 1;
                }
                proof {
                    assert(ring@.take(m as int) =~= ring@);
                    assert forall|k: int|
                        0 <= k < outline(rings@.take(r + 1)).len() implies placeable(
                        known,
                        positions@,
                        #[trigger] outline(rings@.take(r + 1))[k],
                    ) by {
                        assert(outline(rings@.take(r + 1))[k] == whole[k]);
                    }
                }
            }
            r += 1;
        }
        proof {
            assert(rings@.take(n as int) =~= rings@);
            assert forall|i: int| 0 <= i < self.indices@.len() implies #[trigger] self.indices@[i]
                < self.positions@.len() by {
                assert(before.indices@[i] < before.positions@.len());
            }
        }
        if n == 1 {
            if indices.len() == 3 {
                let faces: Vec<u32> = vec![indices[0], indices[1], indices[2]];
                return Ok(SurfaceStep::Faces { vertices: indices, faces });
            }
            if indices.len() == 4 {
                let faces: Vec<u32> = vec![
                    indices[0],
                    indices[1],
                    indices[2],
                    indices[0],
                    indices[2],
                    indices[3],
                ];
                return Ok(SurfaceStep::Faces { vertices: indices, faces });
            }
        }
        Ok(SurfaceStep::Outline { vertices: indices, holes })
    }
}

// --------------------------------------------------------------- triangles

impl MeshBuilder {
    /// Puts the outline of a surface in the mesh without sharing vertices with
    /// other surfaces.
    pub fn add_surface(
        &mut self,
        rings: &[Vec<usize>],
        positions: &[Option<Vec3>],
        batch_index: u32,
        color: Vec4,
    ) -> (r: Result<SurfaceStep, SurfaceError>)
        requires
            old(self).sound(),
            old(self).positions@.len() + outline(rings@).len() < u32::MAX,
        ensures
            final(self).sound(),
            same_table(*old(self), *final(self)),
            final(self).indices@ == old(self).indices@,
            match r {
                Ok(step) => if has_exterior(rings@) {
                    let p = place_all(
                        nothing_placed(Map::empty()),
                        old(self).positions@.len() as int,
                        outline(rings@),
                    );
                    &&& forall|i: int|
                        0 <= i < outline(rings@).len() ==> has_position(
                            positions@,
                            #[trigger] outline(rings@)[i],
                        )
                    &&& grown(*old(self), *final(self), p.added, positions@, color, batch_index)
                    &&& step_for(step, rings@, p.indices)
                } else {
                    step is Nothing && *final(self) == *old(self)
                },
                Err(e) => has_exterior(rings@) && exists|at: int| #[trigger]
                    stops_at(Map::empty(), positions@, outline(rings@), at) && {
                        let p = place_all(
                            nothing_placed(Map::empty()),
                            old(self).positions@.len() as int,
                            outline(rings@).take(at),
                        );
                        &&& e == error_for(positions@, outline(rings@)[at])
                        &&& grown(
                            *old(self),
                            *final(self),
                            p.added,
                            positions@,
                            color,
                            batch_index,
                        )
                    },
            },
    {
        let mut cache = VertexCache::new();
        self.add_surface_cached(rings, positions, batch_index, color, &mut cache)
    }
}

/// Which of three lengths is the smallest; of equal ones, the first.
pub open spec fn shortest(lengths: Vec3) -> int {
    if crate::float_bits::f32_lt(lengths.y, lengths.x) {
        if crate::float_bits::f32_lt(lengths.z, lengths.y) {
            2
        } else {
            1
        }
    } else if crate::float_bits::f32_lt(lengths.z, lengths.x) {
        2
    } else {
        0
    }
}

/// The axis along which an outline is flattened: the one along which it
/// reaches least far.
pub fn drop_axis(reach: &Vec3) -> (r: usize)
    requires
        !crate::float_bits::f32_is_nan(reach.x),
        !crate::float_bits::f32_is_nan(reach.y),
        !crate::float_bits::f32_is_nan(reach.z),
    ensures
        r == shortest(*reach),
{
    if lt_f32(reach.y, reach.x) {
        if lt_f32(reach.z, reach.y) {
            2
        } else {
            1
        }
    } else if lt_f32(reach.z, reach.x) {
        2
    } else {
        0
    }
}

/// The two numbers of a position that are left when an axis is dropped.
pub open spec fn flattened(position: Vec3, axis: usize) -> (u32, u32) {
    if axis == 0 {
        (position.y, position.z)
    } else if axis == 1 {
        (position.x, position.z)
    } else {
        (position.x, position.y)
    }
}

impl MeshBuilder {
    /// Adds triangles. What is left over after whole triangles is ignored.
    pub fn emit_triangles(&mut self, faces: &[u32])
        requires
            old(self).sound(),
            forall|i: int|
                0 <= i < faces@.len() ==> #[trigger] faces@[i] < old(self).positions@.len(),
        ensures
            final(self).sound(),
            final(self).indices@ == old(self).indices@ + faces@.take(
                faces@.len() as int / 3 * 3,
            ),
            final(self).positions == old(self).positions,
            final(self).normals == old(self).normals,
            final(self).colors == old(self).colors,
            final(self).batch_ids == old(self).batch_ids,
            same_table(*old(self), *final(self)),
    {
        let ghost before = *self;
        let n: usize = faces.len() / 3 * 3;
        let mut i: usize = 0;
        while i < n
            invariant
                i <= n <= faces@.len(),
                before == *old(self),
                self.indices@ =~= before.indices@ + faces@.take(i as int),
                self.positions == before.positions,
                self.normals == before.normals,
                self.colors == before.colors,
                self.batch_ids == before.batch_ids,
                same_table(before, *self),
            decreases n - i,
        {
            self.indices.push(faces[i]);
            i += 1;
        }
        proof {
            assert forall|k: int| 0 <= k < self.indices@.len() implies #[trigger] self.indices@[k]
                < self.positions@.len() by {
                if k < before.indices@.len() {
                    assert(before.indices@[k] < before.positions@.len());
                } else {
                    assert(faces@[k - before.indices@.len()] < before.positions@.len());
                }
            }
        }
    }
}

/// The reach of an outline along the three axes, from the smallest to the
/// largest finite number.
pub fn outline_extent(points: &[Vec3]) -> (r: (Vec3, Vec3))
    ensures
        r.0.x == crate::gltf_writer::extents::lowest_finite(
            crate::gltf_writer::extents::along(points@, 0),
        ),
        r.0.y == crate::gltf_writer::extents::lowest_finite(
            crate::gltf_writer::extents::along(points@, 1),
        ),
        r.0.z == crate::gltf_writer::extents::lowest_finite(
            crate::gltf_writer::extents::along(points@, 2),
        ),
        r.1.x == crate::gltf_writer::extents::highest_finite(
            crate::gltf_writer::extents::along(points@, 0),
        ),
        r.1.y == crate::gltf_writer::extents::highest_finite(
            crate::gltf_writer::extents::along(points@, 1),
        ),
        r.1.z == crate::gltf_writer::extents::highest_finite(
            crate::gltf_writer::extents::along(points@, 2),
        ),
{
    let (x0, x1) = finite_extent(points, 0);
    let (y0, y1) = finite_extent(points, 1);
    let (z0, z1) = finite_extent(points, 2);
    (Vec3 { x: x0, y: y0, z: z0 }, Vec3 { x: x1, y: y1, z: z1 })
}

/// The points of an outline without the coordinate along an axis.
pub fn flatten(points: &[Vec3], axis: usize) -> (r: Vec<(u32, u32)>)
    ensures
        r@ == Seq::new(points@.len(), |i: int| flattened(points@[i], axis)),
{
    let mut r: Vec<(u32, u32)> = Vec::new();
    let n: usize = points.len();
    let mut i: usize = 0;
    while i < n
        invariant
            i <= n,
            n == points@.len(),
            r@ =~= Seq::new(i as nat, |k: int| flattened(points@[k], axis)),
        decreases n - i,
    {
        let p = points[i];
        if axis == 0 {
            r.push((p.y, p.z));
        } else if axis == 1 {
            r.push((p.x, p.z));
        } else {
            r.push((p.x, p.y));
        }
        i += 1;
    }
    r
}

/// The corners of triangles, from their places in the outline. Fewer than
/// three places make no triangle.
pub fn faces_of(vertices: &[u32], places: &[usize]) -> (r: Vec<u32>)
    requires
        forall|i: int| 0 <= i < places@.len() ==> #[trigger] places@[i] < vertices@.len(),
    ensures
        r@ == (if places@.len() < 3 {
            Seq::empty()
        } else {
            Seq::new(places@.len(), |i: int| vertices@[places@[i] as int])
        }),
{
    let mut r: Vec<u32> = Vec::new();
    let n: usize = places.len();
    if n < 3 {
        return r;
    }
    let mut i: usize = 0;
    while i < n
        invariant
            i <= n,
            n == places@.len(),
            forall|k: int| 0 <= k < places@.len() ==> #[trigger] places@[k] < vertices@.len(),
            r@ =~= Seq::new(i as nat, |k: int| vertices@[places@[k] as int]),
        decreases n - i,
    {
        assert(places@[i as int] < vertices@.len());
        r.push(vertices[places[i]]);
        i += 1;
    }
    r
}

// -------------------------------------------------------------------- laws

/// A vertex that occurs again gets the same index: places in the outline with
/// the same vertex have the same index.
pub proof fn law_equal_vertices_share_an_index(
    known: Map<usize, u32>,
    base: int,
    vertices: Seq<usize>,
    i: int,
    j: int,
)
    requires
        0 <= i < vertices.len(),
        0 <= j < vertices.len(),
        vertices[i] == vertices[j],
    ensures
        place_all(nothing_placed(known), base, vertices).indices[i] == place_all(
            nothing_placed(known),
            base,
            vertices,
        ).indices[j],
{
    lemma_index_of_place(known, base, vertices, i);
    lemma_index_of_place(known, base, vertices, j);
}

/// The index at a place is the one that is known for its vertex.
proof fn lemma_index_of_place(known: Map<usize, u32>, base: int, vertices: Seq<usize>, i: int)
    requires
        0 <= i < vertices.len(),
    ensures
        ({
            let p = place_all(nothing_placed(known), base, vertices);
            &&& p.indices.len() == vertices.len()
            &&& p.known.contains_key(vertices[i])
            &&& p.indices[i] == p.known[vertices[i]]
        }),
    decreases vertices.len(),
{
    let head = vertices.drop_last();
    let p = place_all(nothing_placed(known), base, head);
    lemma_placed_count(known, base, head);
    if i < head.len() {
        lemma_index_of_place(known, base, head, i);
    }
}

proof fn lemma_placed_count(known: Map<usize, u32>, base: int, vertices: Seq<usize>)
    ensures
        place_all(nothing_placed(known), base, vertices).indices.len() == vertices.len(),
        place_all(nothing_placed(known), base, vertices).added.len() <= vertices.len(),
    decreases vertices.len(),
{
    if vertices.len() > 0 {
        lemma_placed_count(known, base, vertices.drop_last());
    }
}

/// Vertices that are all known keep their indices when they are placed, and
/// none is added.
proof fn lemma_known_vertices_stay(known: Map<usize, u32>, base: int, vertices: Seq<usize>)
    requires
        forall|i: int| 0 <= i < vertices.len() ==> known.contains_key(#[trigger] vertices[i]),
    ensures
        ({
            let q = place_all(nothing_placed(known), base, vertices);
            &&& q.added == Seq::<usize>::empty()
            &&& q.known == known
            &&& q.indices == Seq::new(vertices.len(), |i: int| known[vertices[i]])
        }),
    decreases vertices.len(),
{
    let q = place_all(nothing_placed(known), base, vertices);
    if vertices.len() > 0 {
        let head = vertices.drop_last();
        assert forall|i: int| 0 <= i < head.len() implies known.contains_key(
            #[trigger] head[i],
        ) by {
            assert(head[i] == vertices[i]);
        }
        lemma_known_vertices_stay(known, base, head);
        assert(known.contains_key(vertices[vertices.len() - 1]));
    }
    assert(q.indices =~= Seq::new(vertices.len(), |i: int| known[vertices[i]]));
}

/// A surface that is added again, with what its first adding left in the
/// cache, succeeds whatever the positions are, gets the same indices, adds no
/// vertex and leaves the cache as it is. `base` and `again` are the numbers of
/// vertices in the mesh before the two.
pub proof fn law_placing_again_adds_nothing(
    known: Map<usize, u32>,
    base: int,
    again: int,
    vertices: Seq<usize>,
    positions: Seq<Option<Vec3>>,
)
    ensures
        ({
            let p = place_all(nothing_placed(known), base, vertices);
            let q = place_all(nothing_placed(p.known), again, vertices);
            &&& forall|i: int|
                0 <= i < vertices.len() ==> placeable(p.known, positions, #[trigger] vertices[i])
            &&& q.added == Seq::<usize>::empty()
            &&& q.known == p.known
            &&& q.indices == p.indices
        }),
{
    let p = place_all(nothing_placed(known), base, vertices);
    assert forall|i: int| 0 <= i < vertices.len() implies p.known.contains_key(
        #[trigger] vertices[i],
    ) && p.indices[i] == p.known[vertices[i]] by {
        lemma_index_of_place(known, base, vertices, i);
    }
    lemma_known_vertices_stay(p.known, again, vertices);
    lemma_placed_count(known, base, vertices);
    assert(p.indices =~= Seq::new(vertices.len(), |i: int| p.known[vertices[i]]));
}

/// Where no vertex is added, the mesh keeps its vertices and triangles.
pub proof fn law_nothing_added_changes_nothing(
    before: MeshBuilder,
    after: MeshBuilder,
    positions: Seq<Option<Vec3>>,
    color: Vec4,
    batch: u32,
)
    requires
        grown(before, after, Seq::empty(), positions, color, batch),
    ensures
        after.positions@ == before.positions@,
        after.normals@ == before.normals@,
        after.colors@ == before.colors@,
        after.batch_ids@ == before.batch_ids@,
        after.indices@ == before.indices@,
{
    assert(after.positions@ =~= before.positions@);
    assert(after.normals@ =~= before.normals@);
    assert(after.colors@ =~= before.colors@);
    assert(after.batch_ids@ =~= before.batch_ids@);
}

/// Whether the same comes of a surface twice.
pub open spec fn same_step(a: SurfaceStep, b: SurfaceStep) -> bool {
    match (a, b) {
        (SurfaceStep::Nothing, SurfaceStep::Nothing) => true,
        (
            SurfaceStep::Faces { vertices, faces },
            SurfaceStep::Faces { vertices: others, faces: again },
        ) => vertices@ == others@ && faces@ == again@,
        (
            SurfaceStep::Outline { vertices, holes },
            SurfaceStep::Outline { vertices: others, holes: again },
        ) => vertices@ == others@ && holes@ == again@,
        _ => false,
    }
}

/// Once a surface has been added, it can be added again with the cache that is
/// left, whatever the positions, color and number: nothing stops it.
pub proof fn law_adding_again_succeeds(
    first: MeshBuilder,
    second: MeshBuilder,
    known: Map<usize, u32>,
    known_after: Map<usize, u32>,
    rings: Seq<Vec<usize>>,
    positions: Seq<Option<Vec3>>,
    color: Vec4,
    batch: u32,
    step: SurfaceStep,
    other_positions: Seq<Option<Vec3>>,
    at: int,
)
    requires
        surface_added(first, second, known, known_after, rings, positions, color, batch, step),
    ensures
        !(has_exterior(rings) && stops_at(known_after, other_positions, outline(rings), at)),
{
    law_placing_again_adds_nothing(
        known,
        first.positions@.len() as int,
        0,
        outline(rings),
        other_positions,
    );
}

/// What comes of a surface that is added again with the cache that its first
/// adding left: the same triangles or the same outline. The vertices of the
/// mesh and the cache stay as they are; so vertices keep their first number and
/// color.
pub proof fn law_adding_again_gives_the_same(
    first: MeshBuilder,
    second: MeshBuilder,
    third: MeshBuilder,
    fourth: MeshBuilder,
    known: Map<usize, u32>,
    known_after: Map<usize, u32>,
    known_at_last: Map<usize, u32>,
    rings: Seq<Vec<usize>>,
    positions: Seq<Option<Vec3>>,
    other_positions: Seq<Option<Vec3>>,
    color: Vec4,
    other_color: Vec4,
    batch: u32,
    other_batch: u32,
    step: SurfaceStep,
    again: SurfaceStep,
)
    requires
        surface_added(first, second, known, known_after, rings, positions, color, batch, step),
        surface_added(
            third,
            fourth,
            known_after,
            known_at_last,
            rings,
            other_positions,
            other_color,
            other_batch,
            again,
        ),
    ensures
        same_step(step, again),
        known_at_last == known_after,
        fourth.positions@ == third.positions@,
        fourth.normals@ == third.normals@,
        fourth.colors@ == third.colors@,
        fourth.batch_ids@ == third.batch_ids@,
        fourth.indices@ == third.indices@,
{
    law_placing_again_adds_nothing(
        known,
        first.positions@.len() as int,
        third.positions@.len() as int,
        outline(rings),
        other_positions,
    );
    if has_exterior(rings) {
        law_nothing_added_changes_nothing(
            third,
            fourth,
            other_positions,
            other_color,
            other_batch,
        );
    }
}

/// The outline of one list of rings after another is that of the one and then of
/// the other; that of a single ring is the ring, if it has three vertices.
pub proof fn law_outlines_join(a: Seq<Vec<usize>>, b: Seq<Vec<usize>>, one: Vec<usize>)
    ensures
        outline(a + b) == outline(a) + outline(b),
        one@.len() >= 3 ==> outline(seq![one]) == one@,
        one@.len() < 3 ==> outline(seq![one]) == Seq::<usize>::empty(),
    decreases b.len(),
{
    let none = Seq::<Vec<usize>>::empty();
    assert(seq![one].drop_last() =~= none);
    assert(seq![one].last() == one);
    assert(outline(none) =~= Seq::<usize>::empty());
    assert(Seq::<usize>::empty() + one@ =~= one@);
    if b.len() == 0 {
        assert(a + b =~= a);
        assert(outline(a) + outline(b) =~= outline(a));
    } else {
        assert((a + b).drop_last() =~= a + b.drop_last());
        law_outlines_join(a, b.drop_last(), one);
        assert(outline(a + b) =~= outline(a) + outline(b));
    }
}

/// Where no ring is too short, there is a hole for every ring but the first, and
/// its ring stands in the outline where the hole begins.
pub proof fn law_holes_begin_with_their_rings(rings: Seq<Vec<usize>>, k: int)
    requires
        forall|i: int| 0 <= i < rings.len() ==> (#[trigger] rings[i])@.len() >= 3,
        1 <= k < rings.len(),
        outline(rings).len() <= usize::MAX,
    ensures
        hole_starts(rings).len() == rings.len() - 1,
        hole_starts(rings)[k - 1] + rings[k]@.len() <= outline(rings).len(),
        outline(rings).subrange(
            hole_starts(rings)[k - 1] as int,
            hole_starts(rings)[k - 1] + rings[k]@.len(),
        ) == rings[k]@,
        rings[0]@.len() <= outline(rings).len(),
        outline(rings).take(rings[0]@.len() as int) == rings[0]@,
    decreases rings.len(),
{
    let head = rings.drop_last();
    assert forall|i: int| 0 <= i < head.len() implies (#[trigger] head[i])@.len() >= 3 by {
        assert(head[i] == rings[i]);
    }
    assert(rings.last()@.len() >= 3) by {
        assert(rings[rings.len() - 1]@.len() >= 3);
    }
    assert(outline(rings) == outline(head) + rings.last()@);
    assert(rings[0] == head[0]);
    if head.len() >= 2 {
        law_holes_begin_with_their_rings(head, if k < head.len() {
            k
        } else {
            1
        });
        let first = outline(head).take(rings[0]@.len() as int);
        assert(rings[0]@.len() <= outline(head).len());
        assert(outline(rings).take(rings[0]@.len() as int) =~= first);
        if k < head.len() {
            let at = hole_starts(head)[k - 1] as int;
            assert(hole_starts(rings)[k - 1] == hole_starts(head)[k - 1]);
            assert(outline(rings).subrange(at, at + rings[k]@.len()) =~= outline(head).subrange(
                at,
                at + rings[k]@.len(),
            ));
        }
    } else {
        law_outlines_join(Seq::empty(), Seq::empty(), rings[0]);
        assert(head =~= seq![rings[0]]);
        assert(hole_starts(head) =~= Seq::<usize>::empty());
        assert(outline(rings).take(rings[0]@.len() as int) =~= rings[0]@);
    }
    if k == rings.len() - 1 {
        let at = outline(head).len() as int;
        assert(hole_starts(rings)[k - 1] == at);
        assert(outline(rings).subrange(at, at + rings[k]@.len()) =~= rings[k]@);
    }
}

/// The sum of a measure of directed edges over the border of triangles.
pub open spec fn border(corners: Seq<u32>, measure: spec_fn(u32, u32) -> int) -> int
    decreases corners.len(),
{
    if corners.len() < 3 {
        0
    } else {
        let n = corners.len() as int;
        border(corners.take(n - 3), measure) + measure(corners[n - 3], corners[n - 2]) + measure(
            corners[n - 2],
            corners[n - 1],
        ) + measure(corners[n - 1], corners[n - 3])
    }
}

/// The triangles of a surface with one ring of three or four vertices have the
/// ring as their border, in its direction: what they share inside cancels out.
/// They all begin at the first vertex.
pub proof fn law_simple_triangles_fill_the_ring(
    step: SurfaceStep,
    rings: Seq<Vec<usize>>,
    indices: Seq<u32>,
    measure: spec_fn(u32, u32) -> int,
)
    requires
        step_for(step, rings, indices),
        rings.len() == 1,
        indices.len() == 3 || indices.len() == 4,
        forall|a: u32, b: u32| #[trigger] measure(a, b) == -measure(b, a),
    ensures
        step matches SurfaceStep::Faces { vertices, faces } && {
            &&& vertices@ == indices
            &&& faces@.len() == 3 * (indices.len() - 2)
            &&& forall|t: int| 0 <= t < indices.len() - 2 ==> faces@[#[trigger] (3 * t)] == indices[0]
            &&& border(faces@, measure) == (if indices.len() == 3 {
                measure(indices[0], indices[1]) + measure(indices[1], indices[2]) + measure(
                    indices[2],
                    indices[0],
                )
            } else {
                measure(indices[0], indices[1]) + measure(indices[1], indices[2]) + measure(
                    indices[2],
                    indices[3],
                ) + measure(indices[3], indices[0])
            })
        },
{
    reveal_with_fuel(border, 3);
    match step {
        SurfaceStep::Faces { vertices, faces } => {
            let s = faces@;
            if indices.len() == 4 {
                assert(s.take(3) =~= seq![indices[0], indices[1], indices[2]]);
                assert(s.take(3).take(0) =~= Seq::<u32>::empty());
                assert(measure(indices[2], indices[0]) == -measure(indices[0], indices[2]));
                assert(s[0] == indices[0] && s[3] == indices[0]);
            } else {
                assert(s.take(0) =~= Seq::<u32>::empty());
                assert(s[0] == indices[0]);
            }
        },
        _ => {},
    }
}

/// Vertices that are new and differ get the next indices, in their order.
pub proof fn law_new_vertices_get_the_next_indices(
    known: Map<usize, u32>,
    base: int,
    vertices: Seq<usize>,
)
    requires
        0 <= base,
        base + vertices.len() <= u32::MAX,
        vertices.no_duplicates(),
        forall|i: int| 0 <= i < vertices.len() ==> !known.contains_key(#[trigger] vertices[i]),
    ensures
        ({
            let p = place_all(nothing_placed(known), base, vertices);
            &&& p.added == vertices
            &&& p.indices == Seq::new(vertices.len(), |i: int| (base + i) as u32)
            &&& forall|v: usize| #[trigger]
                p.known.contains_key(v) <==> known.contains_key(v) || vertices.contains(v)
        }),
    decreases vertices.len(),
{
    let p = place_all(nothing_placed(known), base, vertices);
    if vertices.len() > 0 {
        let head = vertices.drop_last();
        assert forall|i: int, j: int| 0 <= i < head.len() && 0 <= j < head.len() && i
            != j implies head[i] != head[j] by {
            assert(vertices[i] != vertices[j]);
        }
        assert forall|i: int| 0 <= i < head.len() implies !known.contains_key(
            #[trigger] head[i],
        ) by {
            assert(head[i] == vertices[i]);
        }
        law_new_vertices_get_the_next_indices(known, base, head);
        let last = vertices.last();
        assert(vertices[vertices.len() - 1] == last);
        assert(!head.contains(last)) by {
            if head.contains(last) {
                let i = choose|i: int| 0 <= i < head.len() && head[i] == last;
                assert(vertices[i] == vertices[vertices.len() - 1]);
            }
        }
        assert(head.push(last) =~= vertices);
        assert forall|v: usize| #[trigger] p.known.contains_key(v) <==> known.contains_key(v)
            || vertices.contains(v) by {
            vstd::seq_lib::lemma_seq_contains_after_push(head, last, v);
        }
        assert(p.indices =~= Seq::new(vertices.len(), |i: int| (base + i) as u32));
    } else {
        assert(p.added =~= vertices);
        assert(p.indices =~= Seq::new(vertices.len(), |i: int| (base + i) as u32));
    }
}

/// Every vertex that a surface adds has the position that was given for it, the
/// color and the number of the surface, and a normal of zeros; the vertices
/// before stay.
pub proof fn law_added_vertices_are_told(
    before: MeshBuilder,
    after: MeshBuilder,
    added: Seq<usize>,
    positions: Seq<Option<Vec3>>,
    color: Vec4,
    batch: u32,
    i: int,
)
    requires
        before.sound(),
        grown(before, after, added, positions, color, batch),
        0 <= i < before.positions@.len() + added.len(),
    ensures
        after.positions@.len() == before.positions@.len() + added.len(),
        i < before.positions@.len() ==> {
            &&& after.positions@[i] == before.positions@[i]
            &&& after.normals@[i] == before.normals@[i]
            &&& after.colors@[i] == before.colors@[i]
            &&& after.batch_ids@[i] == before.batch_ids@[i]
        },
        i >= before.positions@.len() ==> {
            let vertex = added[i - before.positions@.len()] as int;
            &&& positions[vertex] matches Some(position) ==> after.positions@[i] == position
            &&& after.normals@[i] == (Vec3 { x: 0, y: 0, z: 0 })
            &&& after.colors@[i] == color
            &&& after.batch_ids@[i] == batch
        },
        after.indices@ == before.indices@,
{
}

/// No length is less than the shortest, and all before it are more.
pub proof fn law_shortest_length(lengths: Vec3)
    requires
        !crate::float_bits::f32_is_nan(lengths.x),
        !crate::float_bits::f32_is_nan(lengths.y),
        !crate::float_bits::f32_is_nan(lengths.z),
    ensures
        ({
            let all = seq![lengths.x, lengths.y, lengths.z];
            let s = shortest(lengths);
            &&& 0 <= s < 3
            &&& forall|k: int| 0 <= k < 3 ==> !crate::float_bits::f32_lt(#[trigger] all[k], all[s])
            &&& forall|k: int| 0 <= k < s ==> crate::float_bits::f32_lt(all[s], #[trigger] all[k])
        }),
{
    let all = seq![lengths.x, lengths.y, lengths.z];
    assert(all[0] == lengths.x && all[1] == lengths.y && all[2] == lengths.z);
}

/// What is left of a position without an axis makes up the position, with the
/// number along that axis put back in its place.
pub proof fn law_flattening_drops_one_axis(position: Vec3, axis: usize)
    requires
        axis < 3,
    ensures
        ({
            let all = seq![position.x, position.y, position.z];
            let left = flattened(position, axis);
            seq![left.0, left.1].insert(axis as int, all[axis as int]) == all
        }),
{
    let all = seq![position.x, position.y, position.z];
    let left = flattened(position, axis);
    assert(seq![left.0, left.1].insert(axis as int, all[axis as int]) =~= all);
}

/// A vertex that cannot be placed is told by its number: as one that does not
/// exist where there are no more vertices, else as one without a position.
pub proof fn law_errors_name_the_vertex(positions: Seq<Option<Vec3>>, vertex: usize)
    ensures
        vertex >= positions.len() ==> error_for(positions, vertex) == SurfaceError::NoSuchVertex(
            vertex,
        ),
        vertex < positions.len() ==> error_for(positions, vertex) == SurfaceError::Transform(
            vertex,
        ),
{
}

/// A surface that is stopped is stopped at its first vertex that is neither in
/// the mesh nor has a position; where every vertex has one, nothing stops it.
pub proof fn law_first_missing_vertex_stops(
    known: Map<usize, u32>,
    positions: Seq<Option<Vec3>>,
    vertices: Seq<usize>,
    at: int,
    k: int,
)
    requires
        stops_at(known, positions, vertices, at),
        0 <= k < vertices.len(),
    ensures
        0 <= at < vertices.len(),
        !known.contains_key(vertices[at]),
        vertices[at] >= positions.len() || positions[vertices[at] as int] is None,
        k < at ==> known.contains_key(vertices[k]) || (vertices[k] < positions.len()
            && positions[vertices[k] as int] is Some),
{
    if k < at {
        assert(placeable(known, positions, vertices[k]));
    }
}

} // verus!

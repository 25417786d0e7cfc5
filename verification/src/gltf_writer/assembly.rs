//! Adding whole features to the mesh of a tile.

use crate::gltf_writer::feature::{
    object_color, CityObject, Feature, FeaturePlan, Geometry, Surface, SurfaceJob, NO_ROW,
};
use crate::gltf_writer::mesh::{MeshBuilder, Vec3, Vec4};
use crate::gltf_writer::surface::{faces_of, Placed, SurfaceError, SurfaceStep, VertexCache};
use vstd::prelude::*;

verus! {

// ------------------------------------------------------------------- shapes

/// What is computed of the shape of a surface: the triangles of its outline,
/// by the places of their corners in it, and its measures, which are single
/// precision numbers, by their bits.
#[derive(Debug)]
pub struct SurfaceShape {
    pub triangles: Vec<usize>,
    pub area: u32,
    pub azimuth: u32,
    pub elevation: u32,
}

/// What a mesh holds.
#[verifier::ext_equal]
pub struct MeshModel {
    pub positions: Seq<Vec3>,
    pub normals: Seq<Vec3>,
    pub colors: Seq<Vec4>,
    pub batch_ids: Seq<u32>,
    pub indices: Seq<u32>,
    pub row_count: u32,
    pub ids: Seq<Seq<char>>,
    pub types: Seq<Seq<char>>,
    pub surface_types: Seq<Seq<char>>,
    pub attributes: Seq<Option<usize>>,
    pub areas: Seq<u32>,
    pub azimuths: Seq<u32>,
    pub elevations: Seq<u32>,
}

impl MeshBuilder {
    /// What the mesh holds.
    pub open spec fn model(self) -> MeshModel {
        MeshModel {
            positions: self.positions@,
            normals: self.normals@,
            colors: self.colors@,
            batch_ids: self.batch_ids@,
            indices: self.indices@,
            row_count: self.next_batch_index,
            ids: crate::json::texts_of(self.batch_id_to_cityobject_id@),
            types: crate::json::texts_of(self.batch_id_to_cityobject_type@),
            surface_types: crate::json::texts_of(self.batch_id_to_surface_type@),
            attributes: self.batch_id_to_attributes@,
            areas: self.batch_id_to_area@,
            azimuths: self.batch_id_to_azimuth@,
            elevations: self.batch_id_to_elevation@,
        }
    }
}

/// A mesh while a feature is added to it, with the indices of the vertices of
/// the feature that are in it.
#[verifier::ext_equal]
pub struct Assembly {
    pub mesh: MeshModel,
    pub known: Map<usize, u32>,
}

/// The mesh with one more row: that of a surface of some type, in a feature
/// that is written by a plan. Where the plan gives no rows, the same mesh.
pub open spec fn with_row(m: MeshModel, plan: FeaturePlan, kind: Option<String>) -> MeshModel {
    if plan.skip_metadata {
        m
    } else {
        MeshModel {
            row_count: (m.row_count + 1) as u32,
            ids: m.ids.push(plan.building_id@),
            types: m.types.push(plan.cotype@),
            surface_types: m.surface_types.push(
                match kind {
                    Some(text) => text@,
                    None => "Unknown"@,
                },
            ),
            attributes: m.attributes.push(plan.attributes),
            ..m
        }
    }
}

/// The mesh with new vertices of a feature, without triangles.
pub open spec fn with_vertices(
    m: MeshModel,
    added: Seq<usize>,
    positions: Seq<Option<Vec3>>,
    color: Vec4,
    batch: u32,
) -> MeshModel {
    MeshModel {
        positions: m.positions + Seq::new(added.len(), |i: int| positions[added[i] as int]->0),
        normals: m.normals + Seq::new(added.len(), |i: int| Vec3 { x: 0, y: 0, z: 0 }),
        colors: m.colors + Seq::new(added.len(), |i: int| color),
        batch_ids: m.batch_ids + Seq::new(added.len(), |i: int| batch),
        ..m
    }
}

/// The mesh with one more row of measures, unless the plan gives no rows.
pub open spec fn with_measures(
    m: MeshModel,
    plan: FeaturePlan,
    measures: (u32, u32, u32),
) -> MeshModel {
    if plan.skip_metadata {
        m
    } else {
        MeshModel {
            areas: m.areas.push(measures.0),
            azimuths: m.azimuths.push(measures.1),
            elevations: m.elevations.push(measures.2),
            ..m
        }
    }
}

/// The corners of the triangles of a surface whose outline has these indices:
/// one ring of three vertices is a triangle and one of four is two triangles;
/// others have the triangles of their shape.
pub open spec fn corners(
    rings: Seq<Vec<usize>>,
    indices: Seq<u32>,
    triangles: Seq<usize>,
) -> Seq<u32> {
    if rings.len() == 1 && indices.len() == 3 {
        seq![indices[0], indices[1], indices[2]]
    } else if rings.len() == 1 && indices.len() == 4 {
        seq![indices[0], indices[1], indices[2], indices[0], indices[2], indices[3]]
    } else if triangles.len() < 3 {
        Seq::empty()
    } else {
        Seq::new(triangles.len(), |i: int| indices[triangles[i] as int])
    }
}

/// Where the triangles of a surface need no computing, they are its triangles,
/// whatever its shape says.
pub proof fn law_simple_triangles_are_used(
    rings: Seq<Vec<usize>>,
    indices: Seq<u32>,
    triangles: Seq<usize>,
)
    requires
        crate::gltf_writer::surface::simple_triangles(rings) is Some,
        indices.len() == rings[0]@.len(),
    ensures
        corners(rings, indices, triangles) == Seq::new(
            crate::gltf_writer::surface::simple_triangles(rings)->0.len(),
            |i: int| indices[crate::gltf_writer::surface::simple_triangles(rings)->0[i] as int],
        ),
{
    let simple = crate::gltf_writer::surface::simple_triangles(rings)->0;
    assert(corners(rings, indices, triangles) =~= Seq::new(
        simple.len(),
        |i: int| indices[simple[i] as int],
    ));
}

/// As many corners as make whole triangles.
pub open spec fn whole_triangles(corners: Seq<u32>) -> Seq<u32> {
    corners.take(corners.len() as int / 3 * 3)
}

/// The measures of a surface; zero where it has no triangles.
pub open spec fn measures_of(corners: Seq<u32>, shape: SurfaceShape) -> (u32, u32, u32) {
    if corners.len() == 0 {
        (0, 0, 0)
    } else {
        (shape.area, shape.azimuth, shape.elevation)
    }
}

/// How the outline of a surface is placed.
pub open spec fn placed(a: Assembly, rings: Seq<Vec<usize>>) -> Placed {
    crate::gltf_writer::surface::place_all(
        crate::gltf_writer::surface::nothing_placed(a.known),
        a.mesh.positions.len() as int,
        crate::gltf_writer::surface::outline(rings),
    )
}

/// The corners of the triangles of a surface that is added; none where it has
/// no exterior ring.
pub open spec fn added_corners(a: Assembly, rings: Seq<Vec<usize>>, shape: SurfaceShape) -> Seq<
    u32,
> {
    if crate::gltf_writer::surface::has_exterior(rings) {
        corners(rings, placed(a, rings).indices, shape.triangles@)
    } else {
        Seq::empty()
    }
}

/// The mesh with one more surface: its row, its vertices as far as they are
/// new, its triangles and its measures.
pub open spec fn with_surface(
    a: Assembly,
    plan: FeaturePlan,
    surface: Surface,
    color: Vec4,
    positions: Seq<Option<Vec3>>,
    shape: SurfaceShape,
) -> Assembly {
    let batch = if plan.skip_metadata {
        NO_ROW
    } else {
        a.mesh.row_count
    };
    let rings = surface.rings@;
    let faces = added_corners(a, rings, shape);
    let rowed = with_row(a.mesh, plan, surface.kind);
    let filled = if crate::gltf_writer::surface::has_exterior(rings) {
        with_vertices(rowed, placed(a, rings).added, positions, color, batch)
    } else {
        rowed
    };
    let faced = MeshModel { indices: filled.indices + whole_triangles(faces), ..filled };
    Assembly {
        mesh: with_measures(faced, plan, measures_of(faces, shape)),
        known: if crate::gltf_writer::surface::has_exterior(rings) {
            placed(a, rings).known
        } else {
            a.known
        },
    }
}

/// Whether a surface has its place in the objects.
pub open spec fn job_exists(objects: Seq<CityObject>, job: SurfaceJob) -> bool {
    &&& job.object < objects.len()
    &&& objects[job.object as int].geometry matches Some(geometries)
        && job.geometry < geometries@.len()
        && job.shell < geometries@[job.geometry as int].shells@.len()
        && job.surface < geometries@[job.geometry as int].shells@[job.shell as int]@.len()
}

/// The surface at a place.
pub open spec fn job_surface(objects: Seq<CityObject>, job: SurfaceJob) -> Surface {
    objects[job.object as int].geometry->0@[job.geometry as int].shells@[job.shell as int]@[job.surface as int]
}

/// The color of the object that a surface belongs to.
pub open spec fn job_color(objects: Seq<CityObject>, job: SurfaceJob) -> Vec4 {
    match objects[job.object as int].color {
        Some(color) => color,
        None => crate::gltf_writer::feature::default_color(),
    }
}

/// The mesh with some surfaces of a feature, one after the other.
pub open spec fn with_surfaces(
    a: Assembly,
    plan: FeaturePlan,
    objects: Seq<CityObject>,
    jobs: Seq<SurfaceJob>,
    positions: Seq<Option<Vec3>>,
    shapes: Seq<SurfaceShape>,
) -> Assembly
    decreases jobs.len(),
{
    if jobs.len() == 0 {
        a
    } else {
        with_surface(
            with_surfaces(a, plan, objects, jobs.drop_last(), positions, shapes),
            plan,
            job_surface(objects, jobs.last()),
            job_color(objects, jobs.last()),
            positions,
            shapes[jobs.len() - 1],
        )
    }
}

/// The mesh with the part of a feature that comes before place `at` of the
/// outline of its `i`th surface.
pub open spec fn with_part_of_feature(
    mesh: MeshModel,
    plan: FeaturePlan,
    objects: Seq<CityObject>,
    jobs: Seq<SurfaceJob>,
    positions: Seq<Option<Vec3>>,
    shapes: Seq<SurfaceShape>,
    i: int,
    at: int,
) -> MeshModel {
    with_part_of_surface(
        with_surfaces(
            Assembly { mesh, known: Map::empty() },
            plan,
            objects,
            jobs.take(i),
            positions,
            shapes,
        ),
        plan,
        job_surface(objects, jobs[i]),
        job_color(objects, jobs[i]),
        positions,
        at,
    )
}

/// How many corners the outlines of some surfaces have.
pub open spec fn corner_count(objects: Seq<CityObject>, jobs: Seq<SurfaceJob>) -> nat
    decreases jobs.len(),
{
    if jobs.len() == 0 {
        0
    } else {
        corner_count(objects, jobs.drop_last()) + crate::gltf_writer::surface::outline(
            job_surface(objects, jobs.last()).rings@,
        ).len()
    }
}

/// Whether the corners of the triangles of a shape lie in the outline.
pub open spec fn shape_fits(objects: Seq<CityObject>, job: SurfaceJob, shape: SurfaceShape) -> bool {
    forall|i: int|
        0 <= i < shape.triangles@.len() ==> #[trigger] shape.triangles@[i]
            < crate::gltf_writer::surface::outline(job_surface(objects, job).rings@).len()
}

// ------------------------------------------------------------ valid places

proof fn lemma_geometry_jobs_exist(
    object: usize,
    geometry: usize,
    shells: Seq<Vec<Surface>>,
    i: int,
)
    requires
        shells.len() <= usize::MAX,
        0 <= i < crate::gltf_writer::feature::geometry_jobs(
            object as int,
            geometry as int,
            shells,
        ).len(),
    ensures
        ({
            let job = crate::gltf_writer::feature::geometry_jobs(
                object as int,
                geometry as int,
                shells,
            )[i];
            &&& job.object == object
            &&& job.geometry == geometry
            &&& job.shell < shells.len()
            &&& job.surface < shells[job.shell as int]@.len()
        }),
    decreases shells.len(),
{
    let head = shells.drop_last();
    let before = crate::gltf_writer::feature::geometry_jobs(object as int, geometry as int, head);
    if i < before.len() {
        lemma_geometry_jobs_exist(object, geometry, head, i);
    } else {
        assert(shells.last().len() == shells.last()@.len());
    }
}

proof fn lemma_object_jobs_exist(
    object: usize,
    geometries: Seq<Geometry>,
    wanted: Option<Seq<char>>,
    i: int,
)
    requires
        geometries.len() <= usize::MAX,
        0 <= i < crate::gltf_writer::feature::object_jobs(object as int, geometries, wanted).len(),
    ensures
        ({
            let job = crate::gltf_writer::feature::object_jobs(
                object as int,
                geometries,
                wanted,
            )[i];
            &&& job.object == object
            &&& job.geometry < geometries.len()
            &&& job.shell < geometries[job.geometry as int].shells@.len()
            &&& job.surface < geometries[job.geometry as int].shells@[job.shell as int]@.len()
        }),
    decreases geometries.len(),
{
    let head = geometries.drop_last();
    let before = crate::gltf_writer::feature::object_jobs(object as int, head, wanted);
    if i < before.len() {
        lemma_object_jobs_exist(object, head, wanted, i);
    } else {
        assert(geometries.last().shells.len() == geometries.last().shells@.len());
        lemma_geometry_jobs_exist(
            object,
            (geometries.len() - 1) as usize,
            geometries.last().shells@,
            i - before.len(),
        );
    }
}

/// The surfaces of a feature that are written are surfaces of the feature.
pub proof fn law_planned_surfaces_exist(
    objects: Seq<CityObject>,
    filter: Option<Seq<char>>,
    i: int,
)
    requires
        objects.len() <= usize::MAX,
        0 <= i < crate::gltf_writer::feature::feature_jobs(objects, filter).len(),
    ensures
        job_exists(objects, crate::gltf_writer::feature::feature_jobs(objects, filter)[i]),
    decreases objects.len(),
{
    let head = objects.drop_last();
    let before = crate::gltf_writer::feature::feature_jobs(head, filter);
    if i < before.len() {
        law_planned_surfaces_exist(head, filter, i);
        let job = before[i];
        assert(head[job.object as int] == objects[job.object as int]);
    } else {
        let geometries = objects.last().geometry->0;
        assert(geometries.len() == geometries@.len());
        lemma_object_jobs_exist(
            (objects.len() - 1) as usize,
            geometries@,
            crate::gltf_writer::feature::wanted_lod(filter, geometries@),
            i - before.len(),
        );
    }
}

// ----------------------------------------------------------------- placing

/// Whether every vertex of the outline of a surface has a position.
pub open spec fn surface_ready(positions: Seq<Option<Vec3>>, surface: Surface) -> bool {
    let vertices = crate::gltf_writer::surface::outline(surface.rings@);
    crate::gltf_writer::surface::has_exterior(surface.rings@) ==> forall|i: int|
        0 <= i < vertices.len() ==> crate::gltf_writer::surface::has_position(
            positions,
            #[trigger] vertices[i],
        )
}

/// Whether `error` names the vertex at place `at` of the outline of a surface,
/// which is the first without a position.
pub open spec fn stops_surface_at(
    positions: Seq<Option<Vec3>>,
    surface: Surface,
    error: SurfaceError,
    at: int,
) -> bool {
    let vertices = crate::gltf_writer::surface::outline(surface.rings@);
    &&& crate::gltf_writer::surface::has_exterior(surface.rings@)
    &&& crate::gltf_writer::surface::stops_at(Map::empty(), positions, vertices, at)
    &&& error == crate::gltf_writer::surface::error_for(positions, vertices[at])
}

/// The mesh with the part of a surface that comes before place `at` of its
/// outline: its row and its new vertices, without triangles and measures.
pub open spec fn with_part_of_surface(
    a: Assembly,
    plan: FeaturePlan,
    surface: Surface,
    color: Vec4,
    positions: Seq<Option<Vec3>>,
    at: int,
) -> MeshModel {
    let batch = if plan.skip_metadata {
        NO_ROW
    } else {
        a.mesh.row_count
    };
    let part = crate::gltf_writer::surface::place_all(
        crate::gltf_writer::surface::nothing_placed(a.known),
        a.mesh.positions.len() as int,
        crate::gltf_writer::surface::outline(surface.rings@).take(at),
    );
    with_vertices(
        with_row(a.mesh, plan, surface.kind),
        part.added,
        positions,
        color,
        batch,
    )
}

/// Whether the vertices that are in the mesh have their positions there.
pub open spec fn places_hold(a: Assembly, positions: Seq<Option<Vec3>>) -> bool {
    forall|v: usize| #[trigger]
        a.known.contains_key(v) ==> {
            &&& crate::gltf_writer::surface::has_position(positions, v)
            &&& a.known[v] < a.mesh.positions.len()
            &&& a.mesh.positions[a.known[v] as int] == positions[v as int]->0
        }
}

/// What is known of a placing: a vertex keeps its index, or has the one of the
/// place at which it was added.
pub(crate) proof fn lemma_placed(known: Map<usize, u32>, base: int, vertices: Seq<usize>)
    requires
        0 <= base,
        base + vertices.len() <= u32::MAX,
    ensures
        ({
            let p = crate::gltf_writer::surface::place_all(
                crate::gltf_writer::surface::nothing_placed(known),
                base,
                vertices,
            );
            &&& p.indices.len() == vertices.len()
            &&& p.added.len() <= vertices.len()
            &&& forall|v: usize| #[trigger] known.contains_key(v) ==> p.known.contains_key(v)
            &&& forall|v: usize| #[trigger]
                p.known.contains_key(v) ==> (known.contains_key(v) && p.known[v] == known[v]) || (
                base <= p.known[v] < base + p.added.len() && p.added[p.known[v] - base] == v
                    && vertices.contains(v))
            &&& forall|k: int| 0 <= k < p.added.len() ==> vertices.contains(#[trigger] p.added[k])
            &&& forall|i: int|
                0 <= i < vertices.len() ==> p.known.contains_key(#[trigger] vertices[i])
                    && p.indices[i] == p.known[vertices[i]]
        }),
    decreases vertices.len(),
{
    if vertices.len() > 0 {
        let head = vertices.drop_last();
        let last = vertices.last();
        lemma_placed(known, base, head);
        let p = crate::gltf_writer::surface::place_all(
            crate::gltf_writer::surface::nothing_placed(known),
            base,
            head,
        );
        let q = crate::gltf_writer::surface::place(p, base, last);
        assert forall|v: usize| head.contains(v) implies vertices.contains(v) by {
            let k = choose|k: int| 0 <= k < head.len() && head[k] == v;
            assert(vertices[k] == v);
        }
        assert(vertices[vertices.len() - 1] == last);
        assert forall|i: int| 0 <= i < vertices.len() implies q.known.contains_key(
            #[trigger] vertices[i],
        ) && q.indices[i] == q.known[vertices[i]] by {
            if i < head.len() {
                assert(head[i] == vertices[i]);
                assert(p.known.contains_key(head[i]));
            }
        }
        assert forall|v: usize| #[trigger] q.known.contains_key(v) implies (known.contains_key(v)
            && q.known[v] == known[v]) || (base <= q.known[v] < base + q.added.len()
            && q.added[q.known[v] - base] == v && vertices.contains(v)) by {
            if !(v == last && !p.known.contains_key(last)) {
                assert(p.known.contains_key(v));
            }
        }
    }
}

/// Where the vertices of a feature have their positions in the mesh, they
/// still have after one more surface.
proof fn lemma_surface_keeps_places(
    a: Assembly,
    plan: FeaturePlan,
    surface: Surface,
    color: Vec4,
    positions: Seq<Option<Vec3>>,
    shape: SurfaceShape,
)
    requires
        places_hold(a, positions),
        surface_ready(positions, surface),
        a.mesh.positions.len() + crate::gltf_writer::surface::outline(surface.rings@).len()
            <= u32::MAX,
    ensures
        places_hold(with_surface(a, plan, surface, color, positions, shape), positions),
{
    let rings = surface.rings@;
    let vertices = crate::gltf_writer::surface::outline(rings);
    if crate::gltf_writer::surface::has_exterior(rings) {
        let p = placed(a, rings);
        let after = with_surface(a, plan, surface, color, positions, shape);
        lemma_placed(a.known, a.mesh.positions.len() as int, vertices);
        assert forall|v: usize| #[trigger] after.known.contains_key(v) implies {
            &&& crate::gltf_writer::surface::has_position(positions, v)
            &&& after.known[v] < after.mesh.positions.len()
            &&& after.mesh.positions[after.known[v] as int] == positions[v as int]->0
        } by {
            assert(p.known.contains_key(v));
            if !(a.known.contains_key(v) && p.known[v] == a.known[v]) {
                let i = choose|i: int| 0 <= i < vertices.len() && vertices[i] == v;
                assert(crate::gltf_writer::surface::has_position(positions, vertices[i]));
            }
        }
    }
}

/// A vertex of a feature has its own position in the mesh, at whichever of its
/// surfaces it occurs: however far the feature has been added, the corners of
/// the next surface are at the positions of its vertices.
pub proof fn law_corners_have_their_positions(
    mesh: MeshModel,
    plan: FeaturePlan,
    objects: Seq<CityObject>,
    jobs: Seq<SurfaceJob>,
    positions: Seq<Option<Vec3>>,
    shapes: Seq<SurfaceShape>,
    i: int,
)
    requires
        jobs.len() > 0,
        forall|k: int|
            0 <= k < jobs.len() ==> surface_ready(
                positions,
                job_surface(objects, #[trigger] jobs[k]),
            ),
        mesh.positions.len() + corner_count(objects, jobs) <= u32::MAX,
        crate::gltf_writer::surface::has_exterior(job_surface(objects, jobs.last()).rings@),
        0 <= i < crate::gltf_writer::surface::outline(
            job_surface(objects, jobs.last()).rings@,
        ).len(),
    ensures
        ({
            let start = Assembly { mesh, known: Map::empty() };
            let before = with_surfaces(
                start,
                plan,
                objects,
                jobs.drop_last(),
                positions,
                shapes,
            );
            let after = with_surfaces(start, plan, objects, jobs, positions, shapes);
            let rings = job_surface(objects, jobs.last()).rings@;
            let index = placed(before, rings).indices[i];
            &&& index < after.mesh.positions.len()
            &&& after.mesh.positions[index as int]
                == positions[crate::gltf_writer::surface::outline(rings)[i] as int]->0
        }),
{
    let start = Assembly { mesh, known: Map::empty() };
    let before = with_surfaces(start, plan, objects, jobs.drop_last(), positions, shapes);
    let rings = job_surface(objects, jobs.last()).rings@;
    assert forall|k: int| 0 <= k < jobs.drop_last().len() implies surface_ready(
        positions,
        job_surface(objects, #[trigger] jobs.drop_last()[k]),
    ) by {
        assert(jobs.drop_last()[k] == jobs[k]);
    }
    lemma_surfaces_keep_places(start, plan, objects, jobs.drop_last(), positions, shapes);
    assert(surface_ready(positions, job_surface(objects, jobs[jobs.len() - 1])));
    lemma_surface_keeps_places(
        before,
        plan,
        job_surface(objects, jobs.last()),
        job_color(objects, jobs.last()),
        positions,
        shapes[jobs.len() - 1],
    );
    lemma_placed(
        before.known,
        before.mesh.positions.len() as int,
        crate::gltf_writer::surface::outline(rings),
    );
}

pub(crate) proof fn lemma_surfaces_keep_places(
    a: Assembly,
    plan: FeaturePlan,
    objects: Seq<CityObject>,
    jobs: Seq<SurfaceJob>,
    positions: Seq<Option<Vec3>>,
    shapes: Seq<SurfaceShape>,
)
    requires
        places_hold(a, positions),
        forall|k: int|
            0 <= k < jobs.len() ==> surface_ready(
                positions,
                job_surface(objects, #[trigger] jobs[k]),
            ),
        a.mesh.positions.len() + corner_count(objects, jobs) <= u32::MAX,
    ensures
        ({
            let after = with_surfaces(a, plan, objects, jobs, positions, shapes);
            &&& places_hold(after, positions)
            &&& after.mesh.positions.len() <= a.mesh.positions.len() + corner_count(objects, jobs)
        }),
    decreases jobs.len(),
{
    if jobs.len() > 0 {
        let head = jobs.drop_last();
        assert forall|k: int| 0 <= k < head.len() implies surface_ready(
            positions,
            job_surface(objects, #[trigger] head[k]),
        ) by {
            assert(head[k] == jobs[k]);
        }
        lemma_surfaces_keep_places(a, plan, objects, head, positions, shapes);
        let before = with_surfaces(a, plan, objects, head, positions, shapes);
        let surface = job_surface(objects, jobs.last());
        assert(surface_ready(positions, job_surface(objects, jobs[jobs.len() - 1])));
        lemma_surface_keeps_places(
            before,
            plan,
            surface,
            job_color(objects, jobs.last()),
            positions,
            shapes[jobs.len() - 1],
        );
        lemma_placed(
            before.known,
            before.mesh.positions.len() as int,
            crate::gltf_writer::surface::outline(surface.rings@),
        );
    }
}

/// A feature adds no more vertices to the mesh than its surfaces have corners.
pub proof fn law_vertices_are_bounded_by_corners(
    mesh: MeshModel,
    plan: FeaturePlan,
    objects: Seq<CityObject>,
    jobs: Seq<SurfaceJob>,
    positions: Seq<Option<Vec3>>,
    shapes: Seq<SurfaceShape>,
)
    requires
        forall|k: int|
            0 <= k < jobs.len() ==> surface_ready(
                positions,
                job_surface(objects, #[trigger] jobs[k]),
            ),
        mesh.positions.len() + corner_count(objects, jobs) <= u32::MAX,
    ensures
        with_surfaces(
            Assembly { mesh, known: Map::empty() },
            plan,
            objects,
            jobs,
            positions,
            shapes,
        ).mesh.positions.len() <= mesh.positions.len() + corner_count(objects, jobs),
{
    lemma_surfaces_keep_places(
        Assembly { mesh, known: Map::empty() },
        plan,
        objects,
        jobs,
        positions,
        shapes,
    );
}

/// The surfaces of a feature that gets no rows leave the table as it is.
pub proof fn law_no_rows_without_metadata(
    a: Assembly,
    plan: FeaturePlan,
    objects: Seq<CityObject>,
    jobs: Seq<SurfaceJob>,
    positions: Seq<Option<Vec3>>,
    shapes: Seq<SurfaceShape>,
)
    requires
        plan.skip_metadata,
    ensures
        ({
            let after = with_surfaces(a, plan, objects, jobs, positions, shapes).mesh;
            &&& after.row_count == a.mesh.row_count
            &&& after.ids == a.mesh.ids
            &&& after.types == a.mesh.types
            &&& after.surface_types == a.mesh.surface_types
            &&& after.attributes == a.mesh.attributes
            &&& after.areas == a.mesh.areas
            &&& after.azimuths == a.mesh.azimuths
            &&& after.elevations == a.mesh.elevations
        }),
    decreases jobs.len(),
{
    if jobs.len() > 0 {
        law_no_rows_without_metadata(a, plan, objects, jobs.drop_last(), positions, shapes);
    }
}

/// Every surface of a feature that gets rows has one row of its own.
pub proof fn law_one_row_for_each_surface(
    a: Assembly,
    plan: FeaturePlan,
    objects: Seq<CityObject>,
    jobs: Seq<SurfaceJob>,
    positions: Seq<Option<Vec3>>,
    shapes: Seq<SurfaceShape>,
)
    requires
        !plan.skip_metadata,
        a.mesh.row_count + jobs.len() <= u32::MAX,
    ensures
        ({
            let after = with_surfaces(a, plan, objects, jobs, positions, shapes).mesh;
            &&& after.row_count == a.mesh.row_count + jobs.len()
            &&& after.ids.len() == a.mesh.ids.len() + jobs.len()
            &&& after.types.len() == a.mesh.types.len() + jobs.len()
            &&& after.surface_types.len() == a.mesh.surface_types.len() + jobs.len()
            &&& after.attributes.len() == a.mesh.attributes.len() + jobs.len()
            &&& after.areas.len() == a.mesh.areas.len() + jobs.len()
            &&& after.azimuths.len() == a.mesh.azimuths.len() + jobs.len()
            &&& after.elevations.len() == a.mesh.elevations.len() + jobs.len()
        }),
    decreases jobs.len(),
{
    if jobs.len() > 0 {
        law_one_row_for_each_surface(a, plan, objects, jobs.drop_last(), positions, shapes);
    }
}

// ------------------------------------------------------------------ adding

/// Whether a feature was added to a mesh by a plan: every vertex that its
/// surfaces need has a position, and the mesh has its surfaces.
pub open spec fn feature_added(
    before: MeshBuilder,
    after: MeshBuilder,
    feature: Feature,
    positions: Seq<Option<Vec3>>,
    shapes: Seq<SurfaceShape>,
    lod_filter: Option<&str>,
    whitelist: Option<&[String]>,
    plan: FeaturePlan,
) -> bool {
    let objects = feature.objects@;
    let jobs = crate::gltf_writer::feature::feature_jobs(
        objects,
        crate::gltf_writer::feature::text_or_none(lod_filter),
    );
    &&& forall|i: int|
        0 <= i < jobs.len() ==> surface_ready(positions, job_surface(objects, #[trigger] jobs[i]))
    &&& crate::gltf_writer::feature::is_plan(
        feature,
        lod_filter,
        whitelist,
        before.attribute_sets@,
        plan,
        after.attribute_sets@,
    )
    &&& after.model() == with_surfaces(
        Assembly { mesh: before.model(), known: Map::empty() },
        plan,
        objects,
        jobs,
        positions,
        shapes,
    ).mesh
}

/// A vertex that can be placed has a position, where those in the mesh have
/// one; so the first that cannot be placed is the first without a position.
proof fn lemma_first_without_position(
    known: Map<usize, u32>,
    positions: Seq<Option<Vec3>>,
    vertices: Seq<usize>,
    at: int,
)
    requires
        forall|v: usize| #[trigger]
            known.contains_key(v) ==> crate::gltf_writer::surface::has_position(positions, v),
        crate::gltf_writer::surface::stops_at(known, positions, vertices, at),
    ensures
        crate::gltf_writer::surface::stops_at(Map::empty(), positions, vertices, at),
{
    assert forall|k: int| 0 <= k < at implies crate::gltf_writer::surface::placeable(
        Map::empty(),
        positions,
        #[trigger] vertices[k],
    ) by {
        assert(crate::gltf_writer::surface::placeable(known, positions, vertices[k]));
    }
}

impl MeshBuilder {
    /// Adds one surface of a feature: its row, its vertices, its triangles and
    /// its measures.
    fn add_planned_surface(
        &mut self,
        plan: &FeaturePlan,
        surface: &Surface,
        color: Vec4,
        positions: &[Option<Vec3>],
        shape: &SurfaceShape,
        cache: &mut VertexCache,
    ) -> (r: Result<(), SurfaceError>)
        requires
            old(self).wf(),
            old(self).sound(),
            old(self).next_batch_index < u32::MAX,
            plan.attributes matches Some(k) ==> k < old(self).attribute_sets@.len(),
            old(self).positions@.len() + crate::gltf_writer::surface::outline(
                surface.rings@,
            ).len() < u32::MAX,
            forall|i: int|
                0 <= i < shape.triangles@.len() ==> #[trigger] shape.triangles@[i]
                    < crate::gltf_writer::surface::outline(surface.rings@).len(),
            places_hold(
                (Assembly { mesh: old(self).model(), known: old(cache)@ }),
                positions@,
            ),
        ensures
            final(self).wf(),
            final(self).sound(),
            final(self).attribute_sets == old(self).attribute_sets,
            final(self).metallic_factor == old(self).metallic_factor,
            final(self).roughness_factor == old(self).roughness_factor,
            match r {
                Ok(()) => {
                    &&& surface_ready(positions@, *surface)
                    &&& (Assembly { mesh: final(self).model(), known: final(cache)@ })
                        == with_surface(
                        Assembly { mesh: old(self).model(), known: old(cache)@ },
                        *plan,
                        *surface,
                        color,
                        positions@,
                        *shape,
                    )
                },
                Err(e) => exists|at: int| #[trigger]
                    stops_surface_at(positions@, *surface, e, at) && final(self).model()
                        == with_part_of_surface(
                        Assembly { mesh: old(self).model(), known: old(cache)@ },
                        *plan,
                        *surface,
                        color,
                        positions@,
                        at,
                    ),
            },
    {
        let ghost a = Assembly { mesh: self.model(), known: cache@ };
        let ghost rings = surface.rings@;
        let ghost vertices = crate::gltf_writer::surface::outline(rings);
        let batch_index: u32 = self.begin_surface(plan, surface);
        let ghost begun = *self;
        let ghost rowed = self.model();
        assert(rowed =~= with_row(a.mesh, *plan, surface.kind));
        assert(crate::gltf_writer::surface::cache_fits(
            cache@,
            self.positions@.len() as int,
        )) by {
            let known = cache@;
            assert(known == a.known);
            assert forall|v: usize| #[trigger] known.contains_key(v) implies known[v]
                < self.positions@.len() by {
                assert(a.known.contains_key(v));
            }
        }
        let step = match self.add_surface_cached(
            surface.rings.as_slice(),
            positions,
            batch_index,
            color,
            cache,
        ) {
            Ok(step) => step,
            Err(e) => {
                proof {
                    let at = choose|at: int| #[trigger]
                        crate::gltf_writer::surface::stops_at(
                            a.known,
                            positions@,
                            vertices,
                            at,
                        ) && {
                            let p = crate::gltf_writer::surface::place_all(
                                crate::gltf_writer::surface::nothing_placed(a.known),
                                a.mesh.positions.len() as int,
                                vertices.take(at),
                            );
                            &&& e == crate::gltf_writer::surface::error_for(
                                positions@,
                                vertices[at],
                            )
                            &&& crate::gltf_writer::surface::grown(
                                begun,
                                *self,
                                p.added,
                                positions@,
                                color,
                                batch_index,
                            )
                        };
                    lemma_first_without_position(a.known, positions@, vertices, at);
                    assert(stops_surface_at(positions@, *surface, e, at));
                    assert(self.model() =~= with_part_of_surface(
                        a,
                        *plan,
                        *surface,
                        color,
                        positions@,
                        at,
                    ));
                }
                return Err(e);
            },
        };
        proof {
            if crate::gltf_writer::surface::has_exterior(rings) {
                assert forall|i: int|
                    0 <= i < vertices.len() implies crate::gltf_writer::surface::has_position(
                    positions@,
                    #[trigger] vertices[i],
                ) by {
                    assert(crate::gltf_writer::surface::placeable(
                        a.known,
                        positions@,
                        vertices[i],
                    ));
                }
            }
        }
        let ghost filled = self.model();
        let none: Vec<u32> = Vec::new();
        let faces: Vec<u32> = match step {
            SurfaceStep::Nothing => none,
            SurfaceStep::Faces { vertices: _, faces } => faces,
            SurfaceStep::Outline { vertices: indices, holes: _ } => faces_of(
                indices.as_slice(),
                shape.triangles.as_slice(),
            ),
        };
        proof {
            assert(faces@ =~= added_corners(a, rings, *shape));
            assert forall|i: int| 0 <= i < faces@.len() implies #[trigger] faces@[i]
                < self.positions@.len() by {
                if crate::gltf_writer::surface::has_exterior(rings) {
                    let p = placed(a, rings);
                    assert(forall|k: int|
                        0 <= k < p.indices.len() ==> #[trigger] p.indices[k]
                            < self.positions@.len());
                }
            }
        }
        self.emit_triangles(faces.as_slice());
        if !plan.skip_metadata {
            if faces.len() == 0 {
                self.push_computed_surface_props(0, 0, 0);
            } else {
                self.push_computed_surface_props(shape.area, shape.azimuth, shape.elevation);
            }
        }
        proof {
            let b = with_surface(a, *plan, *surface, color, positions@, *shape);
            assert(self.model() =~= b.mesh);
            assert(cache@ =~= b.known);
        }
        Ok(())
    }

    /// Adds a feature to the mesh: every surface that is written of it, with a
    /// row in the table unless it is a lone tree. `positions` are the
    /// positions of the feature's vertices, as far as they could be computed,
    /// and `shapes` are the shapes of the surfaces that are written, in order.
    pub fn add_feature(
        &mut self,
        feature: &Feature,
        positions: &[Option<Vec3>],
        shapes: &[SurfaceShape],
        lod_filter: Option<&str>,
        whitelist: Option<&[String]>,
    ) -> (r: Result<FeaturePlan, SurfaceError>)
        requires
            old(self).wf(),
            old(self).sound(),
            crate::gltf_writer::feature::feature_wf(*feature),
            ({
                let objects = feature.objects@;
                let jobs = crate::gltf_writer::feature::feature_jobs(
                    objects,
                    crate::gltf_writer::feature::text_or_none(lod_filter),
                );
                &&& shapes@.len() == jobs.len()
                &&& forall|i: int|
                    0 <= i < jobs.len() ==> shape_fits(objects, #[trigger] jobs[i], shapes@[i])
                &&& old(self).next_batch_index + jobs.len() <= u32::MAX
                &&& old(self).positions@.len() + corner_count(objects, jobs) < u32::MAX
            }),
        ensures
            final(self).wf(),
            final(self).sound(),
            final(self).metallic_factor == old(self).metallic_factor,
            final(self).roughness_factor == old(self).roughness_factor,
            ({
                let objects = feature.objects@;
                let jobs = crate::gltf_writer::feature::feature_jobs(
                    objects,
                    crate::gltf_writer::feature::text_or_none(lod_filter),
                );
                match r {
                    Ok(plan) => {
                        &&& feature_added(
                            *old(self),
                            *final(self),
                            *feature,
                            positions@,
                            shapes@,
                            lod_filter,
                            whitelist,
                            plan,
                        )
                        &&& crate::gltf_writer::laws::extends(old(self).model(), final(self).model())
                        &&& crate::gltf_writer::laws::rows_complete(old(self).model())
                            ==> crate::gltf_writer::laws::rows_complete(final(self).model())
                        &&& final(self).next_batch_index == old(self).next_batch_index + (
                        if plan.skip_metadata {
                            0
                        } else {
                            jobs.len()
                        })
                    },
                    Err(e) => exists|plan: FeaturePlan, i: int, at: int|
                        {
                            &&& crate::gltf_writer::feature::is_plan(
                                *feature,
                                lod_filter,
                                whitelist,
                                old(self).attribute_sets@,
                                plan,
                                final(self).attribute_sets@,
                            )
                            &&& 0 <= i < jobs.len()
                            &&& stops_surface_at(
                                positions@,
                                job_surface(objects, jobs[i]),
                                e,
                                at,
                            )
                            &&& forall|k: int|
                                0 <= k < i ==> surface_ready(
                                    positions@,
                                    job_surface(objects, #[trigger] jobs[k]),
                                )
                            &&& final(self).model() == #[trigger] with_part_of_feature(
                                old(self).model(),
                                plan,
                                objects,
                                jobs,
                                positions@,
                                shapes@,
                                i,
                                at,
                            )
                        },
                }
            }),
    {
        let ghost before = *self;
        let plan = self.begin_feature(feature, lod_filter, whitelist);
        let mut cache = VertexCache::new();
        let objects = &feature.objects;
        let n: usize = plan.surfaces.len();
        let ghost jobs = plan.surfaces@;
        let ghost start = Assembly { mesh: before.model(), known: Map::empty() };
        let mut i: usize = 0;
        assert(self.model() =~= start.mesh);
        assert(jobs.take(0) =~= Seq::<SurfaceJob>::empty());
        let ghost sets = self.attribute_sets;
        while i < n
            invariant
                i <= n,
                n == jobs.len(),
                jobs == plan.surfaces@,
                objects@ == feature.objects@,
                jobs == crate::gltf_writer::feature::feature_jobs(
                    objects@,
                    crate::gltf_writer::feature::text_or_none(lod_filter),
                ),
                before == *old(self),
                shapes@.len() == n,
                forall|k: int|
                    0 <= k < n ==> shape_fits(objects@, #[trigger] jobs[k], shapes@[k]),
                before.next_batch_index + n <= u32::MAX,
                before.positions@.len() + corner_count(objects@, jobs) < u32::MAX,
                self.next_batch_index <= before.next_batch_index + i,
                self.positions@.len() <= before.positions@.len() + corner_count(
                    objects@,
                    jobs.take(i as int),
                ),
                self.wf(),
                self.sound(),
                self.attribute_sets == sets,
                crate::gltf_writer::feature::is_plan(
                    *feature,
                    lod_filter,
                    whitelist,
                    before.attribute_sets@,
                    plan,
                    sets@,
                ),
                plan.attributes matches Some(k) ==> k < sets@.len(),
                self.metallic_factor == before.metallic_factor,
                self.roughness_factor == before.roughness_factor,
                start == (Assembly { mesh: before.model(), known: Map::empty() }),
                (Assembly { mesh: self.model(), known: cache@ }) == with_surfaces(
                    start,
                    plan,
                    objects@,
                    jobs.take(i as int),
                    positions@,
                    shapes@,
                ),
                places_hold((Assembly { mesh: self.model(), known: cache@ }), positions@),
                forall|k: int|
                    0 <= k < i ==> surface_ready(
                        positions@,
                        job_surface(objects@, #[trigger] jobs[k]),
                    ),
            decreases n - i,
        {
            let job: SurfaceJob = plan.surfaces[i];
            proof {
                assert(objects.len() == objects@.len());
                law_planned_surfaces_exist(
                    objects@,
                    crate::gltf_writer::feature::text_or_none(lod_filter),
                    i as int,
                );
                assert(jobs.take(i + 1).drop_last() =~= jobs.take(i as int));
                lemma_corner_count_grows(objects@, jobs, i + 1);
                assert(shape_fits(objects@, jobs[i as int], shapes@[i as int]));
            }
            let object = &objects[job.object];
            let geometries = match &object.geometry {
                Some(geometries) => geometries,
                None => {
                    return Ok(plan);
                },
            };
            let surface = &geometries[job.geometry].shells[job.shell][job.surface];
            assert(*surface == job_surface(objects@, jobs[i as int]));
            let color = object_color(object);
            let ghost a = Assembly { mesh: self.model(), known: cache@ };
            match self.add_planned_surface(
                &plan,
                surface,
                color,
                positions,
                &shapes[i],
                &mut cache,
            ) {
                Ok(()) => {
                    proof {
                        lemma_surface_keeps_places(
                            a,
                            plan,
                            *surface,
                            color,
                            positions@,
                            shapes@[i as int],
                        );
                        lemma_placed(
                            a.known,
                            a.mesh.positions.len() as int,
                            crate::gltf_writer::surface::outline(surface.rings@),
                        );
                    }
                },
                Err(e) => {
                    proof {
                        let at = choose|at: int| #[trigger]
                            stops_surface_at(positions@, *surface, e, at) && self.model()
                                == with_part_of_surface(a, plan, *surface, color, positions@, at);
                        assert(self.model() == with_part_of_feature(
                            before.model(),
                            plan,
                            objects@,
                            jobs,
                            positions@,
                            shapes@,
                            i as int,
                            at,
                        ));
                    }
                    return Err(e);
                },
            }
            i += 1;
        }
        assert(jobs.take(n as int) =~= jobs);
        proof {
            crate::gltf_writer::laws::law_adding_a_feature_keeps_order(
                before.model(),
                plan,
                objects@,
                jobs,
                positions@,
                shapes@,
            );
        }
        Ok(plan)
    }
}

/// Fewer surfaces have no more corners.
proof fn lemma_corner_count_grows(objects: Seq<CityObject>, jobs: Seq<SurfaceJob>, n: int)
    requires
        0 <= n <= jobs.len(),
    ensures
        corner_count(objects, jobs.take(n)) <= corner_count(objects, jobs),
    decreases jobs.len(),
{
    if n == jobs.len() {
        assert(jobs.take(n) =~= jobs);
    } else {
        assert(jobs.drop_last().take(n) =~= jobs.take(n));
        lemma_corner_count_grows(objects, jobs.drop_last(), n);
    }
}

/// Whether one place comes before another in a feature: by the object, then the
/// geometry, the shell and the surface.
pub open spec fn comes_before(a: SurfaceJob, b: SurfaceJob) -> bool {
    ||| a.object < b.object
    ||| a.object == b.object && a.geometry < b.geometry
    ||| a.object == b.object && a.geometry == b.geometry && a.shell < b.shell
    ||| a.object == b.object && a.geometry == b.geometry && a.shell == b.shell && a.surface
        < b.surface
}

/// Whether places are in order, none of them twice.
pub open spec fn in_order(jobs: Seq<SurfaceJob>) -> bool {
    forall|i: int, j: int|
        0 <= i < j < jobs.len() ==> comes_before(#[trigger] jobs[i], #[trigger] jobs[j])
}

proof fn lemma_order_of_both(a: Seq<SurfaceJob>, b: Seq<SurfaceJob>)
    requires
        in_order(a),
        in_order(b),
        forall|i: int, j: int|
            0 <= i < a.len() && 0 <= j < b.len() ==> comes_before(#[trigger] a[i], #[trigger] b[j]),
    ensures
        in_order(a + b),
{
    let both = a + b;
    assert forall|i: int, j: int| 0 <= i < j < both.len() implies comes_before(
        #[trigger] both[i],
        #[trigger] both[j],
    ) by {
        if j < a.len() {
            assert(both[i] == a[i] && both[j] == a[j]);
        } else if i >= a.len() {
            assert(both[i] == b[i - a.len()] && both[j] == b[j - a.len()]);
        } else {
            assert(both[i] == a[i] && both[j] == b[j - a.len()]);
        }
    }
}

proof fn lemma_geometry_jobs_are_complete(
    object: usize,
    geometry: usize,
    shells: Seq<Vec<Surface>>,
    job: SurfaceJob,
)
    requires
        shells.len() <= usize::MAX,
    ensures
        ({
            let jobs = crate::gltf_writer::feature::geometry_jobs(
                object as int,
                geometry as int,
                shells,
            );
            &&& in_order(jobs)
            &&& job.object == object && job.geometry == geometry && job.shell < shells.len()
                && job.surface < shells[job.shell as int]@.len() ==> jobs.contains(job)
        }),
    decreases shells.len(),
{
    if shells.len() > 0 {
        let head = shells.drop_last();
        let before = crate::gltf_writer::feature::geometry_jobs(
            object as int,
            geometry as int,
            head,
        );
        let more = crate::gltf_writer::feature::shell_jobs(
            object as int,
            geometry as int,
            shells.len() - 1,
            shells.last()@.len(),
        );
        lemma_geometry_jobs_are_complete(object, geometry, head, job);
        assert(shells.last().len() == shells.last()@.len());
        assert(in_order(more));
        assert forall|i: int, j: int| 0 <= i < before.len() && 0 <= j < more.len()
            implies comes_before(#[trigger] before[i], #[trigger] more[j]) by {
            lemma_geometry_jobs_exist(object, geometry, head, i);
        }
        lemma_order_of_both(before, more);
        if job.object == object && job.geometry == geometry && job.shell < shells.len()
            && job.surface < shells[job.shell as int]@.len() {
            if job.shell < head.len() {
                assert(head[job.shell as int] == shells[job.shell as int]);
                let i = choose|i: int| 0 <= i < before.len() && before[i] == job;
                assert((before + more)[i] == job);
            } else {
                assert(more[job.surface as int] == job);
                assert((before + more)[before.len() + job.surface] == job);
            }
        }
    }
}

proof fn lemma_object_jobs_are_complete(
    object: usize,
    geometries: Seq<Geometry>,
    wanted: Option<Seq<char>>,
    job: SurfaceJob,
)
    requires
        geometries.len() <= usize::MAX,
    ensures
        ({
            let jobs = crate::gltf_writer::feature::object_jobs(object as int, geometries, wanted);
            &&& in_order(jobs)
            &&& jobs.contains(job) <==> {
                &&& job.object == object
                &&& job.geometry < geometries.len()
                &&& job.shell < geometries[job.geometry as int].shells@.len()
                &&& job.surface < geometries[job.geometry as int].shells@[job.shell as int]@.len()
                &&& wanted matches Some(name) ==> geometries[job.geometry as int].lod matches Some(
                    lod,
                ) && lod.name@ == name
            }
        }),
    decreases geometries.len(),
{
    let jobs = crate::gltf_writer::feature::object_jobs(object as int, geometries, wanted);
    if geometries.len() > 0 {
        let head = geometries.drop_last();
        let last = geometries.last();
        let n = (geometries.len() - 1) as usize;
        let before = crate::gltf_writer::feature::object_jobs(object as int, head, wanted);
        lemma_object_jobs_are_complete(object, head, wanted, job);
        assert forall|k: int| 0 <= k < head.len() implies head[k] == geometries[k] by {}
        assert(geometries[n as int] == last);
        if crate::gltf_writer::feature::has_lod(last, wanted) {
            let more = crate::gltf_writer::feature::geometry_jobs(
                object as int,
                n as int,
                last.shells@,
            );
            assert(last.shells.len() == last.shells@.len());
            lemma_geometry_jobs_are_complete(object, n, last.shells@, job);
            assert forall|i: int, j: int| 0 <= i < before.len() && 0 <= j < more.len()
                implies comes_before(#[trigger] before[i], #[trigger] more[j]) by {
                lemma_object_jobs_exist(object, head, wanted, i);
                lemma_geometry_jobs_exist(object, n, last.shells@, j);
            }
            lemma_order_of_both(before, more);
            assert(jobs == before + more);
            if before.contains(job) {
                let i = choose|i: int| 0 <= i < before.len() && before[i] == job;
                assert(jobs[i] == job);
            }
            if more.contains(job) {
                let i = choose|i: int| 0 <= i < more.len() && more[i] == job;
                lemma_geometry_jobs_exist(object, n, last.shells@, i);
                assert(jobs[before.len() + i] == job);
            }
            if jobs.contains(job) {
                let i = choose|i: int| 0 <= i < jobs.len() && jobs[i] == job;
                if i < before.len() {
                    assert(before[i] == job);
                } else {
                    assert(more[i - before.len()] == job);
                }
            }
        } else {
            assert(jobs =~= before);
        }
    }
}

/// The surfaces of a feature that are written are those of every geometry of the
/// level of detail that was asked for, and no others, each once and in order.
/// Where none was asked for, the level is the finest that the object has, and
/// an object without levels is written whole.
pub proof fn law_planned_surfaces_are_complete(
    objects: Seq<CityObject>,
    filter: Option<Seq<char>>,
    job: SurfaceJob,
)
    requires
        objects.len() <= usize::MAX,
    ensures
        ({
            let jobs = crate::gltf_writer::feature::feature_jobs(objects, filter);
            &&& in_order(jobs)
            &&& jobs.contains(job) <==> {
                &&& job_exists(objects, job)
                &&& {
                    let geometries = objects[job.object as int].geometry->0@;
                    let level = geometries[job.geometry as int].lod;
                    match filter {
                        Some(name) => level matches Some(lod) && lod.name@ == name,
                        None => match crate::gltf_writer::feature::finest(geometries) {
                            Some(k) => level matches Some(lod) && lod.name@
                                == geometries[k].lod->0.name@,
                            None => true,
                        },
                    }
                }
            }
        }),
    decreases objects.len(),
{
    let jobs = crate::gltf_writer::feature::feature_jobs(objects, filter);
    if objects.len() > 0 {
        let head = objects.drop_last();
        let last = objects.last();
        let n = (objects.len() - 1) as usize;
        let before = crate::gltf_writer::feature::feature_jobs(head, filter);
        law_planned_surfaces_are_complete(head, filter, job);
        assert forall|k: int| 0 <= k < head.len() implies head[k] == objects[k] by {}
        assert(objects[n as int] == last);
        match last.geometry {
            Some(geometries) => {
                let wanted = crate::gltf_writer::feature::wanted_lod(filter, geometries@);
                let more = crate::gltf_writer::feature::object_jobs(n as int, geometries@, wanted);
                assert(geometries.len() == geometries@.len());
                lemma_object_jobs_are_complete(n, geometries@, wanted, job);
                assert forall|i: int, j: int| 0 <= i < before.len() && 0 <= j < more.len()
                    implies comes_before(#[trigger] before[i], #[trigger] more[j]) by {
                    law_planned_surfaces_exist(head, filter, i);
                    lemma_object_jobs_exist(n, geometries@, wanted, j);
                }
                lemma_order_of_both(before, more);
                assert(jobs == before + more);
                if before.contains(job) {
                    let i = choose|i: int| 0 <= i < before.len() && before[i] == job;
                    assert(jobs[i] == job);
                }
                if more.contains(job) {
                    let i = choose|i: int| 0 <= i < more.len() && more[i] == job;
                    assert(jobs[before.len() + i] == job);
                }
                if jobs.contains(job) {
                    let i = choose|i: int| 0 <= i < jobs.len() && jobs[i] == job;
                    if i < before.len() {
                        assert(before[i] == job);
                    } else {
                        assert(more[i - before.len()] == job);
                    }
                }
            },
            None => {
                assert(jobs =~= before);
            },
        }
    }
}

/// A surface that is added gets the next row, with what the plan and the surface
/// say of it, and its measures, which are zero where it has no triangles. Its
/// new vertices refer to this row and have its color; what was there stays.
pub proof fn law_surface_has_its_row(
    a: Assembly,
    plan: FeaturePlan,
    surface: Surface,
    color: Vec4,
    positions: Seq<Option<Vec3>>,
    shape: SurfaceShape,
)
    requires
        !plan.skip_metadata,
        a.mesh.row_count < u32::MAX,
        a.mesh.ids.len() == a.mesh.row_count,
        a.mesh.types.len() == a.mesh.row_count,
        a.mesh.surface_types.len() == a.mesh.row_count,
        a.mesh.attributes.len() == a.mesh.row_count,
        a.mesh.areas.len() == a.mesh.row_count,
        a.mesh.azimuths.len() == a.mesh.row_count,
        a.mesh.elevations.len() == a.mesh.row_count,
        a.mesh.colors.len() == a.mesh.positions.len(),
        a.mesh.batch_ids.len() == a.mesh.positions.len(),
    ensures
        ({
            let after = with_surface(a, plan, surface, color, positions, shape).mesh;
            let row = a.mesh.row_count as int;
            &&& after.row_count == row + 1
            &&& after.ids[row] == plan.building_id@
            &&& after.types[row] == plan.cotype@
            &&& surface.kind matches Some(kind) ==> after.surface_types[row] == kind@
            &&& surface.kind is None ==> after.surface_types[row] == "Unknown"@
            &&& after.attributes[row] == plan.attributes
            &&& after.indices.len() > a.mesh.indices.len() ==> {
                &&& after.areas[row] == shape.area
                &&& after.azimuths[row] == shape.azimuth
                &&& after.elevations[row] == shape.elevation
            }
            &&& surface.rings@.len() == 0 ==> {
                &&& after.areas[row] == 0
                &&& after.azimuths[row] == 0
                &&& after.elevations[row] == 0
                &&& after.positions == a.mesh.positions
                &&& after.indices == a.mesh.indices
            }
            &&& forall|i: int|
                a.mesh.positions.len() <= i < after.positions.len() ==> #[trigger] after.colors[i]
                    == color
            &&& forall|i: int|
                a.mesh.positions.len() <= i < after.positions.len()
                    ==> #[trigger] after.batch_ids[i] == row
        }),
{
    let rings = surface.rings@;
    let faces = added_corners(a, rings, shape);
    if faces.len() == 0 {
        assert(whole_triangles(faces) =~= Seq::<u32>::empty());
    }
    if !crate::gltf_writer::surface::has_exterior(rings) {
        assert(a.mesh.indices + whole_triangles(faces) =~= a.mesh.indices);
    }
}

/// The vertices of a surface that gets no row refer to none.
pub proof fn law_vertices_without_a_row(
    a: Assembly,
    plan: FeaturePlan,
    surface: Surface,
    color: Vec4,
    positions: Seq<Option<Vec3>>,
    shape: SurfaceShape,
    i: int,
)
    requires
        plan.skip_metadata,
        a.mesh.colors.len() == a.mesh.positions.len(),
        a.mesh.batch_ids.len() == a.mesh.positions.len(),
        a.mesh.positions.len() <= i < with_surface(
            a,
            plan,
            surface,
            color,
            positions,
            shape,
        ).mesh.positions.len(),
    ensures
        with_surface(a, plan, surface, color, positions, shape).mesh.batch_ids[i] == 0xffff_ffff,
        with_surface(a, plan, surface, color, positions, shape).mesh.colors[i] == color,
{
}

/// The triangles of a surface with one ring of three or four vertices have the
/// ring as their border, in its direction, and begin at its first vertex.
pub proof fn law_corners_fill_the_ring(
    rings: Seq<Vec<usize>>,
    indices: Seq<u32>,
    triangles: Seq<usize>,
    measure: spec_fn(u32, u32) -> int,
)
    requires
        rings.len() == 1,
        indices.len() == 3 || indices.len() == 4,
        forall|a: u32, b: u32| #[trigger] measure(a, b) == -measure(b, a),
    ensures
        ({
            let faces = corners(rings, indices, triangles);
            &&& faces.len() == 3 * (indices.len() - 2)
            &&& forall|t: int| 0 <= t < indices.len() - 2 ==> faces[#[trigger] (3 * t)] == indices[0]
            &&& crate::gltf_writer::surface::border(faces, measure) == (if indices.len() == 3 {
                measure(indices[0], indices[1]) + measure(indices[1], indices[2]) + measure(
                    indices[2],
                    indices[0],
                )
            } else {
                measure(indices[0], indices[1]) + measure(indices[1], indices[2]) + measure(
                    indices[2],
                    indices[3],
                ) + measure(indices[3], indices[0])
            })
        }),
{
    reveal_with_fuel(crate::gltf_writer::surface::border, 3);
    let s = corners(rings, indices, triangles);
    if indices.len() == 4 {
        assert(s.take(3) =~= seq![indices[0], indices[1], indices[2]]);
        assert(s.take(3).take(0) =~= Seq::<u32>::empty());
        assert(measure(indices[2], indices[0]) == -measure(indices[0], indices[2]));
        assert(s[0] == indices[0] && s[3] == indices[0]);
    } else {
        assert(s.take(0) =~= Seq::<u32>::empty());
        assert(s[0] == indices[0]);
    }
}

/// A surface has the color of its object; that of an object whose type has none
/// is 1, 0.753, 0.796 in red, green and blue, and opaque.
pub proof fn law_colors_of_surfaces(objects: Seq<CityObject>, job: SurfaceJob)
    requires
        job_exists(objects, job),
    ensures
        objects[job.object as int].color matches Some(color) ==> job_color(objects, job) == color,
        objects[job.object as int].color is None ==> job_color(objects, job) == (Vec4 {
            x: 0x3f80_0000,
            y: 0x3f40_c49c,
            z: 0x3f4b_c6a8,
            w: 0x3f80_0000,
        }),
{
}

/// Triangles are added whole: of corners as many as make whole triangles, in
/// their order.
pub proof fn law_triangles_stay_whole(corners: Seq<u32>)
    ensures
        whole_triangles(corners).is_prefix_of(corners),
        whole_triangles(corners).len() % 3 == 0,
        corners.len() - whole_triangles(corners).len() < 3,
{
}

} // verus!

//! What holds of adding features to the mesh of a tile.

use crate::gltf_writer::assembly::{Assembly, MeshModel, SurfaceShape};
use crate::gltf_writer::attributes::AttributeSet;
use crate::gltf_writer::feature::{
    CityObject, Feature, FeaturePlan, Geometry, Surface, SurfaceJob,
};
use crate::gltf_writer::mesh::{MeshBuilder, Vec3, Vec4};
use vstd::prelude::*;

verus! {

// -------------------------------------------------------------- upkeep

/// Whether every row of the table has all its entries.
pub open spec fn rows_complete(m: MeshModel) -> bool {
    &&& m.ids.len() == m.row_count
    &&& m.types.len() == m.row_count
    &&& m.surface_types.len() == m.row_count
    &&& m.attributes.len() == m.row_count
    &&& m.areas.len() == m.row_count
    &&& m.azimuths.len() == m.row_count
    &&& m.elevations.len() == m.row_count
}

/// Whether every vertex has all its attributes, triangles have three corners,
/// and corners are vertices.
pub open spec fn vertices_complete(m: MeshModel) -> bool {
    &&& m.normals.len() == m.positions.len()
    &&& m.colors.len() == m.positions.len()
    &&& m.batch_ids.len() == m.positions.len()
    &&& m.indices.len() % 3 == 0
    &&& forall|i: int| 0 <= i < m.indices.len() ==> #[trigger] m.indices[i] < m.positions.len()
}

/// Whether a mesh begins with all that another holds.
pub open spec fn extends(before: MeshModel, after: MeshModel) -> bool {
    &&& before.row_count <= after.row_count
    &&& before.positions.is_prefix_of(after.positions)
    &&& before.normals.is_prefix_of(after.normals)
    &&& before.colors.is_prefix_of(after.colors)
    &&& before.batch_ids.is_prefix_of(after.batch_ids)
    &&& before.indices.is_prefix_of(after.indices)
    &&& before.ids.is_prefix_of(after.ids)
    &&& before.types.is_prefix_of(after.types)
    &&& before.surface_types.is_prefix_of(after.surface_types)
    &&& before.attributes.is_prefix_of(after.attributes)
    &&& before.areas.is_prefix_of(after.areas)
    &&& before.azimuths.is_prefix_of(after.azimuths)
    &&& before.elevations.is_prefix_of(after.elevations)
}

proof fn lemma_prefix_same<A>(s: Seq<A>)
    ensures
        s.is_prefix_of(s),
{
    assert(s =~= s.take(s.len() as int));
}

proof fn lemma_prefix_of_prefix<A>(a: Seq<A>, b: Seq<A>, c: Seq<A>)
    requires
        a.is_prefix_of(b),
        b.is_prefix_of(c),
    ensures
        a.is_prefix_of(c),
{
    assert(a =~= c.take(a.len() as int)) by {
        assert(b =~= c.take(b.len() as int));
        assert(a =~= b.take(a.len() as int));
    }
}

proof fn lemma_extends_itself(m: MeshModel)
    ensures
        extends(m, m),
{
    lemma_prefix_same(m.positions);
    lemma_prefix_same(m.normals);
    lemma_prefix_same(m.colors);
    lemma_prefix_same(m.batch_ids);
    lemma_prefix_same(m.indices);
    lemma_prefix_same(m.ids);
    lemma_prefix_same(m.attributes);
    lemma_prefix_same(m.types);
    lemma_prefix_same(m.surface_types);
    lemma_prefix_same(m.areas);
    lemma_prefix_same(m.azimuths);
    lemma_prefix_same(m.elevations);
}

proof fn lemma_extends_further(a: MeshModel, b: MeshModel, c: MeshModel)
    requires
        extends(a, b),
        extends(b, c),
    ensures
        extends(a, c),
{
    lemma_prefix_of_prefix(a.positions, b.positions, c.positions);
    lemma_prefix_of_prefix(a.normals, b.normals, c.normals);
    lemma_prefix_of_prefix(a.colors, b.colors, c.colors);
    lemma_prefix_of_prefix(a.batch_ids, b.batch_ids, c.batch_ids);
    lemma_prefix_of_prefix(a.indices, b.indices, c.indices);
    lemma_prefix_of_prefix(a.ids, b.ids, c.ids);
    lemma_prefix_of_prefix(a.types, b.types, c.types);
    lemma_prefix_of_prefix(a.surface_types, b.surface_types, c.surface_types);
    lemma_prefix_of_prefix(a.attributes, b.attributes, c.attributes);
    lemma_prefix_of_prefix(a.areas, b.areas, c.areas);
    lemma_prefix_of_prefix(a.azimuths, b.azimuths, c.azimuths);
    lemma_prefix_of_prefix(a.elevations, b.elevations, c.elevations);
}

/// One more surface leaves all that is there.
proof fn lemma_surface_extends(
    a: Assembly,
    plan: FeaturePlan,
    surface: Surface,
    color: Vec4,
    positions: Seq<Option<Vec3>>,
    shape: SurfaceShape,
)
    requires
        a.mesh.row_count < u32::MAX,
    ensures
        extends(
            a.mesh,
            crate::gltf_writer::assembly::with_surface(
                a,
                plan,
                surface,
                color,
                positions,
                shape,
            ).mesh,
        ),
{
    let m = a.mesh;
    let after = crate::gltf_writer::assembly::with_surface(
        a,
        plan,
        surface,
        color,
        positions,
        shape,
    ).mesh;
    assert(m.positions =~= after.positions.take(m.positions.len() as int));
    assert(m.normals =~= after.normals.take(m.normals.len() as int));
    assert(m.colors =~= after.colors.take(m.colors.len() as int));
    assert(m.batch_ids =~= after.batch_ids.take(m.batch_ids.len() as int));
    assert(m.indices =~= after.indices.take(m.indices.len() as int));
    assert(m.ids =~= after.ids.take(m.ids.len() as int));
    assert(m.types =~= after.types.take(m.types.len() as int));
    assert(m.surface_types =~= after.surface_types.take(m.surface_types.len() as int));
    assert(m.attributes =~= after.attributes.take(m.attributes.len() as int));
    assert(m.areas =~= after.areas.take(m.areas.len() as int));
    assert(m.azimuths =~= after.azimuths.take(m.azimuths.len() as int));
    assert(m.elevations =~= after.elevations.take(m.elevations.len() as int));
}

/// One more surface keeps the vertices complete.
proof fn lemma_surface_keeps_vertices_complete(
    a: Assembly,
    plan: FeaturePlan,
    surface: Surface,
    color: Vec4,
    positions: Seq<Option<Vec3>>,
    shape: SurfaceShape,
)
    requires
        vertices_complete(a.mesh),
        crate::gltf_writer::assembly::places_hold(a, positions),
        crate::gltf_writer::assembly::surface_ready(positions, surface),
        a.mesh.positions.len() + crate::gltf_writer::surface::outline(surface.rings@).len()
            <= u32::MAX,
        forall|i: int|
            0 <= i < shape.triangles@.len() ==> #[trigger] shape.triangles@[i]
                < crate::gltf_writer::surface::outline(surface.rings@).len(),
    ensures
        vertices_complete(
            crate::gltf_writer::assembly::with_surface(
                a,
                plan,
                surface,
                color,
                positions,
                shape,
            ).mesh,
        ),
{
    let rings = surface.rings@;
    let vertices = crate::gltf_writer::surface::outline(rings);
    let after = crate::gltf_writer::assembly::with_surface(
        a,
        plan,
        surface,
        color,
        positions,
        shape,
    ).mesh;
    let faces = crate::gltf_writer::assembly::added_corners(a, rings, shape);
    let added = crate::gltf_writer::assembly::whole_triangles(faces);
    crate::gltf_writer::assembly::lemma_placed(
        a.known,
        a.mesh.positions.len() as int,
        vertices,
    );
    let p = crate::gltf_writer::assembly::placed(a, rings);
    assert forall|i: int| 0 <= i < faces.len() implies #[trigger] faces[i]
        < after.positions.len() by {
        assert forall|k: int| 0 <= k < p.indices.len() implies #[trigger] p.indices[k]
            < a.mesh.positions.len() + p.added.len() by {
            let v = vertices[k];
            assert(p.known.contains_key(v));
            if a.known.contains_key(v) && p.known[v] == a.known[v] {
                assert(a.known[v] < a.mesh.positions.len());
            }
        }
    }
    assert forall|i: int| 0 <= i < after.indices.len() implies #[trigger] after.indices[i]
        < after.positions.len() by {
        if i < a.mesh.indices.len() {
            assert(a.mesh.indices[i] < a.mesh.positions.len());
        } else {
            assert(after.indices[i] == added[i - a.mesh.indices.len()]);
            assert(added[i - a.mesh.indices.len()] == faces[i - a.mesh.indices.len()]);
        }
    }
    assert(added.len() % 3 == 0);
}

proof fn lemma_surfaces_keep_order(
    a: Assembly,
    plan: FeaturePlan,
    objects: Seq<CityObject>,
    jobs: Seq<SurfaceJob>,
    positions: Seq<Option<Vec3>>,
    shapes: Seq<SurfaceShape>,
)
    requires
        crate::gltf_writer::assembly::places_hold(a, positions),
        shapes.len() >= jobs.len(),
        forall|k: int|
            0 <= k < jobs.len() ==> crate::gltf_writer::assembly::surface_ready(
                positions,
                crate::gltf_writer::assembly::job_surface(objects, #[trigger] jobs[k]),
            ) && crate::gltf_writer::assembly::shape_fits(objects, jobs[k], shapes[k]),
        a.mesh.positions.len() + crate::gltf_writer::assembly::corner_count(objects, jobs)
            <= u32::MAX,
        a.mesh.row_count + jobs.len() <= u32::MAX,
    ensures
        ({
            let after = crate::gltf_writer::assembly::with_surfaces(
                a,
                plan,
                objects,
                jobs,
                positions,
                shapes,
            ).mesh;
            &&& extends(a.mesh, after)
            &&& vertices_complete(a.mesh) ==> vertices_complete(after)
        }),
    decreases jobs.len(),
{
    if jobs.len() == 0 {
        lemma_extends_itself(a.mesh);
    } else {
        let head = jobs.drop_last();
        assert forall|k: int|
            0 <= k < head.len() implies crate::gltf_writer::assembly::surface_ready(
            positions,
            crate::gltf_writer::assembly::job_surface(objects, #[trigger] head[k]),
        ) && crate::gltf_writer::assembly::shape_fits(objects, head[k], shapes[k]) by {
            assert(head[k] == jobs[k]);
        }
        lemma_surfaces_keep_order(a, plan, objects, head, positions, shapes);
        crate::gltf_writer::assembly::lemma_surfaces_keep_places(
            a,
            plan,
            objects,
            head,
            positions,
            shapes,
        );
        let mid = crate::gltf_writer::assembly::with_surfaces(
            a,
            plan,
            objects,
            head,
            positions,
            shapes,
        );
        if plan.skip_metadata {
            crate::gltf_writer::assembly::law_no_rows_without_metadata(
                a,
                plan,
                objects,
                head,
                positions,
                shapes,
            );
        } else {
            crate::gltf_writer::assembly::law_one_row_for_each_surface(
                a,
                plan,
                objects,
                head,
                positions,
                shapes,
            );
        }
        let last = jobs[jobs.len() - 1];
        let surface = crate::gltf_writer::assembly::job_surface(objects, last);
        let color = crate::gltf_writer::assembly::job_color(objects, last);
        let shape = shapes[jobs.len() - 1];
        assert(crate::gltf_writer::assembly::shape_fits(objects, last, shape));
        lemma_surface_extends(mid, plan, surface, color, positions, shape);
        if vertices_complete(a.mesh) {
            lemma_surface_keeps_vertices_complete(mid, plan, surface, color, positions, shape);
        }
        let after = crate::gltf_writer::assembly::with_surfaces(
            a,
            plan,
            objects,
            jobs,
            positions,
            shapes,
        ).mesh;
        lemma_extends_further(a.mesh, mid.mesh, after);
    }
}

/// A feature leaves the rows and vertices of the features before it as they
/// are. Where every row had all its entries and every vertex all its
/// attributes, they still have; triangles stay whole and have their corners in
/// the mesh. The table grows by one row for each surface that is written, or
/// by none where the feature gets no rows.
pub proof fn law_adding_a_feature_keeps_order(
    mesh: MeshModel,
    plan: FeaturePlan,
    objects: Seq<CityObject>,
    jobs: Seq<SurfaceJob>,
    positions: Seq<Option<Vec3>>,
    shapes: Seq<SurfaceShape>,
)
    requires
        shapes.len() == jobs.len(),
        forall|k: int|
            0 <= k < jobs.len() ==> crate::gltf_writer::assembly::surface_ready(
                positions,
                crate::gltf_writer::assembly::job_surface(objects, #[trigger] jobs[k]),
            ) && crate::gltf_writer::assembly::shape_fits(objects, jobs[k], shapes[k]),
        mesh.positions.len() + crate::gltf_writer::assembly::corner_count(objects, jobs)
            <= u32::MAX,
        mesh.row_count + jobs.len() <= u32::MAX,
    ensures
        ({
            let after = crate::gltf_writer::assembly::with_surfaces(
                Assembly { mesh, known: Map::empty() },
                plan,
                objects,
                jobs,
                positions,
                shapes,
            ).mesh;
            &&& extends(mesh, after)
            &&& rows_complete(mesh) ==> rows_complete(after)
            &&& vertices_complete(mesh) ==> vertices_complete(after)
            &&& after.row_count == mesh.row_count + (if plan.skip_metadata {
                0
            } else {
                jobs.len()
            })
        }),
{
    let a = Assembly { mesh, known: Map::empty() };
    lemma_surfaces_keep_order(a, plan, objects, jobs, positions, shapes);
    if plan.skip_metadata {
        crate::gltf_writer::assembly::law_no_rows_without_metadata(
            a,
            plan,
            objects,
            jobs,
            positions,
            shapes,
        );
    } else {
        crate::gltf_writer::assembly::law_one_row_for_each_surface(
            a,
            plan,
            objects,
            jobs,
            positions,
            shapes,
        );
    }
}

/// A surface that is added twice in a row, under whatever plan and color,
/// brings the same triangles again and no vertex.
pub proof fn law_adding_a_surface_again(
    a: Assembly,
    plan: FeaturePlan,
    other_plan: FeaturePlan,
    surface: Surface,
    color: Vec4,
    other_color: Vec4,
    positions: Seq<Option<Vec3>>,
    shape: SurfaceShape,
)
    ensures
        ({
            let once = crate::gltf_writer::assembly::with_surface(
                a,
                plan,
                surface,
                color,
                positions,
                shape,
            );
            let twice = crate::gltf_writer::assembly::with_surface(
                once,
                other_plan,
                surface,
                other_color,
                positions,
                shape,
            );
            let triangles = once.mesh.indices.skip(a.mesh.indices.len() as int);
            &&& twice.known == once.known
            &&& twice.mesh.positions == once.mesh.positions
            &&& twice.mesh.normals == once.mesh.normals
            &&& twice.mesh.colors == once.mesh.colors
            &&& twice.mesh.batch_ids == once.mesh.batch_ids
            &&& once.mesh.indices == a.mesh.indices + triangles
            &&& twice.mesh.indices == once.mesh.indices + triangles
        }),
{
    let rings = surface.rings@;
    let once = crate::gltf_writer::assembly::with_surface(
        a,
        plan,
        surface,
        color,
        positions,
        shape,
    );
    let twice = crate::gltf_writer::assembly::with_surface(
        once,
        other_plan,
        surface,
        other_color,
        positions,
        shape,
    );
    let triangles = once.mesh.indices.skip(a.mesh.indices.len() as int);
    crate::gltf_writer::surface::law_placing_again_adds_nothing(
        a.known,
        a.mesh.positions.len() as int,
        once.mesh.positions.len() as int,
        crate::gltf_writer::surface::outline(rings),
        positions,
    );
    assert(triangles =~= crate::gltf_writer::assembly::whole_triangles(
        crate::gltf_writer::assembly::added_corners(a, rings, shape),
    ));
    assert(once.mesh.indices =~= a.mesh.indices + triangles);
    assert(twice.mesh.positions =~= once.mesh.positions);
    assert(twice.mesh.normals =~= once.mesh.normals);
    assert(twice.mesh.colors =~= once.mesh.colors);
    assert(twice.mesh.batch_ids =~= once.mesh.batch_ids);
}

// ----------------------------------------------------- levels of detail

/// The geometries that are of the level of detail that is written.
pub open spec fn of_level(geometries: Seq<Geometry>, wanted: Option<Seq<char>>) -> Seq<Geometry>
    decreases geometries.len(),
{
    if geometries.len() == 0 {
        Seq::empty()
    } else if crate::gltf_writer::feature::has_lod(geometries.last(), wanted) {
        of_level(geometries.drop_last(), wanted).push(geometries.last())
    } else {
        of_level(geometries.drop_last(), wanted)
    }
}

/// Whether an object is another without some geometries: all those, or none,
/// whose level of detail is not written.
pub open spec fn leaves_out_levels(
    object: CityObject,
    less: CityObject,
    filter: Option<Seq<char>>,
) -> bool {
    &&& less.id == object.id
    &&& less.cotype == object.cotype
    &&& less.attributes == object.attributes
    &&& less.color == object.color
    &&& match (object.geometry, less.geometry) {
        (Some(all), Some(some)) => some@ == all@ || some@ == of_level(
            all@,
            crate::gltf_writer::feature::wanted_lod(filter, all@),
        ),
        (None, None) => true,
        _ => false,
    }
}

/// Whether the objects of a feature are others without some geometries whose
/// level of detail is not written.
pub open spec fn leave_out_levels(
    objects: Seq<CityObject>,
    less: Seq<CityObject>,
    filter: Option<Seq<char>>,
) -> bool {
    &&& less.len() == objects.len()
    &&& forall|o: int|
        0 <= o < objects.len() ==> leaves_out_levels(#[trigger] objects[o], less[o], filter)
}

/// The surfaces of a list, each with its color.
pub open spec fn colored_surfaces(objects: Seq<CityObject>, jobs: Seq<SurfaceJob>) -> Seq<
    (Surface, Vec4),
> {
    Seq::new(
        jobs.len(),
        |i: int|
            (
                crate::gltf_writer::assembly::job_surface(objects, jobs[i]),
                crate::gltf_writer::assembly::job_color(objects, jobs[i]),
            ),
    )
}

proof fn lemma_of_level(geometries: Seq<Geometry>, wanted: Option<Seq<char>>)
    ensures
        of_level(geometries, wanted).len() <= geometries.len(),
        forall|k: int|
            0 <= k < of_level(geometries, wanted).len() ==> crate::gltf_writer::feature::has_lod(
                #[trigger] of_level(geometries, wanted)[k],
                wanted,
            ),
        forall|k: int|
            0 <= k < geometries.len() && crate::gltf_writer::feature::has_lod(
                #[trigger] geometries[k],
                wanted,
            ) ==> of_level(geometries, wanted).len() > 0,
        wanted is None ==> of_level(geometries, wanted) == geometries,
    decreases geometries.len(),
{
    if geometries.len() > 0 {
        let head = geometries.drop_last();
        lemma_of_level(head, wanted);
        assert forall|k: int|
            0 <= k < geometries.len() && crate::gltf_writer::feature::has_lod(
                #[trigger] geometries[k],
                wanted,
            ) implies of_level(geometries, wanted).len() > 0 by {
            if k < head.len() {
                assert(head[k] == geometries[k]);
            }
        }
        if wanted is None {
            assert(of_level(geometries, wanted) =~= geometries);
        }
    } else {
        assert(of_level(geometries, wanted) =~= geometries);
    }
}

/// Without the geometries that are not written, the same level of detail is
/// written.
proof fn lemma_level_stays(geometries: Seq<Geometry>, filter: Option<Seq<char>>)
    ensures
        crate::gltf_writer::feature::wanted_lod(
            filter,
            of_level(geometries, crate::gltf_writer::feature::wanted_lod(filter, geometries)),
        ) == crate::gltf_writer::feature::wanted_lod(filter, geometries),
{
    let wanted = crate::gltf_writer::feature::wanted_lod(filter, geometries);
    let some = of_level(geometries, wanted);
    lemma_of_level(geometries, wanted);
    if filter is None && wanted is Some {
        crate::gltf_writer::feature::law_finest_is_highest(geometries);
        crate::gltf_writer::feature::law_finest_is_highest(some);
        let best = crate::gltf_writer::feature::finest(geometries)->0;
        assert(crate::gltf_writer::feature::has_lod(geometries[best], wanted));
        assert(some.len() > 0);
        assert(crate::gltf_writer::feature::has_lod(some[0], wanted));
        let kept = crate::gltf_writer::feature::finest(some)->0;
        assert(crate::gltf_writer::feature::has_lod(some[kept], wanted));
    }
}

/// The surfaces of a geometry have the same places in it, wherever it stands.
proof fn lemma_places_in_geometry(
    object: int,
    geometry: int,
    other: int,
    shells: Seq<Vec<Surface>>,
)
    ensures
        ({
            let jobs = crate::gltf_writer::feature::geometry_jobs(object, geometry, shells);
            let others = crate::gltf_writer::feature::geometry_jobs(object, other, shells);
            &&& jobs.len() == others.len()
            &&& forall|i: int|
                0 <= i < jobs.len() ==> {
                    &&& (#[trigger] jobs[i]).object == object as usize
                    &&& others[i].object == object as usize
                    &&& jobs[i].geometry == geometry as usize
                    &&& others[i].geometry == other as usize
                    &&& jobs[i].shell == others[i].shell
                    &&& jobs[i].surface == others[i].surface
                }
        }),
    decreases shells.len(),
{
    if shells.len() > 0 {
        lemma_places_in_geometry(object, geometry, other, shells.drop_last());
    }
}

/// The surfaces of an object are the same without the geometries that are not
/// written.
proof fn lemma_places_in_object(
    object: int,
    geometries: Seq<Geometry>,
    wanted: Option<Seq<char>>,
)
    requires
        geometries.len() <= usize::MAX,
    ensures
        ({
            let some = of_level(geometries, wanted);
            let jobs = crate::gltf_writer::feature::object_jobs(object, geometries, wanted);
            let others = crate::gltf_writer::feature::object_jobs(object, some, wanted);
            &&& jobs.len() == others.len()
            &&& forall|i: int|
                0 <= i < jobs.len() ==> {
                    &&& (#[trigger] jobs[i]).object == object as usize
                    &&& others[i].object == object as usize
                    &&& jobs[i].geometry < geometries.len()
                    &&& others[i].geometry < some.len()
                    &&& geometries[jobs[i].geometry as int] == some[others[i].geometry as int]
                    &&& jobs[i].shell == others[i].shell
                    &&& jobs[i].surface == others[i].surface
                }
        }),
    decreases geometries.len(),
{
    lemma_of_level(geometries, wanted);
    if geometries.len() > 0 {
        let head = geometries.drop_last();
        let some = of_level(geometries, wanted);
        lemma_places_in_object(object, head, wanted);
        lemma_of_level(head, wanted);
        let jobs = crate::gltf_writer::feature::object_jobs(object, geometries, wanted);
        let others = crate::gltf_writer::feature::object_jobs(object, some, wanted);
        let before = crate::gltf_writer::feature::object_jobs(object, head, wanted);
        if crate::gltf_writer::feature::has_lod(geometries.last(), wanted) {
            assert(some.drop_last() =~= of_level(head, wanted));
            lemma_places_in_geometry(
                object,
                geometries.len() - 1,
                some.len() - 1,
                geometries.last().shells@,
            );
            let last = crate::gltf_writer::feature::geometry_jobs(
                object,
                geometries.len() - 1,
                geometries.last().shells@,
            );
            assert forall|i: int| 0 <= i < jobs.len() implies {
                &&& (#[trigger] jobs[i]).object == object as usize
                &&& others[i].object == object as usize
                &&& jobs[i].geometry < geometries.len()
                &&& others[i].geometry < some.len()
                &&& geometries[jobs[i].geometry as int] == some[others[i].geometry as int]
                &&& jobs[i].shell == others[i].shell
                &&& jobs[i].surface == others[i].surface
            } by {
                if i < before.len() {
                    assert(jobs[i] == before[i]);
                } else {
                    assert(jobs[i] == last[i - before.len()]);
                }
            }
        } else {
            assert(jobs =~= before);
        }
    }
}

/// The surfaces of a feature that are written are the same without the
/// geometries that are not written.
proof fn lemma_surfaces_stay(
    objects: Seq<CityObject>,
    less: Seq<CityObject>,
    filter: Option<Seq<char>>,
)
    requires
        objects.len() <= usize::MAX,
        leave_out_levels(objects, less, filter),
    ensures
        colored_surfaces(objects, crate::gltf_writer::feature::feature_jobs(objects, filter))
            == colored_surfaces(less, crate::gltf_writer::feature::feature_jobs(less, filter)),
    decreases objects.len(),
{
    let jobs = crate::gltf_writer::feature::feature_jobs(objects, filter);
    let others = crate::gltf_writer::feature::feature_jobs(less, filter);
    if objects.len() > 0 {
        let head = objects.drop_last();
        let less_head = less.drop_last();
        let o = objects.len() - 1;
        assert forall|k: int| 0 <= k < head.len() implies leaves_out_levels(
            #[trigger] head[k],
            less_head[k],
            filter,
        ) by {
            assert(leaves_out_levels(objects[k], less[k], filter));
        }
        lemma_surfaces_stay(head, less_head, filter);
        let before = crate::gltf_writer::feature::feature_jobs(head, filter);
        let less_before = crate::gltf_writer::feature::feature_jobs(less_head, filter);
        assert(colored_surfaces(head, before).len() == colored_surfaces(
            less_head,
            less_before,
        ).len());
        assert(leaves_out_levels(objects[o], less[o], filter));
        match (objects[o].geometry, less[o].geometry) {
            (Some(all), Some(some)) => {
                assert(all.len() == all@.len());
                lemma_level_stays(all@, filter);
                lemma_places_in_object(
                    o,
                    all@,
                    crate::gltf_writer::feature::wanted_lod(filter, all@),
                );
            },
            _ => {},
        }
        let tail = match objects[o].geometry {
            Some(all) => crate::gltf_writer::feature::object_jobs(
                o,
                all@,
                crate::gltf_writer::feature::wanted_lod(filter, all@),
            ),
            None => Seq::empty(),
        };
        let less_tail = match less[o].geometry {
            Some(some) => crate::gltf_writer::feature::object_jobs(
                o,
                some@,
                crate::gltf_writer::feature::wanted_lod(filter, some@),
            ),
            None => Seq::empty(),
        };
        assert(jobs == before + tail);
        assert(others == less_before + less_tail);
        assert forall|i: int| 0 <= i < jobs.len() implies #[trigger] colored_surfaces(
            objects,
            jobs,
        )[i] == colored_surfaces(less, others)[i] by {
            if i < before.len() {
                crate::gltf_writer::assembly::law_planned_surfaces_exist(head, filter, i);
                crate::gltf_writer::assembly::law_planned_surfaces_exist(less_head, filter, i);
                assert(jobs[i] == before[i]);
                assert(others[i] == less_before[i]);
                assert(colored_surfaces(head, before)[i] == colored_surfaces(
                    less_head,
                    less_before,
                )[i]);
                assert(objects[before[i].object as int] == head[before[i].object as int]);
                assert(less[less_before[i].object as int] == less_head[less_before[i].object as int]);
            } else {
                let k = i - before.len();
                assert(jobs[i] == tail[k]);
                assert(others[i] == less_tail[k]);
            }
        }
    }
    assert(colored_surfaces(objects, jobs) =~= colored_surfaces(less, others));
}

/// The mesh depends on the surfaces and their colors alone.
proof fn lemma_same_surfaces_same_mesh(
    a: Assembly,
    plan: FeaturePlan,
    objects: Seq<CityObject>,
    jobs: Seq<SurfaceJob>,
    less: Seq<CityObject>,
    others: Seq<SurfaceJob>,
    positions: Seq<Option<Vec3>>,
    shapes: Seq<SurfaceShape>,
)
    requires
        colored_surfaces(objects, jobs) == colored_surfaces(less, others),
    ensures
        crate::gltf_writer::assembly::with_surfaces(a, plan, objects, jobs, positions, shapes)
            == crate::gltf_writer::assembly::with_surfaces(
            a,
            plan,
            less,
            others,
            positions,
            shapes,
        ),
    decreases jobs.len(),
{
    assert(colored_surfaces(objects, jobs).len() == jobs.len());
    assert(colored_surfaces(less, others).len() == others.len());
    if jobs.len() > 0 {
        let head = jobs.drop_last();
        let less_head = others.drop_last();
        assert forall|i: int| 0 <= i < head.len() implies #[trigger] colored_surfaces(
            objects,
            head,
        )[i] == colored_surfaces(less, less_head)[i] by {
            assert(colored_surfaces(objects, jobs)[i] == colored_surfaces(less, others)[i]);
        }
        assert(colored_surfaces(objects, head) =~= colored_surfaces(less, less_head));
        lemma_same_surfaces_same_mesh(
            a,
            plan,
            objects,
            head,
            less,
            less_head,
            positions,
            shapes,
        );
        assert(colored_surfaces(objects, jobs)[jobs.len() - 1] == colored_surfaces(
            less,
            others,
        )[jobs.len() - 1]);
    }
}

/// Geometries whose level of detail is not written do not matter: a feature
/// without them, or without those of some of its objects, is written as the
/// same surfaces, and the mesh is the same.
pub proof fn law_other_levels_do_not_matter(
    mesh: MeshModel,
    plan: FeaturePlan,
    objects: Seq<CityObject>,
    less: Seq<CityObject>,
    filter: Option<Seq<char>>,
    positions: Seq<Option<Vec3>>,
    shapes: Seq<SurfaceShape>,
)
    requires
        objects.len() <= usize::MAX,
        leave_out_levels(objects, less, filter),
    ensures
        ({
            let a = Assembly { mesh, known: Map::empty() };
            let jobs = crate::gltf_writer::feature::feature_jobs(objects, filter);
            let others = crate::gltf_writer::feature::feature_jobs(less, filter);
            &&& colored_surfaces(objects, jobs) == colored_surfaces(less, others)
            &&& crate::gltf_writer::assembly::with_surfaces(
                a,
                plan,
                objects,
                jobs,
                positions,
                shapes,
            ) == crate::gltf_writer::assembly::with_surfaces(
                a,
                plan,
                less,
                others,
                positions,
                shapes,
            )
        }),
{
    lemma_surfaces_stay(objects, less, filter);
    lemma_same_surfaces_same_mesh(
        Assembly { mesh, known: Map::empty() },
        plan,
        objects,
        crate::gltf_writer::feature::feature_jobs(objects, filter),
        less,
        crate::gltf_writer::feature::feature_jobs(less, filter),
        positions,
        shapes,
    );
}

/// A feature without geometries whose level of detail is not written is
/// written by a plan that differs in nothing but the places of the surfaces.
pub proof fn law_other_levels_keep_the_plan(
    feature: Feature,
    less: Feature,
    lod_filter: Option<&str>,
    whitelist: Option<&[String]>,
    sets: Seq<AttributeSet>,
    plan: FeaturePlan,
    less_plan: FeaturePlan,
    sets_after: Seq<AttributeSet>,
)
    requires
        feature.objects@.len() > 0,
        less.id == feature.id,
        leave_out_levels(
            feature.objects@,
            less.objects@,
            crate::gltf_writer::feature::text_or_none(lod_filter),
        ),
        less_plan.building_id == plan.building_id,
        less_plan.cotype == plan.cotype,
        less_plan.skip_metadata == plan.skip_metadata,
        less_plan.attributes == plan.attributes,
        less_plan.surfaces@ == crate::gltf_writer::feature::feature_jobs(
            less.objects@,
            crate::gltf_writer::feature::text_or_none(lod_filter),
        ),
        crate::gltf_writer::feature::is_plan(
            feature,
            lod_filter,
            whitelist,
            sets,
            plan,
            sets_after,
        ),
    ensures
        crate::gltf_writer::feature::is_plan(
            less,
            lod_filter,
            whitelist,
            sets,
            less_plan,
            sets_after,
        ),
{
    let objects = feature.objects@;
    let others = less.objects@;
    let filter = crate::gltf_writer::feature::text_or_none(lod_filter);
    assert forall|k: int| 0 <= k < objects.len() implies (#[trigger] others[k]).cotype
        == objects[k].cotype && others[k].id == objects[k].id && others[k].attributes
        == objects[k].attributes by {
        assert(leaves_out_levels(objects[k], others[k], filter));
    }
    assert forall|cotype: Seq<char>, i: int|
        crate::gltf_writer::feature::is_first_of(objects, cotype, i)
            == #[trigger] crate::gltf_writer::feature::is_first_of(others, cotype, i) by {
        if crate::gltf_writer::feature::is_first_of(others, cotype, i) {
            assert forall|k: int| 0 <= k < i implies (#[trigger] objects[k]).cotype@ != cotype by {
                assert(others[k].cotype@ != cotype);
            }
        }
    }
    assert forall|cotype: Seq<char>|
        crate::gltf_writer::feature::none_of(objects, cotype)
            == #[trigger] crate::gltf_writer::feature::none_of(others, cotype) by {
        if crate::gltf_writer::feature::none_of(others, cotype) {
            assert forall|k: int| 0 <= k < objects.len() implies (#[trigger] objects[k]).cotype@
                != cotype by {
                assert(others[k].cotype@ != cotype);
            }
        }
    }
    assert forall|i: int|
        crate::gltf_writer::feature::is_main(objects, i)
            == #[trigger] crate::gltf_writer::feature::is_main(others, i) by {}
    let primary = choose|i: int| #[trigger]
        crate::gltf_writer::feature::is_primary(objects, i) && plan.cotype@ == objects[i].cotype@;
    assert(crate::gltf_writer::feature::is_main(others, primary)
        == crate::gltf_writer::feature::is_main(objects, primary));
    assert(crate::gltf_writer::feature::no_main(others)
        == crate::gltf_writer::feature::no_main(objects));
    assert(crate::gltf_writer::feature::is_primary(others, primary));
    if !crate::gltf_writer::feature::no_main(objects) && !plan.skip_metadata {
        let main = choose|i: int| #[trigger]
            crate::gltf_writer::feature::is_main(objects, i) && match plan.attributes {
                Some(k) => crate::gltf_writer::feature::kept_attributes(objects[i], whitelist)
                    == Some(sets_after[k as int]@),
                None => crate::gltf_writer::feature::kept_attributes(
                    objects[i],
                    whitelist,
                ) is None,
            };
        assert(crate::gltf_writer::feature::is_main(others, main));
    }
    if feature.id is None {
        assert(crate::gltf_writer::feature::is_building_id(less, plan.building_id@));
    }
}

/// Whether the texts of two plans, and all else but the places of the surfaces,
/// are the same.
pub open spec fn plans_agree(a: FeaturePlan, b: FeaturePlan) -> bool {
    &&& a.building_id@ == b.building_id@
    &&& a.cotype@ == b.cotype@
    &&& a.skip_metadata == b.skip_metadata
    &&& a.attributes == b.attributes
}

/// The mesh depends on what two plans agree in alone.
pub(crate) proof fn lemma_same_plan_same_mesh(
    a: Assembly,
    plan: FeaturePlan,
    other: FeaturePlan,
    objects: Seq<CityObject>,
    jobs: Seq<SurfaceJob>,
    positions: Seq<Option<Vec3>>,
    shapes: Seq<SurfaceShape>,
)
    requires
        plans_agree(plan, other),
    ensures
        crate::gltf_writer::assembly::with_surfaces(a, plan, objects, jobs, positions, shapes)
            == crate::gltf_writer::assembly::with_surfaces(
            a,
            other,
            objects,
            jobs,
            positions,
            shapes,
        ),
    decreases jobs.len(),
{
    if jobs.len() > 0 {
        lemma_same_plan_same_mesh(
            a,
            plan,
            other,
            objects,
            jobs.drop_last(),
            positions,
            shapes,
        );
    }
}

/// There is one first object of a type.
proof fn lemma_one_first(objects: Seq<CityObject>, cotype: Seq<char>, i: int, j: int)
    requires
        crate::gltf_writer::feature::is_first_of(objects, cotype, i),
        crate::gltf_writer::feature::is_first_of(objects, cotype, j),
    ensures
        i == j,
{
    if i < j {
        assert(objects[i].cotype@ != cotype);
    }
    if j < i {
        assert(objects[j].cotype@ != cotype);
    }
}

/// There is one main object.
proof fn lemma_one_main(objects: Seq<CityObject>, i: int, j: int)
    requires
        crate::gltf_writer::feature::is_main(objects, i),
        crate::gltf_writer::feature::is_main(objects, j),
    ensures
        i == j,
        !crate::gltf_writer::feature::no_main(objects),
{
    if crate::gltf_writer::feature::is_first_of(objects, "Building"@, i) {
        assert(objects[i].cotype@ == "Building"@);
        lemma_one_first(objects, "Building"@, i, j);
    } else {
        assert(objects[i].cotype@ == "BuildingPart"@);
        if crate::gltf_writer::feature::is_first_of(objects, "Building"@, j) {
            assert(objects[j].cotype@ == "Building"@);
        }
        lemma_one_first(objects, "BuildingPart"@, i, j);
    }
}

/// A feature has one id.
proof fn lemma_one_building_id(feature: Feature, a: Seq<char>, b: Seq<char>)
    requires
        crate::gltf_writer::feature::is_building_id(feature, a),
        crate::gltf_writer::feature::is_building_id(feature, b),
    ensures
        a == b,
{
    let objects = feature.objects@;
    if feature.id is None {
        if crate::gltf_writer::feature::none_of(objects, "Building"@) {
            assert forall|i: int|
                !#[trigger] crate::gltf_writer::feature::is_first_of(
                    objects,
                    "Building"@,
                    i,
                ) by {
                if crate::gltf_writer::feature::is_first_of(objects, "Building"@, i) {
                    assert(objects[i].cotype@ == "Building"@);
                }
            }
            assert forall|i: int, j: int|
                crate::gltf_writer::feature::is_first_of(objects, "BuildingPart"@, i)
                    && crate::gltf_writer::feature::is_first_of(
                    objects,
                    "BuildingPart"@,
                    j,
                ) implies i == j by {
                lemma_one_first(objects, "BuildingPart"@, i, j);
            }
            assert forall|i: int| #[trigger]
                crate::gltf_writer::feature::is_first_of(
                    objects,
                    "BuildingPart"@,
                    i,
                ) implies !crate::gltf_writer::feature::no_main(objects) by {
                assert(objects[i].cotype@ == "BuildingPart"@);
            }
        } else {
            let x = choose|i: int| #[trigger]
                crate::gltf_writer::feature::is_first_of(objects, "Building"@, i) && a
                    == objects[i].id@;
            let y = choose|i: int| #[trigger]
                crate::gltf_writer::feature::is_first_of(objects, "Building"@, i) && b
                    == objects[i].id@;
            lemma_one_first(objects, "Building"@, x, y);
        }
    }
}

/// A feature has one plan, up to the spelling of its texts and sets.
pub(crate) proof fn lemma_one_plan(
    feature: Feature,
    lod_filter: Option<&str>,
    whitelist: Option<&[String]>,
    sets: Seq<AttributeSet>,
    plan: FeaturePlan,
    sets_after: Seq<AttributeSet>,
    other_before: Seq<AttributeSet>,
    other: FeaturePlan,
    other_sets: Seq<AttributeSet>,
)
    requires
        same_sets(sets, other_before),
        crate::gltf_writer::feature::is_plan(
            feature,
            lod_filter,
            whitelist,
            sets,
            plan,
            sets_after,
        ),
        crate::gltf_writer::feature::is_plan(
            feature,
            lod_filter,
            whitelist,
            other_before,
            other,
            other_sets,
        ),
    ensures
        plans_agree(plan, other),
        same_sets(sets_after, other_sets),
{
    let objects = feature.objects@;
    lemma_one_building_id(feature, plan.building_id@, other.building_id@);
    assert forall|i: int, j: int|
        #[trigger] crate::gltf_writer::feature::is_main(objects, i)
            && #[trigger] crate::gltf_writer::feature::is_main(objects, j) implies i == j by {
        lemma_one_main(objects, i, j);
    }
    assert forall|i: int| #[trigger]
        crate::gltf_writer::feature::is_main(
            objects,
            i,
        ) implies !crate::gltf_writer::feature::no_main(objects) by {
        lemma_one_main(objects, i, i);
    }
    let x = choose|i: int| #[trigger]
        crate::gltf_writer::feature::is_primary(objects, i) && plan.cotype@ == objects[i].cotype@;
    let y = choose|i: int| #[trigger]
        crate::gltf_writer::feature::is_primary(objects, i) && other.cotype@ == objects[i].cotype@;
    assert(x == y) by {
        assert(crate::gltf_writer::feature::is_main(objects, x)
            || !crate::gltf_writer::feature::is_main(objects, x));
        assert(crate::gltf_writer::feature::is_main(objects, y)
            || !crate::gltf_writer::feature::is_main(objects, y));
    }
    assert(plan.attributes == other.attributes);
    assert forall|k: int| 0 <= k < sets_after.len() implies (#[trigger] sets_after[k])@
        == other_sets[k]@ by {
        if k < sets.len() {
            assert(sets_after[k] == sets_after.take(sets.len() as int)[k]);
            assert(other_sets[k] == other_sets.take(sets.len() as int)[k]);
            assert(sets[k]@ == other_before[k]@);
        }
    }
}

/// Whether two lists of attribute sets hold the same.
pub open spec fn same_sets(a: Seq<AttributeSet>, b: Seq<AttributeSet>) -> bool {
    &&& a.len() == b.len()
    &&& forall|k: int| 0 <= k < a.len() ==> (#[trigger] a[k])@ == b[k]@
}

/// A feature and the same feature without geometries whose level of detail is
/// not written leave the same mesh, table and attributes behind, when they are
/// added to the same mesh.
pub proof fn law_other_levels_change_nothing(
    before: MeshBuilder,
    after: MeshBuilder,
    less_after: MeshBuilder,
    feature: Feature,
    less: Feature,
    positions: Seq<Option<Vec3>>,
    shapes: Seq<SurfaceShape>,
    lod_filter: Option<&str>,
    whitelist: Option<&[String]>,
    plan: FeaturePlan,
    less_plan: FeaturePlan,
)
    requires
        feature.objects@.len() > 0,
        less.id == feature.id,
        leave_out_levels(
            feature.objects@,
            less.objects@,
            crate::gltf_writer::feature::text_or_none(lod_filter),
        ),
        crate::gltf_writer::assembly::feature_added(
            before,
            after,
            feature,
            positions,
            shapes,
            lod_filter,
            whitelist,
            plan,
        ),
        crate::gltf_writer::assembly::feature_added(
            before,
            less_after,
            less,
            positions,
            shapes,
            lod_filter,
            whitelist,
            less_plan,
        ),
    ensures
        less_after.model() == after.model(),
        same_sets(after.attribute_sets@, less_after.attribute_sets@),
        plans_agree(plan, less_plan),
{
    let filter = crate::gltf_writer::feature::text_or_none(lod_filter);
    let a = Assembly { mesh: before.model(), known: Map::empty() };
    let moved = FeaturePlan { surfaces: less_plan.surfaces, ..plan };
    assert(feature.objects.len() == feature.objects@.len());
    law_other_levels_keep_the_plan(
        feature,
        less,
        lod_filter,
        whitelist,
        before.attribute_sets@,
        plan,
        moved,
        after.attribute_sets@,
    );
    lemma_one_plan(
        less,
        lod_filter,
        whitelist,
        before.attribute_sets@,
        moved,
        after.attribute_sets@,
        before.attribute_sets@,
        less_plan,
        less_after.attribute_sets@,
    );
    law_other_levels_do_not_matter(
        before.model(),
        plan,
        feature.objects@,
        less.objects@,
        filter,
        positions,
        shapes,
    );
    lemma_same_plan_same_mesh(
        a,
        plan,
        less_plan,
        less.objects@,
        crate::gltf_writer::feature::feature_jobs(less.objects@, filter),
        positions,
        shapes,
    );
}

/// A feature without geometries whose level of detail is not written can be
/// added where the feature can: its surfaces have the positions that they need.
pub proof fn law_other_levels_need_no_positions(
    objects: Seq<CityObject>,
    less: Seq<CityObject>,
    filter: Option<Seq<char>>,
    positions: Seq<Option<Vec3>>,
    i: int,
)
    requires
        objects.len() <= usize::MAX,
        leave_out_levels(objects, less, filter),
        forall|k: int|
            0 <= k < crate::gltf_writer::feature::feature_jobs(objects, filter).len()
                ==> crate::gltf_writer::assembly::surface_ready(
                positions,
                crate::gltf_writer::assembly::job_surface(
                    objects,
                    #[trigger] crate::gltf_writer::feature::feature_jobs(objects, filter)[k],
                ),
            ),
        0 <= i < crate::gltf_writer::feature::feature_jobs(less, filter).len(),
    ensures
        i < crate::gltf_writer::feature::feature_jobs(objects, filter).len(),
        crate::gltf_writer::assembly::surface_ready(
            positions,
            crate::gltf_writer::assembly::job_surface(
                less,
                crate::gltf_writer::feature::feature_jobs(less, filter)[i],
            ),
        ),
{
    let jobs = crate::gltf_writer::feature::feature_jobs(objects, filter);
    let others = crate::gltf_writer::feature::feature_jobs(less, filter);
    lemma_surfaces_stay(objects, less, filter);
    assert(colored_surfaces(objects, jobs).len() == jobs.len());
    assert(colored_surfaces(less, others).len() == others.len());
    assert(colored_surfaces(objects, jobs)[i] == colored_surfaces(less, others)[i]);
    assert(crate::gltf_writer::assembly::surface_ready(
        positions,
        crate::gltf_writer::assembly::job_surface(objects, jobs[i]),
    ));
}

} // verus!

//! Filling the mesh of a tile with the features of its cells.

use crate::gltf_writer::assembly::{Assembly, MeshModel, SurfaceShape};
use crate::gltf_writer::attributes::AttributeSet;
use crate::gltf_writer::feature::{tile_features, Feature, FeaturePlan, SurfaceJob};
use crate::gltf_writer::mesh::{MeshBuilder, SplatVertex, TilesVersion, Vec3};
use crate::gltf_writer::surface::SurfaceError;
use vstd::prelude::*;

verus! {

/// A feature with what is computed of it: the positions of its vertices, as
/// far as they could be computed, and the shapes of the surfaces that are
/// written, in order.
pub struct TileFeature {
    pub feature: Feature,
    pub positions: Vec<Option<Vec3>>,
    pub shapes: Vec<SurfaceShape>,
}

/// The surfaces of a feature that are written.
pub open spec fn jobs_of(f: TileFeature, filter: Option<Seq<char>>) -> Seq<SurfaceJob> {
    crate::gltf_writer::feature::feature_jobs(f.feature.objects@, filter)
}

/// Whether there is a shape for each surface that is written, with triangles
/// that lie in its outline.
pub open spec fn shapes_fit(f: TileFeature, filter: Option<Seq<char>>) -> bool {
    let jobs = jobs_of(f, filter);
    &&& crate::gltf_writer::feature::feature_wf(f.feature)
    &&& f.shapes@.len() == jobs.len()
    &&& forall|i: int|
        0 <= i < jobs.len() ==> crate::gltf_writer::assembly::shape_fits(
            f.feature.objects@,
            #[trigger] jobs[i],
            f.shapes@[i],
        )
}

/// How many surfaces some features have.
pub open spec fn surface_total(
    features: Seq<TileFeature>,
    ids: Seq<usize>,
    filter: Option<Seq<char>>,
) -> nat
    decreases ids.len(),
{
    if ids.len() == 0 {
        0
    } else {
        surface_total(features, ids.drop_last(), filter) + jobs_of(
            features[ids.last() as int],
            filter,
        ).len()
    }
}

/// How many corners the outlines of the surfaces of some features have.
pub open spec fn corner_total(
    features: Seq<TileFeature>,
    ids: Seq<usize>,
    filter: Option<Seq<char>>,
) -> nat
    decreases ids.len(),
{
    if ids.len() == 0 {
        0
    } else {
        let f = features[ids.last() as int];
        corner_total(features, ids.drop_last(), filter)
            + crate::gltf_writer::assembly::corner_count(f.feature.objects@, jobs_of(f, filter))
    }
}

/// The mesh with one more feature, written by a plan.
pub open spec fn with_feature(
    m: MeshModel,
    plan: FeaturePlan,
    f: TileFeature,
    filter: Option<Seq<char>>,
) -> MeshModel {
    crate::gltf_writer::assembly::with_surfaces(
        Assembly { mesh: m, known: Map::empty() },
        plan,
        f.feature.objects@,
        jobs_of(f, filter),
        f.positions@,
        f.shapes@,
    ).mesh
}

/// The mesh with some features, one after the other, written by plans.
pub open spec fn with_features(
    m: MeshModel,
    plans: Seq<FeaturePlan>,
    features: Seq<TileFeature>,
    ids: Seq<usize>,
    filter: Option<Seq<char>>,
) -> MeshModel
    decreases ids.len(),
{
    if ids.len() == 0 {
        m
    } else {
        with_feature(
            with_features(m, plans, features, ids.drop_last(), filter),
            plans[ids.len() - 1],
            features[ids.last() as int],
            filter,
        )
    }
}

/// Whether these are the plans by which some features are written. `sets[k]`
/// are the attribute sets of the tile before the `k`th feature.
pub open spec fn are_plans(
    plans: Seq<FeaturePlan>,
    sets: Seq<Seq<AttributeSet>>,
    features: Seq<TileFeature>,
    ids: Seq<usize>,
    lod_filter: Option<&str>,
    whitelist: Option<&[String]>,
) -> bool {
    &&& plans.len() == ids.len()
    &&& sets.len() == ids.len() + 1
    &&& forall|k: int|
        0 <= k < ids.len() ==> crate::gltf_writer::feature::is_plan(
            features[ids[k] as int].feature,
            lod_filter,
            whitelist,
            sets[k],
            #[trigger] plans[k],
            sets[k + 1],
        )
}

/// Whether every surface of a feature has the positions that it needs.
pub open spec fn feature_ready(f: TileFeature, filter: Option<Seq<char>>) -> bool {
    let jobs = jobs_of(f, filter);
    forall|i: int|
        0 <= i < jobs.len() ==> crate::gltf_writer::assembly::surface_ready(
            f.positions@,
            crate::gltf_writer::assembly::job_surface(f.feature.objects@, #[trigger] jobs[i]),
        )
}

/// Whether features were added to a mesh, one after the other, by plans.
pub open spec fn features_added(
    before: MeshBuilder,
    after: MeshBuilder,
    features: Seq<TileFeature>,
    ids: Seq<usize>,
    lod_filter: Option<&str>,
    whitelist: Option<&[String]>,
    plans: Seq<FeaturePlan>,
    sets: Seq<Seq<AttributeSet>>,
) -> bool {
    let filter = crate::gltf_writer::feature::text_or_none(lod_filter);
    &&& forall|k: int|
        0 <= k < ids.len() ==> feature_ready(features[#[trigger] ids[k] as int], filter)
    &&& are_plans(plans, sets, features, ids, lod_filter, whitelist)
    &&& sets[0] == before.attribute_sets@
    &&& sets[ids.len() as int] == after.attribute_sets@
    &&& after.model() == with_features(before.model(), plans, features, ids, filter)
    &&& after.metallic_factor == before.metallic_factor
    &&& after.roughness_factor == before.roughness_factor
}

/// Whether the features of the cells of a tile were added to its mesh, each
/// once.
pub open spec fn tile_filled(
    before: MeshBuilder,
    after: MeshBuilder,
    features: Seq<TileFeature>,
    cells: Seq<Vec<usize>>,
    lod_filter: Option<&str>,
    whitelist: Option<&[String]>,
) -> bool {
    let ids = crate::gltf_writer::feature::without_repeats(
        crate::gltf_writer::feature::all_features(cells),
    );
    exists|plans: Seq<FeaturePlan>, sets: Seq<Seq<AttributeSet>>| #[trigger]
        features_added(before, after, features, ids, lod_filter, whitelist, plans, sets)
}

/// A tile whose features could not all be added: how far they were. The `k`th
/// feature was added up to place `at` of the outline of its `i`th surface.
pub struct Break {
    pub k: int,
    pub i: int,
    pub at: int,
}

/// Whether the features of a tile are added up to a break, where `error` names
/// the first vertex without a position that a feature needs. What comes before
/// it is in the mesh.
pub open spec fn breaks_off(
    before: MeshModel,
    after: MeshModel,
    plans: Seq<FeaturePlan>,
    features: Seq<TileFeature>,
    ids: Seq<usize>,
    filter: Option<Seq<char>>,
    error: SurfaceError,
    b: Break,
) -> bool {
    let f = features[ids[b.k] as int];
    let objects = f.feature.objects@;
    let jobs = jobs_of(f, filter);
    &&& 0 <= b.k < ids.len()
    &&& 0 <= b.i < jobs.len()
    &&& forall|j: int|
        0 <= j < b.k ==> feature_ready(features[#[trigger] ids[j] as int], filter)
    &&& forall|j: int|
        0 <= j < b.i ==> crate::gltf_writer::assembly::surface_ready(
            f.positions@,
            crate::gltf_writer::assembly::job_surface(objects, #[trigger] jobs[j]),
        )
    &&& crate::gltf_writer::assembly::stops_surface_at(
        f.positions@,
        crate::gltf_writer::assembly::job_surface(objects, jobs[b.i]),
        error,
        b.at,
    )
    &&& after == crate::gltf_writer::assembly::with_part_of_feature(
        with_features(before, plans, features, ids.take(b.k), filter),
        plans[b.k],
        objects,
        jobs,
        f.positions@,
        f.shapes@,
        b.i,
        b.at,
    )
}

/// How much a mesh can grow by one feature.
proof fn lemma_feature_growth(
    m: MeshModel,
    plan: FeaturePlan,
    f: TileFeature,
    filter: Option<Seq<char>>,
)
    requires
        feature_ready(f, filter),
        m.row_count + jobs_of(f, filter).len() <= u32::MAX,
        m.positions.len() + crate::gltf_writer::assembly::corner_count(
            f.feature.objects@,
            jobs_of(f, filter),
        ) <= u32::MAX,
    ensures
        with_feature(m, plan, f, filter).row_count <= m.row_count + jobs_of(f, filter).len(),
        with_feature(m, plan, f, filter).positions.len() <= m.positions.len()
            + crate::gltf_writer::assembly::corner_count(
            f.feature.objects@,
            jobs_of(f, filter),
        ),
{
    let a = Assembly { mesh: m, known: Map::empty() };
    let objects = f.feature.objects@;
    let jobs = jobs_of(f, filter);
    if plan.skip_metadata {
        crate::gltf_writer::assembly::law_no_rows_without_metadata(
            a,
            plan,
            objects,
            jobs,
            f.positions@,
            f.shapes@,
        );
    } else {
        crate::gltf_writer::assembly::law_one_row_for_each_surface(
            a,
            plan,
            objects,
            jobs,
            f.positions@,
            f.shapes@,
        );
    }
    crate::gltf_writer::assembly::law_vertices_are_bounded_by_corners(
        m,
        plan,
        objects,
        jobs,
        f.positions@,
        f.shapes@,
    );
}

/// Fewer features have no more surfaces and corners.
proof fn lemma_totals_grow(
    features: Seq<TileFeature>,
    ids: Seq<usize>,
    filter: Option<Seq<char>>,
    n: int,
)
    requires
        0 <= n <= ids.len(),
    ensures
        surface_total(features, ids.take(n), filter) <= surface_total(features, ids, filter),
        corner_total(features, ids.take(n), filter) <= corner_total(features, ids, filter),
    decreases ids.len(),
{
    if n == ids.len() {
        assert(ids.take(n) =~= ids);
    } else {
        assert(ids.drop_last().take(n) =~= ids.take(n));
        lemma_totals_grow(features, ids.drop_last(), filter, n);
    }
}

impl MeshBuilder {
    /// Adds the features of the cells of a tile, each once.
    pub fn add_features(
        &mut self,
        features: &[TileFeature],
        cells: &[Vec<usize>],
        lod_filter: Option<&str>,
        whitelist: Option<&[String]>,
    ) -> (r: Result<(), SurfaceError>)
        requires
            old(self).wf(),
            old(self).sound(),
            ({
                let filter = crate::gltf_writer::feature::text_or_none(lod_filter);
                let ids = crate::gltf_writer::feature::without_repeats(
                    crate::gltf_writer::feature::all_features(cells@),
                );
                &&& forall|k: int|
                    0 <= k < ids.len() ==> #[trigger] ids[k] < features@.len() && shapes_fit(
                        features@[ids[k] as int],
                        filter,
                    )
                &&& old(self).next_batch_index + surface_total(features@, ids, filter) <= u32::MAX
                &&& old(self).positions@.len() + corner_total(features@, ids, filter) < u32::MAX
            }),
        ensures
            final(self).wf(),
            final(self).sound(),
            final(self).metallic_factor == old(self).metallic_factor,
            final(self).roughness_factor == old(self).roughness_factor,
            ({
                let filter = crate::gltf_writer::feature::text_or_none(lod_filter);
                let ids = crate::gltf_writer::feature::without_repeats(
                    crate::gltf_writer::feature::all_features(cells@),
                );
                match r {
                    Ok(()) => tile_filled(
                        *old(self),
                        *final(self),
                        features@,
                        cells@,
                        lod_filter,
                        whitelist,
                    ),
                    Err(e) => exists|
                        plans: Seq<FeaturePlan>,
                        sets: Seq<Seq<AttributeSet>>,
                        b: Break,
                    |
                        {
                            &&& #[trigger] breaks_off(
                                old(self).model(),
                                final(self).model(),
                                plans,
                                features@,
                                ids,
                                filter,
                                e,
                                b,
                            )
                            &&& #[trigger] are_plans(
                                plans,
                                sets,
                                features@,
                                ids.take(plans.len() as int),
                                lod_filter,
                                whitelist,
                            )
                            &&& plans.len() == b.k + 1
                            &&& sets[0] == old(self).attribute_sets@
                            &&& sets.last() == final(self).attribute_sets@
                        },
                }
            }),
    {
        let ghost before = *self;
        let ghost filter = crate::gltf_writer::feature::text_or_none(lod_filter);
        let ids: Vec<usize> = tile_features(cells);
        let n: usize = ids.len();
        let mut i: usize = 0;
        let ghost mut plans: Seq<FeaturePlan> = Seq::empty();
        let ghost mut sets: Seq<Seq<AttributeSet>> = seq![self.attribute_sets@];
        assert(ids@.take(0) =~= Seq::<usize>::empty());
        while i < n
            invariant
                i <= n,
                n == ids@.len(),
                before == *old(self),
                filter == crate::gltf_writer::feature::text_or_none(lod_filter),
                ids@ == crate::gltf_writer::feature::without_repeats(
                    crate::gltf_writer::feature::all_features(cells@),
                ),
                forall|k: int|
                    0 <= k < ids@.len() ==> #[trigger] ids@[k] < features@.len() && shapes_fit(
                        features@[ids@[k] as int],
                        filter,
                    ),
                before.next_batch_index + surface_total(features@, ids@, filter) <= u32::MAX,
                before.positions@.len() + corner_total(features@, ids@, filter) < u32::MAX,
                self.wf(),
                self.sound(),
                self.metallic_factor == before.metallic_factor,
                self.roughness_factor == before.roughness_factor,
                self.next_batch_index <= before.next_batch_index + surface_total(
                    features@,
                    ids@.take(i as int),
                    filter,
                ),
                self.positions@.len() <= before.positions@.len() + corner_total(
                    features@,
                    ids@.take(i as int),
                    filter,
                ),
                are_plans(
                    plans,
                    sets,
                    features@,
                    ids@.take(i as int),
                    lod_filter,
                    whitelist,
                ),
                sets[0] == before.attribute_sets@,
                sets[i as int] == self.attribute_sets@,
                self.model() == with_features(
                    before.model(),
                    plans,
                    features@,
                    ids@.take(i as int),
                    filter,
                ),
                forall|k: int|
                    0 <= k < i ==> feature_ready(features@[#[trigger] ids@[k] as int], filter),
            decreases n - i,
        {
            let ghost done = ids@.take(i as int);
            let ghost next = ids@.take(i + 1);
            proof {
                assert(next.drop_last() =~= done);
                assert(next.last() == ids@[i as int]);
                lemma_totals_grow(features@, ids@, filter, i + 1);
                assert(ids@[i as int] < features@.len());
                assert(shapes_fit(features@[ids@[i as int] as int], filter));
            }
            let f = &features[ids[i]];
            let ghost m = self.model();
            match self.add_feature(
                &f.feature,
                f.positions.as_slice(),
                f.shapes.as_slice(),
                lod_filter,
                whitelist,
            ) {
                Ok(plan) => {
                    proof {
                        let old_plans = plans;
                        let old_sets = sets;
                        assert(feature_ready(*f, filter));
                        lemma_feature_growth(m, plan, *f, filter);
                        plans = old_plans.push(plan);
                        sets = old_sets.push(self.attribute_sets@);
                        assert forall|k: int|
                            0 <= k < next.len() implies crate::gltf_writer::feature::is_plan(
                            features@[next[k] as int].feature,
                            lod_filter,
                            whitelist,
                            sets[k],
                            #[trigger] plans[k],
                            sets[k + 1],
                        ) by {
                            if k < i {
                                assert(plans[k] == old_plans[k]);
                                assert(next[k] == done[k]);
                            }
                        }
                        lemma_plans_of_earlier_features(
                            before.model(),
                            old_plans,
                            plan,
                            features@,
                            done,
                            filter,
                        );
                    }
                },
                Err(e) => {
                    proof {
                        let jobs = jobs_of(*f, filter);
                        let (plan, s, at) = choose|plan: FeaturePlan, s: int, at: int|
                            {
                                &&& crate::gltf_writer::feature::is_plan(
                                    f.feature,
                                    lod_filter,
                                    whitelist,
                                    sets[i as int],
                                    plan,
                                    self.attribute_sets@,
                                )
                                &&& 0 <= s < jobs.len()
                                &&& crate::gltf_writer::assembly::stops_surface_at(
                                    f.positions@,
                                    crate::gltf_writer::assembly::job_surface(
                                        f.feature.objects@,
                                        jobs[s],
                                    ),
                                    e,
                                    at,
                                )
                                &&& forall|k: int|
                                    0 <= k < s ==> crate::gltf_writer::assembly::surface_ready(
                                        f.positions@,
                                        crate::gltf_writer::assembly::job_surface(
                                            f.feature.objects@,
                                            #[trigger] jobs[k],
                                        ),
                                    )
                                &&& self.model()
                                    == #[trigger] crate::gltf_writer::assembly::with_part_of_feature(
                                    m,
                                    plan,
                                    f.feature.objects@,
                                    jobs,
                                    f.positions@,
                                    f.shapes@,
                                    s,
                                    at,
                                )
                            };
                        let old_plans = plans;
                        let old_sets = sets;
                        plans = old_plans.push(plan);
                        sets = old_sets.push(self.attribute_sets@);
                        lemma_plans_of_earlier_features(
                            before.model(),
                            old_plans,
                            plan,
                            features@,
                            done,
                            filter,
                        );
                        assert forall|k: int|
                            0 <= k < next.len() implies crate::gltf_writer::feature::is_plan(
                            features@[next[k] as int].feature,
                            lod_filter,
                            whitelist,
                            sets[k],
                            #[trigger] plans[k],
                            sets[k + 1],
                        ) by {
                            if k < i {
                                assert(plans[k] == old_plans[k]);
                                assert(next[k] == done[k]);
                            }
                        }
                        let b = Break { k: i as int, i: s, at };
                        assert(breaks_off(
                            before.model(),
                            self.model(),
                            plans,
                            features@,
                            ids@,
                            filter,
                            e,
                            b,
                        ));
                        assert(are_plans(
                            plans,
                            sets,
                            features@,
                            ids@.take(plans.len() as int),
                            lod_filter,
                            whitelist,
                        ));
                    }
                    return Err(e);
                },
            }
            i += 1;
        }
        assert(ids@.take(n as int) =~= ids@);
        assert(features_added(
            before,
            *self,
            features@,
            ids@,
            lod_filter,
            whitelist,
            plans,
            sets,
        ));
        Ok(())
    }
}

/// A further plan changes nothing for the features before.
proof fn lemma_plans_of_earlier_features(
    m: MeshModel,
    plans: Seq<FeaturePlan>,
    plan: FeaturePlan,
    features: Seq<TileFeature>,
    ids: Seq<usize>,
    filter: Option<Seq<char>>,
)
    requires
        ids.len() <= plans.len(),
    ensures
        with_features(m, plans.push(plan), features, ids, filter) == with_features(
            m,
            plans,
            features,
            ids,
            filter,
        ),
    decreases ids.len(),
{
    if ids.len() > 0 {
        lemma_plans_of_earlier_features(m, plans, plan, features, ids.drop_last(), filter);
        assert(plans.push(plan)[ids.len() - 1] == plans[ids.len() - 1]);
    }
}

// ------------------------------------------------------------------- laws

/// A number that occurs before can be left out before repeats are.
proof fn lemma_later_mention(s: Seq<usize>, i: int, j: int)
    requires
        0 <= i < j < s.len(),
        s[i] == s[j],
    ensures
        crate::gltf_writer::feature::without_repeats(s.remove(j))
            == crate::gltf_writer::feature::without_repeats(s),
    decreases s.len(),
{
    let head = s.drop_last();
    if j == s.len() - 1 {
        assert(s.remove(j) =~= head);
        assert(head[i] == s.last());
    } else {
        assert(s.remove(j).drop_last() =~= head.remove(j));
        assert(s.remove(j).last() == s.last());
        lemma_later_mention(head, i, j);
        let x = s.last();
        assert(head.remove(j).contains(x) == head.contains(x)) by {
            if head.contains(x) {
                let k = choose|k: int| 0 <= k < head.len() && head[k] == x;
                if k < j {
                    assert(head.remove(j)[k] == x);
                } else if k > j {
                    assert(head.remove(j)[k - 1] == x);
                } else {
                    assert(head.remove(j)[i] == x);
                }
            }
            if head.remove(j).contains(x) {
                let k = choose|k: int| 0 <= k < head.remove(j).len() && head.remove(j)[k] == x;
                assert(head[if k < j {
                    k
                } else {
                    k + 1
                }] == x);
            }
        }
    }
}

/// The features of cells are those of the first and those of the rest.
proof fn lemma_features_split(cells: Seq<Vec<usize>>, c: int)
    requires
        0 <= c < cells.len(),
    ensures
        crate::gltf_writer::feature::all_features(cells)
            == crate::gltf_writer::feature::all_features(cells.take(c)) + cells[c]@
            + crate::gltf_writer::feature::all_features(cells.skip(c + 1)),
    decreases cells.len(),
{
    let head = cells.drop_last();
    let whole = crate::gltf_writer::feature::all_features(cells);
    if c == cells.len() - 1 {
        assert(cells.take(c) =~= head);
        assert(cells.skip(c + 1) =~= Seq::<Vec<usize>>::empty());
        assert(whole =~= crate::gltf_writer::feature::all_features(cells.take(c)) + cells[c]@
            + crate::gltf_writer::feature::all_features(cells.skip(c + 1)));
    } else {
        lemma_features_split(head, c);
        assert(head.take(c) =~= cells.take(c));
        assert(cells.skip(c + 1).drop_last() =~= head.skip(c + 1));
        assert(cells.skip(c + 1).last() == cells.last());
        assert(whole =~= crate::gltf_writer::feature::all_features(cells.take(c)) + cells[c]@
            + crate::gltf_writer::feature::all_features(cells.skip(c + 1)));
    }
}

/// A feature is added to a tile once, where it is mentioned first: without a
/// later mention of it, the tile has the same features and the same mesh.
/// `less` are the cells without the `k`th feature of cell `c`.
pub proof fn law_later_mentions_do_not_matter(
    cells: Seq<Vec<usize>>,
    less: Seq<Vec<usize>>,
    c: int,
    k: int,
    m: MeshModel,
    plans: Seq<FeaturePlan>,
    features: Seq<TileFeature>,
    filter: Option<Seq<char>>,
)
    requires
        0 <= c < cells.len(),
        0 <= k < cells[c]@.len(),
        crate::gltf_writer::feature::all_features(cells.take(c)).contains(cells[c]@[k])
            || cells[c]@.take(k).contains(cells[c]@[k]),
        less.len() == cells.len(),
        less.take(c) == cells.take(c),
        less.skip(c + 1) == cells.skip(c + 1),
        less[c]@ == cells[c]@.remove(k),
    ensures
        ({
            let ids = crate::gltf_writer::feature::without_repeats(
                crate::gltf_writer::feature::all_features(cells),
            );
            let others = crate::gltf_writer::feature::without_repeats(
                crate::gltf_writer::feature::all_features(less),
            );
            &&& others == ids
            &&& with_features(m, plans, features, others, filter) == with_features(
                m,
                plans,
                features,
                ids,
                filter,
            )
        }),
{
    lemma_features_split(cells, c);
    lemma_features_split(less, c);
    let before = crate::gltf_writer::feature::all_features(cells.take(c));
    let own = cells[c]@;
    let whole = crate::gltf_writer::feature::all_features(cells);
    let at = before.len() + k;
    assert(crate::gltf_writer::feature::all_features(less) =~= whole.remove(at as int));
    let first = if before.contains(own[k]) {
        choose|i: int| 0 <= i < before.len() && before[i] == own[k]
    } else {
        before.len() + (choose|i: int| 0 <= i < own.take(k).len() && own.take(k)[i] == own[k])
    };
    assert(whole[first] == own[k]) by {
        if !before.contains(own[k]) {
            let i = first - before.len();
            assert(own.take(k)[i] == own[k]);
        }
    }
    lemma_later_mention(whole, first, at as int);
}

/// The same features are added by plans that agree.
proof fn lemma_plans_agree(
    features: Seq<TileFeature>,
    ids: Seq<usize>,
    lod_filter: Option<&str>,
    whitelist: Option<&[String]>,
    plans: Seq<FeaturePlan>,
    sets: Seq<Seq<AttributeSet>>,
    other_plans: Seq<FeaturePlan>,
    other_sets: Seq<Seq<AttributeSet>>,
    n: int,
)
    requires
        are_plans(plans, sets, features, ids, lod_filter, whitelist),
        are_plans(other_plans, other_sets, features, ids, lod_filter, whitelist),
        crate::gltf_writer::laws::same_sets(sets[0], other_sets[0]),
        0 <= n <= ids.len(),
    ensures
        crate::gltf_writer::laws::same_sets(sets[n], other_sets[n]),
        forall|k: int|
            0 <= k < n ==> crate::gltf_writer::laws::plans_agree(
                #[trigger] plans[k],
                other_plans[k],
            ),
    decreases n,
{
    if n > 0 {
        let k = n - 1;
        lemma_plans_agree(
            features,
            ids,
            lod_filter,
            whitelist,
            plans,
            sets,
            other_plans,
            other_sets,
            k,
        );
        let feature = features[ids[k] as int].feature;
        assert(crate::gltf_writer::feature::is_plan(
            feature,
            lod_filter,
            whitelist,
            sets[k],
            plans[k],
            sets[k + 1],
        ));
        assert(crate::gltf_writer::feature::is_plan(
            feature,
            lod_filter,
            whitelist,
            other_sets[k],
            other_plans[k],
            other_sets[k + 1],
        ));
        crate::gltf_writer::laws::lemma_one_plan(
            feature,
            lod_filter,
            whitelist,
            sets[k],
            plans[k],
            sets[k + 1],
            other_sets[k],
            other_plans[k],
            other_sets[k + 1],
        );
    }
}

/// Plans that agree make the same mesh.
proof fn lemma_same_features_same_mesh(
    m: MeshModel,
    plans: Seq<FeaturePlan>,
    other_plans: Seq<FeaturePlan>,
    features: Seq<TileFeature>,
    ids: Seq<usize>,
    filter: Option<Seq<char>>,
)
    requires
        forall|k: int|
            0 <= k < ids.len() ==> crate::gltf_writer::laws::plans_agree(
                #[trigger] plans[k],
                other_plans[k],
            ),
    ensures
        with_features(m, plans, features, ids, filter) == with_features(
            m,
            other_plans,
            features,
            ids,
            filter,
        ),
    decreases ids.len(),
{
    if ids.len() > 0 {
        let head = ids.drop_last();
        lemma_same_features_same_mesh(m, plans, other_plans, features, head, filter);
        let f = features[ids.last() as int];
        assert(crate::gltf_writer::laws::plans_agree(
            plans[ids.len() - 1],
            other_plans[ids.len() - 1],
        ));
        crate::gltf_writer::laws::lemma_same_plan_same_mesh(
            Assembly {
                mesh: with_features(m, plans, features, head, filter),
                known: Map::empty(),
            },
            plans[ids.len() - 1],
            other_plans[ids.len() - 1],
            f.feature.objects@,
            jobs_of(f, filter),
            f.positions@,
            f.shapes@,
        );
    }
}

/// Two tiles that are begun alike and filled with the same features hold the
/// same.
proof fn lemma_same_features_same_contents(
    before: MeshBuilder,
    after: MeshBuilder,
    other_before: MeshBuilder,
    other_after: MeshBuilder,
    features: Seq<TileFeature>,
    ids: Seq<usize>,
    lod_filter: Option<&str>,
    whitelist: Option<&[String]>,
    plans: Seq<FeaturePlan>,
    sets: Seq<Seq<AttributeSet>>,
    other_plans: Seq<FeaturePlan>,
    other_sets: Seq<Seq<AttributeSet>>,
)
    requires
        crate::gltf_writer::writer::same_contents(before, other_before),
        features_added(before, after, features, ids, lod_filter, whitelist, plans, sets),
        features_added(
            other_before,
            other_after,
            features,
            ids,
            lod_filter,
            whitelist,
            other_plans,
            other_sets,
        ),
    ensures
        crate::gltf_writer::writer::same_contents(after, other_after),
{
    lemma_plans_agree(
        features,
        ids,
        lod_filter,
        whitelist,
        plans,
        sets,
        other_plans,
        other_sets,
        ids.len() as int,
    );
    lemma_same_features_same_mesh(
        before.model(),
        plans,
        other_plans,
        features,
        ids,
        crate::gltf_writer::feature::text_or_none(lod_filter),
    );
}

/// Two tiles that are begun alike and filled from cells that differ by a later
/// mention of a feature hold the same and are written as the same file: a
/// feature adds its geometry once. `less` are the cells without the `k`th
/// feature of cell `c`.
pub proof fn law_later_mentions_change_nothing(
    before: MeshBuilder,
    after: MeshBuilder,
    other_before: MeshBuilder,
    other_after: MeshBuilder,
    features: Seq<TileFeature>,
    cells: Seq<Vec<usize>>,
    less: Seq<Vec<usize>>,
    c: int,
    k: int,
    lod_filter: Option<&str>,
    whitelist: Option<&[String]>,
    version: TilesVersion,
    splats: Seq<SplatVertex>,
)
    requires
        0 <= c < cells.len(),
        0 <= k < cells[c]@.len(),
        crate::gltf_writer::feature::all_features(cells.take(c)).contains(cells[c]@[k])
            || cells[c]@.take(k).contains(cells[c]@[k]),
        less.len() == cells.len(),
        less.take(c) == cells.take(c),
        less.skip(c + 1) == cells.skip(c + 1),
        less[c]@ == cells[c]@.remove(k),
        crate::gltf_writer::writer::same_contents(before, other_before),
        after.wf(),
        tile_filled(before, after, features, cells, lod_filter, whitelist),
        tile_filled(other_before, other_after, features, less, lod_filter, whitelist),
    ensures
        crate::gltf_writer::writer::same_contents(after, other_after),
        crate::gltf_writer::writer::tile_outcome(after, version, splats)
            == crate::gltf_writer::writer::tile_outcome(other_after, version, splats),
{
    let ids = crate::gltf_writer::feature::without_repeats(
        crate::gltf_writer::feature::all_features(cells),
    );
    law_later_mentions_do_not_matter(
        cells,
        less,
        c,
        k,
        before.model(),
        Seq::empty(),
        features,
        crate::gltf_writer::feature::text_or_none(lod_filter),
    );
    let (plans, sets) = choose|plans: Seq<FeaturePlan>, sets: Seq<Seq<AttributeSet>>| #[trigger]
        features_added(before, after, features, ids, lod_filter, whitelist, plans, sets);
    let (other_plans, other_sets) = choose|
        plans: Seq<FeaturePlan>,
        sets: Seq<Seq<AttributeSet>>,
    | #[trigger]
        features_added(
            other_before,
            other_after,
            features,
            ids,
            lod_filter,
            whitelist,
            plans,
            sets,
        );
    lemma_same_features_same_contents(
        before,
        after,
        other_before,
        other_after,
        features,
        ids,
        lod_filter,
        whitelist,
        plans,
        sets,
        other_plans,
        other_sets,
    );
    crate::gltf_writer::writer::law_same_contents_make_the_same_file(
        after,
        other_after,
        version,
        splats,
    );
}

} // verus!

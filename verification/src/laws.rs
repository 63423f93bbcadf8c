//! Global properties of the classifier and the assembled model,
//! proved from the specifications the executable functions are held
//! to.

use vstd::prelude::*;

verus! {

use crate::assemble::BuildStV;
use crate::assemble::first_name_index;
use crate::assemble::spec_add_type;
use crate::assemble::spec_build_categories;
use crate::assemble::spec_cat_add;
use crate::assemble::spec_kinds_fold;
use crate::assemble::spec_make_type;
use crate::assemble::spec_merge_et;
use crate::assemble::spec_project;
use crate::assemble::spec_rec_step;
use crate::assemble::spec_recs_fold;
use crate::assemble::spec_rows;
use crate::assemble::spec_rows_fold;
use crate::assemble::lemma_sort_storeys_sorted;
use crate::ifc::spec_assign_step;
use crate::model::CategoryV;
use crate::model::alist_get;
use crate::value::RecordV;
use crate::value::spec_ref_at;

/// No type record is claimed twice: every type entry's record id
/// appears at exactly one position over all categories.
pub open spec fn types_partitioned(cats: Seq<CategoryV>) -> bool {
    forall|ci: int, ti: int, cj: int, tj: int|
        0 <= ci < cats.len() && 0 <= ti < cats[ci].types.len() && 0 <= cj < cats.len() && 0 <= tj
            < cats[cj].types.len() && (ci != cj || ti != tj) ==> (#[trigger] cats[ci].types[ti]).id
            != (#[trigger] cats[cj].types[tj]).id
}

/// Within one category, display names are unique: same-named records
/// were merged into one entry.
pub open spec fn names_deduped(cats: Seq<CategoryV>) -> bool {
    forall|ci: int, ti: int, tj: int|
        0 <= ci < cats.len() && 0 <= ti < cats[ci].types.len() && 0 <= tj < cats[ci].types.len()
            && ti != tj ==> (#[trigger] cats[ci].types[ti]).name != (
        #[trigger] cats[ci].types[tj]).name
}

/// Every type entry's id stands in the claimed set.
pub open spec fn cats_claimed(st: BuildStV) -> bool {
    forall|ci: int, ti: int|
        0 <= ci < st.cats.len() && 0 <= ti < st.cats[ci].types.len() ==> st.claimed.contains(
            (#[trigger] st.cats[ci].types[ti]).id,
        )
}

pub open spec fn build_inv(st: BuildStV) -> bool {
    &&& cats_claimed(st)
    &&& types_partitioned(st.cats)
    &&& names_deduped(st.cats)
}

proof fn lemma_add_type_inv(
    st: BuildStV,
    label: Seq<char>,
    is_priority: bool,
    et: crate::model::ElementTypeV,
    id: u64,
)
    requires
        build_inv(st),
        et.id == id,
        !st.claimed.contains(id),
    ensures
        build_inv(
            BuildStV {
                claimed: st.claimed.push(id),
                cats: spec_add_type(st.cats, label, is_priority, et),
            },
        ),
{
    let claimed2 = st.claimed.push(id);
    let cats2 = spec_add_type(st.cats, label, is_priority, et);
    assert forall|x: u64| st.claimed.contains(x) implies claimed2.contains(x) by {
        let w = choose|w: int| 0 <= w < st.claimed.len() && st.claimed[w] == x;
        assert(claimed2[w] == x);
    }
    assert(claimed2.contains(id)) by {
        assert(claimed2[st.claimed.len() as int] == id);
    }
    crate::assemble::lemma_first_label_index_bounds(st.cats, label);
    match crate::assemble::first_label_index(st.cats, label) {
        Some(ci) => {
            let oldcat = st.cats[ci];
            let newcat = spec_cat_add(oldcat, et);
            crate::assemble::lemma_first_name_index_bounds(oldcat.types, et.name);
            match first_name_index(oldcat.types, et.name) {
                Some(ti) => {
                    assert(newcat.types == oldcat.types.update(
                        ti,
                        spec_merge_et(oldcat.types[ti], et),
                    ));
                    assert(newcat.types[ti].id == oldcat.types[ti].id);
                    assert(newcat.types[ti].name == oldcat.types[ti].name);
                    assert(forall|t: int|
                        0 <= t < newcat.types.len() && t != ti ==> newcat.types[t]
                            == oldcat.types[t]);
                    assert(forall|t: int|
                        0 <= t < newcat.types.len() ==> (#[trigger] newcat.types[t]).id
                            == oldcat.types[t].id && newcat.types[t].name
                            == oldcat.types[t].name);
                    assert(forall|c: int|
                        0 <= c < cats2.len() && c != ci ==> cats2[c] == st.cats[c]);
                    assert(cats_claimed(BuildStV { claimed: claimed2, cats: cats2 }));
                    assert(types_partitioned(cats2));
                    assert(names_deduped(cats2));
                },
                None => {
                    crate::assemble::lemma_first_name_index_all(oldcat.types, et.name);
                    assert(newcat.types == oldcat.types.push(et));
                    assert(forall|t: int|
                        0 <= t < oldcat.types.len() ==> newcat.types[t] == oldcat.types[t]);
                    assert(newcat.types[oldcat.types.len() as int] == et);
                    assert(forall|c: int|
                        0 <= c < cats2.len() && c != ci ==> cats2[c] == st.cats[c]);
                    // the new entry's id is fresh: it was not yet claimed
                    assert(forall|cj: int, tj: int|
                        0 <= cj < st.cats.len() && 0 <= tj < st.cats[cj].types.len()
                            ==> (#[trigger] st.cats[cj].types[tj]).id != id);
                    assert(types_partitioned(cats2));
                    assert(names_deduped(cats2));
                    assert(cats_claimed(BuildStV { claimed: claimed2, cats: cats2 }));
                },
            }
        },
        None => {
            let newcat = spec_cat_add(
                CategoryV {
                    name: label,
                    is_priority,
                    types: Seq::<crate::model::ElementTypeV>::empty(),
                    total_count: 0,
                },
                et,
            );
            assert(newcat.types =~= seq![et]);
            assert(cats2 == st.cats.push(newcat));
            assert(forall|c: int| 0 <= c < st.cats.len() ==> cats2[c] == st.cats[c]);
            assert(cats2[st.cats.len() as int] == newcat);
            assert(forall|cj: int, tj: int|
                0 <= cj < st.cats.len() && 0 <= tj < st.cats[cj].types.len()
                    ==> (#[trigger] st.cats[cj].types[tj]).id != id);
            assert(types_partitioned(cats2));
            assert(names_deduped(cats2));
            assert(cats_claimed(BuildStV { claimed: claimed2, cats: cats2 }));
        },
    }
}

proof fn lemma_rec_step_inv(
    rs: Seq<RecordV>,
    t2i: Seq<(u64, Seq<u64>)>,
    props: Seq<(u64, Seq<(Seq<char>, Seq<char>)>)>,
    st: BuildStV,
    label: Seq<char>,
    is_priority: bool,
    kind: Seq<char>,
    rec: RecordV,
)
    requires
        build_inv(st),
    ensures
        build_inv(spec_rec_step(rs, t2i, props, st, label, is_priority, kind, rec)),
{
    if !st.claimed.contains(rec.id) {
        let et = spec_make_type(rs, t2i, props, rec, kind, label);
        lemma_add_type_inv(st, label, is_priority, et, rec.id);
    }
}

proof fn lemma_recs_fold_inv(
    rs: Seq<RecordV>,
    t2i: Seq<(u64, Seq<u64>)>,
    props: Seq<(u64, Seq<(Seq<char>, Seq<char>)>)>,
    st: BuildStV,
    label: Seq<char>,
    is_priority: bool,
    kind: Seq<char>,
    recs: Seq<RecordV>,
)
    requires
        build_inv(st),
    ensures
        build_inv(spec_recs_fold(rs, t2i, props, st, label, is_priority, kind, recs)),
    decreases recs.len(),
{
    if recs.len() > 0 {
        lemma_recs_fold_inv(rs, t2i, props, st, label, is_priority, kind, recs.drop_last());
        lemma_rec_step_inv(
            rs,
            t2i,
            props,
            spec_recs_fold(rs, t2i, props, st, label, is_priority, kind, recs.drop_last()),
            label,
            is_priority,
            kind,
            recs.last(),
        );
    }
}

proof fn lemma_kinds_fold_inv(
    rs: Seq<RecordV>,
    t2i: Seq<(u64, Seq<u64>)>,
    props: Seq<(u64, Seq<(Seq<char>, Seq<char>)>)>,
    st: BuildStV,
    label: Seq<char>,
    is_priority: bool,
    kinds: Seq<Seq<char>>,
)
    requires
        build_inv(st),
    ensures
        build_inv(spec_kinds_fold(rs, t2i, props, st, label, is_priority, kinds)),
    decreases kinds.len(),
{
    if kinds.len() > 0 {
        lemma_kinds_fold_inv(rs, t2i, props, st, label, is_priority, kinds.drop_last());
        lemma_recs_fold_inv(
            rs,
            t2i,
            props,
            spec_kinds_fold(rs, t2i, props, st, label, is_priority, kinds.drop_last()),
            label,
            is_priority,
            kinds.last(),
            crate::step::spec_by_kind(rs, kinds.last()),
        );
    }
}

proof fn lemma_rows_fold_inv(
    rs: Seq<RecordV>,
    t2i: Seq<(u64, Seq<u64>)>,
    props: Seq<(u64, Seq<(Seq<char>, Seq<char>)>)>,
    st: BuildStV,
    rows: Seq<crate::assemble::RowV>,
)
    requires
        build_inv(st),
    ensures
        build_inv(spec_rows_fold(rs, t2i, props, st, rows)),
    decreases rows.len(),
{
    if rows.len() > 0 {
        lemma_rows_fold_inv(rs, t2i, props, st, rows.drop_last());
        lemma_kinds_fold_inv(
            rs,
            t2i,
            props,
            spec_rows_fold(rs, t2i, props, st, rows.drop_last()),
            rows.last().label,
            rows.last().is_priority,
            rows.last().kinds,
        );
    }
}

/// Partition law: classification claims each type record at most once,
/// so a record id stands at exactly one position over all category
/// type lists, and same-named records in one category were merged into
/// a single entry.
pub proof fn lemma_classification_partitions(
    rs: Seq<RecordV>,
    t2i: Seq<(u64, Seq<u64>)>,
    props: Seq<(u64, Seq<(Seq<char>, Seq<char>)>)>,
)
    ensures
        types_partitioned(spec_build_categories(rs, t2i, props)),
        names_deduped(spec_build_categories(rs, t2i, props)),
{
    let init = BuildStV {
        claimed: Seq::<u64>::empty(),
        cats: Seq::<CategoryV>::empty(),
    };
    assert(build_inv(init));
    lemma_rows_fold_inv(rs, t2i, props, init, spec_rows());
}

/// Determinism: the assembled project is a function of the source text
/// and the recorded path alone; equal inputs give the identical model.
pub proof fn lemma_parse_deterministic(
    a: Seq<char>,
    b: Seq<char>,
    pa: Seq<char>,
    pb: Seq<char>,
)
    requires
        a == b,
        pa == pb,
    ensures
        spec_project(a, pa) == spec_project(b, pb),
{
}

/// Dedup law: adding a type whose display name a category already
/// holds merges it into that entry: the entry count stays one, the
/// instance-id sequences concatenate in processing order without
/// reordering or deduplication, and the merged count is the sum of the
/// two sequences' lengths.
pub proof fn lemma_dedup_merge(cat: CategoryV, et: crate::model::ElementTypeV)
    requires
        first_name_index(cat.types, et.name) is Some,
    ensures
        ({
            let ti = first_name_index(cat.types, et.name)->0;
            let merged = spec_cat_add(cat, et).types[ti];
            &&& spec_cat_add(cat, et).types.len() == cat.types.len()
            &&& merged.instance_ids == cat.types[ti].instance_ids + et.instance_ids
            &&& merged.instance_count == cat.types[ti].instance_ids.len()
                + et.instance_ids.len()
            &&& merged.name == cat.types[ti].name
        }),
{
    crate::assemble::lemma_first_name_index_bounds(cat.types, et.name);
}

/// Elevation ordering: the assembled project's storeys are ordered by
/// descending elevation.
pub proof fn lemma_project_storeys_ordered(content: Seq<char>, file_path: Seq<char>)
    ensures
        forall|i: int, j: int|
            0 <= i < j < spec_project(content, file_path).storeys.len() ==> (
            #[trigger] spec_project(content, file_path).storeys[i]).elevation >= (
            #[trigger] spec_project(content, file_path).storeys[j]).elevation,
{
    let rs = crate::step::spec_parse_file(content).records;
    let counted = crate::assemble::spec_storeys_counted(
        crate::assemble::spec_storeys(rs),
        crate::ifc::spec_containment(rs),
    );
    lemma_sort_storeys_sorted(counted);
}

/// Reference robustness: a property-assignment record whose set
/// reference resolves to no property set contributes nothing to the
/// instance-property map.
pub proof fn lemma_dangling_pset_ignored(
    psets: Seq<(u64, Seq<(Seq<char>, Seq<char>)>)>,
    ep: Seq<(u64, Seq<(Seq<char>, Seq<char>)>)>,
    rel: RecordV,
)
    requires
        spec_ref_at(rel, 5) matches Some(pid) ==> alist_get(psets, pid) is None,
    ensures
        spec_assign_step(psets, ep, rel) == ep,
{
}

/// Within one category: record ids and display names pairwise
/// distinct.
pub open spec fn cat_entries_ok(c: CategoryV) -> bool {
    forall|i: int, j: int|
        0 <= i < j < c.types.len() ==> (#[trigger] c.types[i]).id != (#[trigger] c.types[j]).id
            && c.types[i].name != c.types[j].name
}

/// Two categories share no type record id.
pub open spec fn cats_disjoint(a: CategoryV, b: CategoryV) -> bool {
    forall|i: int, j: int|
        0 <= i < a.types.len() && 0 <= j < b.types.len() ==> (#[trigger] a.types[i]).id != (
        #[trigger] b.types[j]).id
}

/// The catalog invariant: every category internally deduplicated, and
/// categories pairwise disjoint in record ids.
pub open spec fn catalog_ok(cats: Seq<CategoryV>) -> bool {
    &&& forall|k: int| 0 <= k < cats.len() ==> cat_entries_ok(#[trigger] cats[k])
    &&& forall|k1: int, k2: int|
        0 <= k1 < k2 < cats.len() ==> cats_disjoint(#[trigger] cats[k1], #[trigger] cats[k2])
}

/// The catalog invariant is the partition and dedup laws together.
pub proof fn lemma_catalog_ok_iff(cats: Seq<CategoryV>)
    ensures
        catalog_ok(cats) <==> (types_partitioned(cats) && names_deduped(cats)),
{
    if catalog_ok(cats) {
        assert forall|ci: int, ti: int, cj: int, tj: int|
            0 <= ci < cats.len() && 0 <= ti < cats[ci].types.len() && 0 <= cj < cats.len() && 0
                <= tj < cats[cj].types.len() && (ci != cj || ti != tj) implies (
        #[trigger] cats[ci].types[ti]).id != (#[trigger] cats[cj].types[tj]).id by {
            if ci == cj {
                assert(cat_entries_ok(cats[ci]));
                if ti < tj {
                    assert(cats[ci].types[ti].id != cats[ci].types[tj].id);
                } else {
                    assert(cats[ci].types[tj].id != cats[ci].types[ti].id);
                }
            } else if ci < cj {
                assert(cats_disjoint(cats[ci], cats[cj]));
            } else {
                assert(cats_disjoint(cats[cj], cats[ci]));
            }
        }
        assert forall|ci: int, ti: int, tj: int|
            0 <= ci < cats.len() && 0 <= ti < cats[ci].types.len() && 0 <= tj
                < cats[ci].types.len() && ti != tj implies (#[trigger] cats[ci].types[ti]).name
            != (#[trigger] cats[ci].types[tj]).name by {
            assert(cat_entries_ok(cats[ci]));
            if ti < tj {
                assert(cats[ci].types[ti].name != cats[ci].types[tj].name);
            } else {
                assert(cats[ci].types[tj].name != cats[ci].types[ti].name);
            }
        }
    }
    if types_partitioned(cats) && names_deduped(cats) {
        assert forall|k: int| 0 <= k < cats.len() implies cat_entries_ok(#[trigger] cats[k]) by {
            assert forall|i: int, j: int|
                0 <= i < j < cats[k].types.len() implies (#[trigger] cats[k].types[i]).id != (
            #[trigger] cats[k].types[j]).id && cats[k].types[i].name
                != cats[k].types[j].name by {
                assert(cats[k].types[i].id != cats[k].types[j].id);
                assert(cats[k].types[i].name != cats[k].types[j].name);
            }
        }
        assert forall|k1: int, k2: int|
            0 <= k1 < k2 < cats.len() implies cats_disjoint(
            #[trigger] cats[k1],
            #[trigger] cats[k2],
        ) by {
            assert forall|i: int, j: int|
                0 <= i < cats[k1].types.len() && 0 <= j < cats[k2].types.len() implies (
            #[trigger] cats[k1].types[i]).id != (#[trigger] cats[k2].types[j]).id by {
                assert(cats[k1].types[i].id != cats[k2].types[j].id);
            }
        }
    }
}

/// The position at which sorted insertion places a category.
pub open spec fn insert_cat_pos(x: CategoryV, l: Seq<CategoryV>) -> int
    decreases l.len(),
{
    if l.len() == 0 {
        0
    } else if crate::assemble::cat_lt(x, l[0]) {
        0
    } else {
        1 + insert_cat_pos(x, l.skip(1))
    }
}

proof fn lemma_insert_cat_pos_props(x: CategoryV, l: Seq<CategoryV>)
    ensures
        0 <= insert_cat_pos(x, l) <= l.len(),
        forall|t: int|
            0 <= t < insert_cat_pos(x, l) ==> !crate::assemble::cat_lt(x, #[trigger] l[t]),
        insert_cat_pos(x, l) < l.len() ==> crate::assemble::cat_lt(
            x,
            l[insert_cat_pos(x, l)],
        ),
    decreases l.len(),
{
    if l.len() > 0 && !crate::assemble::cat_lt(x, l[0]) {
        lemma_insert_cat_pos_props(x, l.skip(1));
        let p = insert_cat_pos(x, l);
        assert forall|t: int| 0 <= t < p implies !crate::assemble::cat_lt(
            x,
            #[trigger] l[t],
        ) by {
            if t > 0 {
                assert(l.skip(1)[t - 1] == l[t]);
                assert(!crate::assemble::cat_lt(x, l.skip(1)[t - 1]));
            }
        }
        if p < l.len() {
            assert(l.skip(1)[p - 1] == l[p]);
        }
    }
}

/// Sorted insertion keeps the catalog invariant when the inserted
/// category is internally deduplicated and disjoint from the run.
proof fn lemma_insert_cat_ok(x: CategoryV, l: Seq<CategoryV>)
    requires
        catalog_ok(l),
        cat_entries_ok(x),
        forall|k: int| 0 <= k < l.len() ==> cats_disjoint(x, #[trigger] l[k]),
    ensures
        catalog_ok(crate::assemble::spec_insert_cat(x, l)),
        forall|k: int|
            0 <= k < crate::assemble::spec_insert_cat(x, l).len() ==> (
            #[trigger] crate::assemble::spec_insert_cat(x, l)[k]) == x || l.contains(
                crate::assemble::spec_insert_cat(x, l)[k],
            ),
{
    lemma_insert_cat_pos_props(x, l);
    let p = insert_cat_pos(x, l);
    crate::assemble::lemma_insert_cat_at(x, l, p);
    let r = crate::assemble::spec_insert_cat(x, l);
    assert(r == l.take(p) + seq![x] + l.skip(p));
    assert(r.len() == l.len() + 1);
    assert forall|k: int| 0 <= k < r.len() implies (#[trigger] r[k]) == x || l.contains(
        r[k],
    ) by {
        if k < p {
            assert(r[k] == l[k]);
            assert(l.contains(l[k]));
        } else if k == p {
            assert(r[k] == x);
        } else {
            assert(r[k] == l[k - 1]);
            assert(l.contains(l[k - 1]));
        }
    }
    assert forall|k: int| 0 <= k < r.len() implies cat_entries_ok(#[trigger] r[k]) by {
        if k < p {
            assert(r[k] == l[k]);
        } else if k > p {
            assert(r[k] == l[k - 1]);
        }
    }
    assert forall|k1: int, k2: int| 0 <= k1 < k2 < r.len() implies cats_disjoint(
        #[trigger] r[k1],
        #[trigger] r[k2],
    ) by {
        let a = if k1 < p {
            l[k1]
        } else if k1 == p {
            x
        } else {
            l[k1 - 1]
        };
        let b = if k2 < p {
            l[k2]
        } else if k2 == p {
            x
        } else {
            l[k2 - 1]
        };
        assert(r[k1] == a && r[k2] == b);
        if k1 == p {
            assert(cats_disjoint(x, l[k2 - 1]));
        } else if k2 == p {
            lemma_cats_disjoint_sym(x, l[k1]);
        } else {
            let w1 = if k1 < p {
                k1
            } else {
                k1 - 1
            };
            let w2 = if k2 < p {
                k2
            } else {
                k2 - 1
            };
            if w1 < w2 {
                assert(cats_disjoint(l[w1], l[w2]));
            } else if w2 < w1 {
                lemma_cats_disjoint_sym(l[w2], l[w1]);
            } else {
                assert(false);
            }
        }
    }
}

/// Record-id disjointness is symmetric.
proof fn lemma_cats_disjoint_sym(a: CategoryV, b: CategoryV)
    requires
        cats_disjoint(a, b),
    ensures
        cats_disjoint(b, a),
{
    assert forall|i: int, j: int|
        0 <= i < b.types.len() && 0 <= j < a.types.len() implies (#[trigger] b.types[i]).id
        != (#[trigger] a.types[j]).id by {
        assert(a.types[j].id != b.types[i].id);
    }
}

/// Ordering the categories keeps the catalog invariant.
proof fn lemma_sort_cats_ok(l: Seq<CategoryV>)
    requires
        catalog_ok(l),
    ensures
        catalog_ok(crate::assemble::spec_sort_cats(l)),
        forall|k: int|
            0 <= k < crate::assemble::spec_sort_cats(l).len() ==> l.contains(
                #[trigger] crate::assemble::spec_sort_cats(l)[k],
            ),
    decreases l.len(),
{
    if l.len() > 0 {
        let dl = l.drop_last();
        let x = l.last();
        assert(catalog_ok(dl)) by {
            assert(forall|k: int| 0 <= k < dl.len() ==> dl[k] == l[k]);
            assert forall|k: int| 0 <= k < dl.len() implies cat_entries_ok(
                #[trigger] dl[k],
            ) by {
                assert(cat_entries_ok(l[k]));
            }
            assert forall|k1: int, k2: int| 0 <= k1 < k2 < dl.len() implies cats_disjoint(
                #[trigger] dl[k1],
                #[trigger] dl[k2],
            ) by {
                assert(cats_disjoint(l[k1], l[k2]));
            }
        }
        lemma_sort_cats_ok(dl);
        let sd = crate::assemble::spec_sort_cats(dl);
        assert(cat_entries_ok(x)) by {
            assert(cat_entries_ok(l[l.len() - 1]));
        }
        assert forall|k: int| 0 <= k < sd.len() implies cats_disjoint(x, #[trigger] sd[k]) by {
            assert(dl.contains(sd[k]));
            let w = choose|w: int| 0 <= w < dl.len() && dl[w] == sd[k];
            assert(l[w] == sd[k]);
            assert(cats_disjoint(l[w], l[l.len() - 1]));
            lemma_cats_disjoint_sym(l[w], x);
        }
        lemma_insert_cat_ok(x, sd);
        assert forall|k: int|
            0 <= k < crate::assemble::spec_sort_cats(l).len() implies l.contains(
            #[trigger] crate::assemble::spec_sort_cats(l)[k],
        ) by {
            let e = crate::assemble::spec_sort_cats(l)[k];
            if e == x {
                assert(l[l.len() - 1] == x);
            } else {
                assert(sd.contains(e));
                let w = choose|w: int| 0 <= w < sd.len() && sd[w] == e;
                assert(dl.contains(e));
                let w2 = choose|w2: int| 0 <= w2 < dl.len() && dl[w2] == e;
                assert(l[w2] == e);
            }
        }
    }
}

/// Pairwise-distinct record ids and display names in a type run.
pub open spec fn entries_distinct(ts: Seq<crate::model::ElementTypeV>) -> bool {
    forall|i: int, j: int|
        0 <= i < j < ts.len() ==> (#[trigger] ts[i]).id != (#[trigger] ts[j]).id && ts[i].name
            != ts[j].name
}

/// The position at which sorted insertion places a type.
pub open spec fn insert_type_pos(x: crate::model::ElementTypeV, l: Seq<crate::model::ElementTypeV>) -> int
    decreases l.len(),
{
    if l.len() == 0 {
        0
    } else if crate::assemble::type_lt(x, l[0]) {
        0
    } else {
        1 + insert_type_pos(x, l.skip(1))
    }
}

proof fn lemma_insert_type_pos_props(x: crate::model::ElementTypeV, l: Seq<crate::model::ElementTypeV>)
    ensures
        0 <= insert_type_pos(x, l) <= l.len(),
        forall|t: int|
            0 <= t < insert_type_pos(x, l) ==> !crate::assemble::type_lt(x, #[trigger] l[t]),
        insert_type_pos(x, l) < l.len() ==> crate::assemble::type_lt(
            x,
            l[insert_type_pos(x, l)],
        ),
    decreases l.len(),
{
    if l.len() > 0 && !crate::assemble::type_lt(x, l[0]) {
        lemma_insert_type_pos_props(x, l.skip(1));
        let p = insert_type_pos(x, l);
        assert forall|t: int| 0 <= t < p implies !crate::assemble::type_lt(
            x,
            #[trigger] l[t],
        ) by {
            if t > 0 {
                assert(l.skip(1)[t - 1] == l[t]);
                assert(!crate::assemble::type_lt(x, l.skip(1)[t - 1]));
            }
        }
        if p < l.len() {
            assert(l.skip(1)[p - 1] == l[p]);
        }
    }
}

proof fn lemma_insert_type_ok(x: crate::model::ElementTypeV, l: Seq<crate::model::ElementTypeV>)
    requires
        entries_distinct(l),
        forall|k: int|
            0 <= k < l.len() ==> x.id != (#[trigger] l[k]).id && x.name != l[k].name,
    ensures
        entries_distinct(crate::assemble::spec_insert_type(x, l)),
        forall|k: int|
            0 <= k < crate::assemble::spec_insert_type(x, l).len() ==> (
            #[trigger] crate::assemble::spec_insert_type(x, l)[k]) == x || l.contains(
                crate::assemble::spec_insert_type(x, l)[k],
            ),
{
    lemma_insert_type_pos_props(x, l);
    let p = insert_type_pos(x, l);
    crate::assemble::lemma_insert_type_at(x, l, p);
    let r = crate::assemble::spec_insert_type(x, l);
    assert(r == l.take(p) + seq![x] + l.skip(p));
    assert(r.len() == l.len() + 1);
    assert forall|k: int| 0 <= k < r.len() implies (#[trigger] r[k]) == x || l.contains(
        r[k],
    ) by {
        if k < p {
            assert(r[k] == l[k]);
            assert(l.contains(l[k]));
        } else if k > p {
            assert(r[k] == l[k - 1]);
            assert(l.contains(l[k - 1]));
        }
    }
    assert forall|k1: int, k2: int| 0 <= k1 < k2 < r.len() implies (#[trigger] r[k1]).id != (
    #[trigger] r[k2]).id && r[k1].name != r[k2].name by {
        if k1 == p {
            assert(r[k2] == l[k2 - 1]);
        } else if k2 == p {
            assert(r[k1] == l[k1]);
        } else {
            let w1 = if k1 < p {
                k1
            } else {
                k1 - 1
            };
            let w2 = if k2 < p {
                k2
            } else {
                k2 - 1
            };
            assert(r[k1] == l[w1] && r[k2] == l[w2]);
            assert(w1 < w2);
            assert(l[w1].id != l[w2].id && l[w1].name != l[w2].name);
        }
    }
}

proof fn lemma_sort_types_ok(l: Seq<crate::model::ElementTypeV>)
    requires
        entries_distinct(l),
    ensures
        entries_distinct(crate::assemble::spec_sort_types(l)),
        forall|k: int|
            0 <= k < crate::assemble::spec_sort_types(l).len() ==> l.contains(
                #[trigger] crate::assemble::spec_sort_types(l)[k],
            ),
        crate::assemble::spec_sort_types(l).len() == l.len(),
    decreases l.len(),
{
    if l.len() > 0 {
        let dl = l.drop_last();
        let x = l.last();
        assert(entries_distinct(dl)) by {
            assert(forall|k: int| 0 <= k < dl.len() ==> dl[k] == l[k]);
            assert forall|i: int, j: int| 0 <= i < j < dl.len() implies (#[trigger] dl[i]).id
                != (#[trigger] dl[j]).id && dl[i].name != dl[j].name by {
                assert(l[i].id != l[j].id && l[i].name != l[j].name);
            }
        }
        lemma_sort_types_ok(dl);
        let sd = crate::assemble::spec_sort_types(dl);
        assert forall|k: int|
            0 <= k < sd.len() implies x.id != (#[trigger] sd[k]).id && x.name
            != sd[k].name by {
            assert(dl.contains(sd[k]));
            let w = choose|w: int| 0 <= w < dl.len() && dl[w] == sd[k];
            assert(l[w] == sd[k]);
            assert(l[w].id != l[l.len() - 1].id && l[w].name != l[l.len() - 1].name);
        }
        lemma_insert_type_ok(x, sd);
        lemma_insert_type_pos_props(x, sd);
        crate::assemble::lemma_insert_type_at(x, sd, insert_type_pos(x, sd));
        assert forall|k: int|
            0 <= k < crate::assemble::spec_sort_types(l).len() implies l.contains(
            #[trigger] crate::assemble::spec_sort_types(l)[k],
        ) by {
            let e = crate::assemble::spec_sort_types(l)[k];
            if e == x {
                assert(l[l.len() - 1] == x);
            } else {
                assert(sd.contains(e));
                let w = choose|w: int| 0 <= w < sd.len() && sd[w] == e;
                assert(dl.contains(e));
                let w2 = choose|w2: int| 0 <= w2 < dl.len() && dl[w2] == e;
                assert(l[w2] == e);
            }
        }
    }
}

/// Ordering each category's types keeps the catalog invariant.
proof fn lemma_sort_all_types_ok(cats: Seq<CategoryV>)
    requires
        catalog_ok(cats),
    ensures
        catalog_ok(crate::assemble::spec_sort_all_types(cats)),
{
    let r = crate::assemble::spec_sort_all_types(cats);
    assert(r.len() == cats.len());
    assert forall|k: int| 0 <= k < r.len() implies cat_entries_ok(#[trigger] r[k]) by {
        assert(r[k] == crate::assemble::spec_sort_types_in(cats[k]));
        assert(cat_entries_ok(cats[k]));
        assert(entries_distinct(cats[k].types)) by {
            assert forall|i: int, j: int|
                0 <= i < j < cats[k].types.len() implies (#[trigger] cats[k].types[i]).id != (
            #[trigger] cats[k].types[j]).id && cats[k].types[i].name
                != cats[k].types[j].name by {
                assert(cats[k].types[i].id != cats[k].types[j].id);
            }
        }
        lemma_sort_types_ok(cats[k].types);
        assert forall|i: int, j: int|
            0 <= i < j < r[k].types.len() implies (#[trigger] r[k].types[i]).id != (
        #[trigger] r[k].types[j]).id && r[k].types[i].name != r[k].types[j].name by {
            assert(r[k].types == crate::assemble::spec_sort_types(cats[k].types));
            assert(r[k].types[i].id != r[k].types[j].id && r[k].types[i].name
                != r[k].types[j].name);
        }
    }
    assert forall|k1: int, k2: int| 0 <= k1 < k2 < r.len() implies cats_disjoint(
        #[trigger] r[k1],
        #[trigger] r[k2],
    ) by {
        assert(r[k1] == crate::assemble::spec_sort_types_in(cats[k1]));
        assert(r[k2] == crate::assemble::spec_sort_types_in(cats[k2]));
        assert(entries_distinct(cats[k1].types)) by {
            assert(cat_entries_ok(cats[k1]));
            assert forall|i: int, j: int|
                0 <= i < j < cats[k1].types.len() implies (#[trigger] cats[k1].types[i]).id
                != (#[trigger] cats[k1].types[j]).id && cats[k1].types[i].name
                != cats[k1].types[j].name by {
                assert(cats[k1].types[i].id != cats[k1].types[j].id);
            }
        }
        assert(entries_distinct(cats[k2].types)) by {
            assert(cat_entries_ok(cats[k2]));
            assert forall|i: int, j: int|
                0 <= i < j < cats[k2].types.len() implies (#[trigger] cats[k2].types[i]).id
                != (#[trigger] cats[k2].types[j]).id && cats[k2].types[i].name
                != cats[k2].types[j].name by {
                assert(cats[k2].types[i].id != cats[k2].types[j].id);
            }
        }
        lemma_sort_types_ok(cats[k1].types);
        lemma_sort_types_ok(cats[k2].types);
        assert forall|i: int, j: int|
            0 <= i < r[k1].types.len() && 0 <= j < r[k2].types.len() implies (
        #[trigger] r[k1].types[i]).id != (#[trigger] r[k2].types[j]).id by {
            assert(cats[k1].types.contains(r[k1].types[i]));
            assert(cats[k2].types.contains(r[k2].types[j]));
            let w1 = choose|w1: int|
                0 <= w1 < cats[k1].types.len() && cats[k1].types[w1] == r[k1].types[i];
            let w2 = choose|w2: int|
                0 <= w2 < cats[k2].types.len() && cats[k2].types[w2] == r[k2].types[j];
            assert(cats_disjoint(cats[k1], cats[k2]));
            assert(cats[k1].types[w1].id != cats[k2].types[w2].id);
        }
    }
}

/// Partition law at the assembled project: after classification and
/// ordering, a type record id stands at exactly one position over all
/// category type lists, and display names stay unique per category.
pub proof fn lemma_project_partitioned(content: Seq<char>, file_path: Seq<char>)
    ensures
        types_partitioned(spec_project(content, file_path).categories),
        names_deduped(spec_project(content, file_path).categories),
{
    let rs = crate::step::spec_parse_file(content).records;
    let t2i = crate::ifc::spec_type_instances(rs);
    let props = crate::ifc::spec_element_properties(rs);
    let built = spec_build_categories(rs, t2i, props);
    lemma_classification_partitions(rs, t2i, props);
    lemma_catalog_ok_iff(built);
    lemma_sort_cats_ok(built);
    let sorted = crate::assemble::spec_sort_cats(built);
    lemma_sort_all_types_ok(sorted);
    lemma_catalog_ok_iff(crate::assemble::spec_sort_all_types(sorted));
    assert(spec_project(content, file_path).categories == crate::assemble::spec_sort_all_types(
        sorted,
    ));
}

/// A bound name keeps its position when an entry is appended.
proof fn lemma_prop_index_push(
    ps: Seq<(Seq<char>, Seq<char>)>,
    name: Seq<char>,
    e: (Seq<char>, Seq<char>),
)
    requires
        crate::model::prop_index(ps, name) is Some,
    ensures
        crate::model::prop_index(ps.push(e), name) == crate::model::prop_index(ps, name),
    decreases ps.len(),
{
    if ps.len() > 0 {
        assert(ps.push(e)[0] == ps[0]);
        if ps[0].0 != name {
            lemma_prop_index_push(ps.skip(1), name, e);
            assert(ps.push(e).skip(1) =~= ps.skip(1).push(e));
        }
    }
}

/// First-write-wins property merge: a name already bound keeps its
/// position and its value through a merge, whatever the second table
/// holds.
pub proof fn lemma_property_first_write_wins(
    ps: Seq<(Seq<char>, Seq<char>)>,
    other: Seq<(Seq<char>, Seq<char>)>,
    name: Seq<char>,
)
    requires
        crate::model::prop_index(ps, name) is Some,
    ensures
        ({
            let m = crate::model::prop_merge_absent(ps, other);
            let i = crate::model::prop_index(ps, name)->0;
            &&& crate::model::prop_index(m, name) == crate::model::prop_index(ps, name)
            &&& m[i] == ps[i]
        }),
    decreases other.len(),
{
    crate::model::lemma_prop_index_at_bounds(ps, name);
    if other.len() > 0 {
        lemma_property_first_write_wins(ps, other.drop_last(), name);
        let m0 = crate::model::prop_merge_absent(ps, other.drop_last());
        let i = crate::model::prop_index(ps, name)->0;
        if crate::model::prop_index(m0, other.last().0) is Some {
        } else {
            lemma_prop_index_push(m0, name, (other.last().0, other.last().1));
            assert(m0.push((other.last().0, other.last().1))[i] == m0[i]) by {
                crate::model::lemma_prop_index_at_bounds(m0, name);
            }
        }
    }
}

} // verus!

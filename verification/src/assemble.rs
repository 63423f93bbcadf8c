//! Domain model building: storey extraction, the classification of
//! type records into categories, deterministic ordering, and the final
//! project assembly.

use vstd::prelude::*;
use vstd::string::StringExecFns;

verus! {

broadcast use {vstd::std_specs::vec::group_vec_axioms, vstd::seq::group_seq_axioms};

use crate::ifc::spec_containment;
use crate::ifc::spec_element_properties;
use crate::ifc::spec_instance_gids;
use crate::ifc::spec_type_instances;
use crate::ifc::alist_find_vecs;
use crate::ifc::prop_merge;
use crate::ifc::prop_put;
use crate::ifc::extract_instance_global_ids;
use crate::ifc::extract_property_sets;
use crate::ifc::extract_spatial_containment;
use crate::ifc::extract_type_relationships;
use crate::model::CategoryV;
use crate::model::Category;
use crate::model::ElementTypeV;
use crate::model::ElementType;
use crate::model::IfcProject;
use crate::model::Storey;
use crate::model::StoreyV;
use crate::model::cat_views;
use crate::model::storey_views;
use crate::model::type_views;
use crate::numbers::spec_u64_chars;
use crate::numbers::u64_chars;
use crate::step::StepFile;
use crate::step::spec_by_kind;
use crate::step::spec_parse_file;
use crate::text::chars_of_str;
use crate::text::chars_to_string;
use crate::text::lex_lt;
use crate::text::str_lt;
use crate::value::RecordV;
use crate::value::spec_real_at;
use crate::value::spec_string_at;

/// The storey denoted by one storey record: the name falls back to a
/// synthesized label, the elevation to zero.
pub open spec fn spec_storey_of(rec: RecordV) -> StoreyV {
    StoreyV {
        id: rec.id,
        name: match spec_string_at(rec, 2) {
            Some(s) => s,
            None => "Storey #"@ + spec_u64_chars(rec.id),
        },
        elevation: match spec_real_at(rec, 9) {
            Some(m) => m,
            None => 0i64,
        },
        element_count: 0,
    }
}

/// The storeys denoted by a run of storey records.
pub open spec fn storeys_of_recs(recs: Seq<RecordV>) -> Seq<StoreyV> {
    Seq::new(recs.len(), |i: int| spec_storey_of(recs[i]))
}

/// The storeys of a record table, in table order, before counting.
pub open spec fn spec_storeys(rs: Seq<RecordV>) -> Seq<StoreyV> {
    storeys_of_recs(spec_by_kind(rs, "IFCBUILDINGSTOREY"@))
}

/// Derives the storey list from the storey records.
pub fn extract_storeys(step_file: &StepFile) -> (r: Vec<Storey>)
    ensures
        storey_views(r@) == spec_storeys(step_file@.records),
{
    let recs = step_file.get_entities_by_type("IFCBUILDINGSTOREY");
    let ghost rv = spec_by_kind(step_file@.records, "IFCBUILDINGSTOREY"@);
    let n = recs.len();
    let mut out: Vec<Storey> = Vec::new();
    let mut i: usize = 0;
    proof {
        assert(storey_views(out@) =~= storeys_of_recs(rv.take(0)));
    }
    while i < n
        invariant
            i <= n,
            n == recs@.len(),
            crate::value::entity_ref_views(recs@) == rv,
            storey_views(out@) == storeys_of_recs(rv.take(i as int)),
        decreases n - i,
    {
        proof {
            assert(rv[i as int] == recs@[i as int]@);
        }
        let e = recs[i];
        let name: String = match e.string_at(2) {
            Some(s) => s.clone(),
            None => {
                let mut cs = chars_of_str("Storey #");
                let mut ds = u64_chars(e.id);
                cs.append(&mut ds);
                chars_to_string(&cs)
            },
        };
        let elevation: i64 = match e.real_at(9) {
            Some(m) => m,
            None => 0i64,
        };
        let st = Storey { id: e.id, name, elevation, element_count: 0 };
        let ghost prevout = out@;
        out.push(st);
        proof {
            assert(st@ == spec_storey_of(rv[i as int]));
            assert(storey_views(prevout).len() == storeys_of_recs(rv.take(i as int)).len());
            assert(prevout.len() == i as int);
            assert forall|k: int| 0 <= k < storey_views(out@).len() implies storey_views(out@)[k]
                == storeys_of_recs(rv.take(i + 1))[k] by {
                if k < i {
                    assert(out@[k] == prevout[k]);
                    assert(storey_views(out@)[k] == out@[k]@);
                    assert(storey_views(prevout)[k] == prevout[k]@);
                    assert(storey_views(prevout)[k] == storeys_of_recs(rv.take(i as int))[k]);
                    assert(storeys_of_recs(rv.take(i as int))[k] == spec_storey_of(rv[k]));
                    assert(storeys_of_recs(rv.take(i + 1))[k] == spec_storey_of(rv[k]));
                } else {
                    assert(out@[k] == st);
                    assert(storey_views(out@)[k] == st@);
                    assert(storeys_of_recs(rv.take(i + 1))[k] == spec_storey_of(rv[i as int]));
                }
            }
            assert(storey_views(out@).len() == storeys_of_recs(rv.take(i + 1)).len());
            assert(storey_views(out@) =~= storeys_of_recs(rv.take(i + 1)));
        }
        i = i + 1;
    }
    proof {
        assert(rv.take(n as int) =~= rv);
    }
    out
}

/// The project name: the third attribute of the first project record,
/// with a fallback.
pub open spec fn spec_project_name(rs: Seq<RecordV>) -> Seq<char> {
    let ps = spec_by_kind(rs, "IFCPROJECT"@);
    if ps.len() > 0 {
        match spec_string_at(ps[0], 2) {
            Some(s) => s,
            None => "Unknown Project"@,
        }
    } else {
        "Unknown Project"@
    }
}

/// Reads the declared project name.
pub fn extract_project_name(step_file: &StepFile) -> (r: String)
    ensures
        r@ == spec_project_name(step_file@.records),
{
    let ps = step_file.get_entities_by_type("IFCPROJECT");
    if ps.len() > 0 {
        proof {
            assert(crate::value::entity_ref_views(ps@)[0] == ps@[0]@);
        }
        match ps[0].string_at(2) {
            Some(s) => s.clone(),
            None => String::from_str("Unknown Project"),
        }
    } else {
        String::from_str("Unknown Project")
    }
}

/// How many containment entries point at the given storey.
pub open spec fn spec_count_storey(m: Seq<(u64, u64)>, sid: u64) -> int
    decreases m.len(),
{
    if m.len() == 0 {
        0
    } else {
        spec_count_storey(m.drop_last(), sid) + if m.last().1 == sid {
            1int
        } else {
            0int
        }
    }
}

/// A storey with its element count filled in from the containment map.
pub open spec fn spec_storey_counted(s: StoreyV, m: Seq<(u64, u64)>) -> StoreyV {
    StoreyV {
        element_count: spec_count_storey(m, s.id),
        id: s.id,
        name: s.name,
        elevation: s.elevation,
    }
}

/// The storeys with their element counts filled in from the
/// containment map.
pub open spec fn spec_storeys_counted(storeys: Seq<StoreyV>, m: Seq<(u64, u64)>) -> Seq<StoreyV> {
    Seq::new(storeys.len(), |i: int| spec_storey_counted(storeys[i], m))
}

fn count_storey(m: &Vec<(u64, u64)>, sid: u64) -> (r: usize)
    ensures
        r == spec_count_storey(m@, sid),
{
    let n = m.len();
    let mut c: usize = 0;
    let mut i: usize = 0;
    while i < n
        invariant
            i <= n,
            n == m@.len(),
            c == spec_count_storey(m@.take(i as int), sid),
            c <= i,
        decreases n - i,
    {
        proof {
            assert(m@.take(i + 1).drop_last() =~= m@.take(i as int));
            assert(m@.take(i + 1).last() == m@[i as int]);
        }
        if m[i].1 == sid {
            c = c + 1;
        }
        i = i + 1;
    }
    proof {
        assert(m@.take(n as int) =~= m@);
    }
    c
}

/// Fills each storey's element count from the containment map.
fn count_storeys(storeys: Vec<Storey>, m: &Vec<(u64, u64)>) -> (r: Vec<Storey>)
    ensures
        storey_views(r@) == spec_storeys_counted(storey_views(storeys@), m@),
{
    let ghost sv = storey_views(storeys@);
    let n = storeys.len();
    let mut out: Vec<Storey> = Vec::new();
    let mut i: usize = 0;
    while i < n
        invariant
            i <= n,
            n == storeys@.len(),
            sv == storey_views(storeys@),
            storey_views(out@) == spec_storeys_counted(sv.take(i as int), m@),
        decreases n - i,
    {
        let c = count_storey(m, storeys[i].id);
        let st = Storey {
            id: storeys[i].id,
            name: storeys[i].name.clone(),
            elevation: storeys[i].elevation,
            element_count: c,
        };
        let ghost prevout = out@;
        out.push(st);
        proof {
            assert(sv[i as int] == storeys@[i as int]@);
            assert(st@ == spec_storey_counted(sv[i as int], m@));
            assert(storey_views(prevout).len() == spec_storeys_counted(sv.take(i as int), m@).len());
            assert(prevout.len() == i as int);
            assert forall|k: int| 0 <= k < storey_views(out@).len() implies storey_views(out@)[k]
                == spec_storeys_counted(sv.take(i + 1), m@)[k] by {
                if k < i {
                    assert(out@[k] == prevout[k]);
                    assert(storey_views(out@)[k] == out@[k]@);
                    assert(storey_views(prevout)[k] == prevout[k]@);
                    assert(storey_views(prevout)[k] == spec_storeys_counted(sv.take(i as int), m@)[k]);
                    assert(spec_storeys_counted(sv.take(i as int), m@)[k] == spec_storey_counted(sv[k], m@));
                    assert(spec_storeys_counted(sv.take(i + 1), m@)[k] == spec_storey_counted(sv[k], m@));
                } else {
                    assert(out@[k] == st);
                    assert(storey_views(out@)[k] == st@);
                    assert(spec_storeys_counted(sv.take(i + 1), m@)[k] == spec_storey_counted(sv[i as int], m@));
                }
            }
            assert(storey_views(out@).len() == spec_storeys_counted(sv.take(i + 1), m@).len());
            assert(storey_views(out@) =~= spec_storeys_counted(sv.take(i + 1), m@));
        }
        i = i + 1;
    }
    proof {
        assert(sv.take(n as int) =~= sv);
    }
    out
}

/// Strict order on storeys: higher elevations first.
pub open spec fn storey_lt(a: StoreyV, b: StoreyV) -> bool {
    a.elevation > b.elevation
}

/// Inserting into a sorted run: the new storey goes before the first
/// strictly lower one, after any with equal elevation.
pub open spec fn spec_insert_storey(x: StoreyV, l: Seq<StoreyV>) -> Seq<StoreyV>
    decreases l.len(),
{
    if l.len() == 0 {
        seq![x]
    } else if storey_lt(x, l[0]) {
        seq![x] + l
    } else {
        seq![l[0]] + spec_insert_storey(x, l.skip(1))
    }
}

/// Storeys ordered by descending elevation, ties kept in input order.
pub open spec fn spec_sort_storeys(l: Seq<StoreyV>) -> Seq<StoreyV>
    decreases l.len(),
{
    if l.len() == 0 {
        Seq::<StoreyV>::empty()
    } else {
        spec_insert_storey(l.last(), spec_sort_storeys(l.drop_last()))
    }
}

proof fn lemma_insert_storey_at(x: StoreyV, l: Seq<StoreyV>, p: int)
    requires
        0 <= p <= l.len(),
        forall|t: int| 0 <= t < p ==> !storey_lt(x, #[trigger] l[t]),
        p < l.len() ==> storey_lt(x, l[p]),
    ensures
        spec_insert_storey(x, l) == l.take(p) + seq![x] + l.skip(p),
    decreases l.len(),
{
    if l.len() == 0 {
        assert(spec_insert_storey(x, l) =~= l.take(p) + seq![x] + l.skip(p));
    } else if p == 0 {
        assert(spec_insert_storey(x, l) =~= l.take(0) + seq![x] + l.skip(0));
    } else {
        lemma_insert_storey_at(x, l.skip(1), p - 1);
        assert(forall|t: int| 0 <= t < p - 1 ==> l.skip(1)[t] == l[t + 1]);
        assert(l.skip(1).take(p - 1) =~= l.take(p).skip(1));
        assert(l.skip(1).skip(p - 1) =~= l.skip(p));
        assert(spec_insert_storey(x, l) =~= l.take(p) + seq![x] + l.skip(p));
    }
}

/// Inserts a storey into a sorted vector, keeping input order among
/// equal elevations.
fn insert_storey(out: &mut Vec<Storey>, st: Storey)
    ensures
        storey_views(final(out)@) == spec_insert_storey(st@, storey_views(old(out)@)),
{
    let ghost l = storey_views(out@);
    let n = out.len();
    let mut p: usize = 0;
    while p < n && !(st.elevation > out[p].elevation)
        invariant
            p <= n,
            n == out@.len(),
            out@ == old(out)@,
            l == storey_views(out@),
            forall|t: int| 0 <= t < p ==> !storey_lt(st@, #[trigger] l[t]),
        decreases n - p,
    {
        proof {
            assert(l[p as int] == out@[p as int]@);
        }
        p = p + 1;
    }
    proof {
        if p < n {
            assert(l[p as int] == out@[p as int]@);
        }
        lemma_insert_storey_at(st@, l, p as int);
    }
    out.insert(p, st);
    proof {
        assert(storey_views(out@) =~= l.take(p as int) + seq![st@] + l.skip(p as int));
    }
}

/// Sorts storeys by descending elevation, stably.
pub fn sort_storeys(storeys: Vec<Storey>) -> (r: Vec<Storey>)
    ensures
        storey_views(r@) == spec_sort_storeys(storey_views(storeys@)),
{
    let ghost sv = storey_views(storeys@);
    let mut input = storeys;
    let mut out: Vec<Storey> = Vec::new();
    let mut i: usize = 0;
    let n = input.len();
    proof {
        assert(storey_views(input@) =~~= sv.skip(0));
        assert(storey_views(out@) =~~= spec_sort_storeys(sv.take(0)));
    }
    while i < n
        invariant
            i <= n,
            n == sv.len(),
            input@.len() == n - i,
            storey_views(input@) == sv.skip(i as int),
            storey_views(out@) == spec_sort_storeys(sv.take(i as int)),
        decreases n - i,
    {
        let ghost prev = input@;
        let st = input.remove(0);
        proof {
            assert(st@ == storey_views(prev)[0]);
            assert(storey_views(prev)[0] == sv.skip(i as int)[0]);
            assert(st@ == sv[i as int]);
            assert forall|k: int| 0 <= k < input@.len() implies storey_views(input@)[k]
                == sv.skip(i + 1)[k] by {
                assert(prev.remove(0)[k] == prev[k + 1]);
                assert(input@[k] == prev[k + 1]);
                assert(storey_views(input@)[k] == input@[k]@);
                assert(storey_views(prev)[k + 1] == prev[k + 1]@);
                assert(storey_views(prev)[k + 1] == sv.skip(i as int)[k + 1]);
                assert(sv.skip(i as int)[k + 1] == sv[i + 1 + k]);
                assert(sv.skip(i + 1)[k] == sv[i + 1 + k]);
            }
            assert(storey_views(input@) =~= sv.skip(i + 1));
            assert(sv.take(i + 1).drop_last() =~= sv.take(i as int));
            assert(sv.take(i + 1).last() == sv[i as int]);
        }
        insert_storey(&mut out, st);
        i = i + 1;
    }
    proof {
        assert(sv.take(n as int) =~= sv);
    }
    out
}

/// The storey order is by descending elevation.
pub proof fn lemma_insert_storey_sorted(x: StoreyV, l: Seq<StoreyV>)
    requires
        forall|i: int, j: int|
            0 <= i < j < l.len() ==> (#[trigger] l[i]).elevation >= (#[trigger] l[j]).elevation,
    ensures
        forall|i: int, j: int|
            0 <= i < j < spec_insert_storey(x, l).len() ==> (#[trigger] spec_insert_storey(x, l)[i]).elevation
                >= (#[trigger] spec_insert_storey(x, l)[j]).elevation,
    decreases l.len(),
{
    if l.len() == 0 {
    } else if storey_lt(x, l[0]) {
        let r = seq![x] + l;
        assert forall|i: int, j: int| 0 <= i < j < r.len() implies (#[trigger] r[i]).elevation
            >= (#[trigger] r[j]).elevation by {
            if i == 0 {
                assert(r[0] == x);
                assert(r[j] == l[j - 1]);
                if j > 1 {
                    assert(l[0].elevation >= l[j - 1].elevation);
                }
            } else {
                assert(r[i] == l[i - 1] && r[j] == l[j - 1]);
            }
        }
    } else {
        assert(forall|i: int, j: int|
            0 <= i < j < l.skip(1).len() ==> (#[trigger] l.skip(1)[i]).elevation
                >= (#[trigger] l.skip(1)[j]).elevation) by {
            assert(forall|t: int| 0 <= t < l.skip(1).len() ==> l.skip(1)[t] == l[t + 1]);
        }
        lemma_insert_storey_sorted(x, l.skip(1));
        let rest = spec_insert_storey(x, l.skip(1));
        let r = seq![l[0]] + rest;
        assert(!storey_lt(x, l[0]));
        assert forall|i: int, j: int| 0 <= i < j < r.len() implies (#[trigger] r[i]).elevation
            >= (#[trigger] r[j]).elevation by {
            if i == 0 {
                assert(r[j] == rest[j - 1]);
                lemma_insert_storey_member(x, l.skip(1), j - 1);
                if rest[j - 1] == x {
                    assert(l[0].elevation >= x.elevation);
                } else {
                    assert(l.skip(1).contains(rest[j - 1]));
                    let w = choose|w: int| 0 <= w < l.skip(1).len() && l.skip(1)[w] == rest[j - 1];
                    assert(l[0].elevation >= l[w + 1].elevation);
                }
            } else {
                assert(r[i] == rest[i - 1] && r[j] == rest[j - 1]);
            }
        }
    }
}

/// Every element of an insertion result is the inserted storey or one
/// of the run's members.
proof fn lemma_insert_storey_member(x: StoreyV, l: Seq<StoreyV>, k: int)
    requires
        0 <= k < spec_insert_storey(x, l).len(),
    ensures
        spec_insert_storey(x, l)[k] == x || l.contains(spec_insert_storey(x, l)[k]),
    decreases l.len(),
{
    if l.len() == 0 {
    } else if storey_lt(x, l[0]) {
        if k > 0 {
            assert(spec_insert_storey(x, l)[k] == l[k - 1]);
        }
    } else {
        if k == 0 {
            assert(l.contains(l[0]));
        } else {
            lemma_insert_storey_member(x, l.skip(1), k - 1);
            let e = spec_insert_storey(x, l.skip(1))[k - 1];
            if e != x {
                let w = choose|w: int| 0 <= w < l.skip(1).len() && l.skip(1)[w] == e;
                assert(l[w + 1] == e);
                assert(l.contains(e));
            }
        }
    }
}

/// Sorting storeys yields a run ordered by descending elevation.
pub proof fn lemma_sort_storeys_sorted(l: Seq<StoreyV>)
    ensures
        forall|i: int, j: int|
            0 <= i < j < spec_sort_storeys(l).len() ==> (#[trigger] spec_sort_storeys(l)[i]).elevation
                >= (#[trigger] spec_sort_storeys(l)[j]).elevation,
    decreases l.len(),
{
    if l.len() > 0 {
        lemma_sort_storeys_sorted(l.drop_last());
        lemma_insert_storey_sorted(l.last(), spec_sort_storeys(l.drop_last()));
    }
}

/// Strict order on element types: alphabetically by name.
pub open spec fn type_lt(a: ElementTypeV, b: ElementTypeV) -> bool {
    lex_lt(a.name, b.name)
}

pub open spec fn spec_insert_type(x: ElementTypeV, l: Seq<ElementTypeV>) -> Seq<ElementTypeV>
    decreases l.len(),
{
    if l.len() == 0 {
        seq![x]
    } else if type_lt(x, l[0]) {
        seq![x] + l
    } else {
        seq![l[0]] + spec_insert_type(x, l.skip(1))
    }
}

/// Element types ordered by name, ties kept in input order.
pub open spec fn spec_sort_types(l: Seq<ElementTypeV>) -> Seq<ElementTypeV>
    decreases l.len(),
{
    if l.len() == 0 {
        Seq::<ElementTypeV>::empty()
    } else {
        spec_insert_type(l.last(), spec_sort_types(l.drop_last()))
    }
}

pub proof fn lemma_insert_type_at(x: ElementTypeV, l: Seq<ElementTypeV>, p: int)
    requires
        0 <= p <= l.len(),
        forall|t: int| 0 <= t < p ==> !type_lt(x, #[trigger] l[t]),
        p < l.len() ==> type_lt(x, l[p]),
    ensures
        spec_insert_type(x, l) == l.take(p) + seq![x] + l.skip(p),
    decreases l.len(),
{
    if l.len() == 0 {
        assert(spec_insert_type(x, l) =~= l.take(p) + seq![x] + l.skip(p));
    } else if p == 0 {
        assert(spec_insert_type(x, l) =~= l.take(0) + seq![x] + l.skip(0));
    } else {
        lemma_insert_type_at(x, l.skip(1), p - 1);
        assert(forall|t: int| 0 <= t < p - 1 ==> l.skip(1)[t] == l[t + 1]);
        assert(l.skip(1).take(p - 1) =~= l.take(p).skip(1));
        assert(l.skip(1).skip(p - 1) =~= l.skip(p));
        assert(spec_insert_type(x, l) =~= l.take(p) + seq![x] + l.skip(p));
    }
}

fn insert_type(out: &mut Vec<ElementType>, et: ElementType)
    ensures
        type_views(final(out)@) == spec_insert_type(et@, type_views(old(out)@)),
{
    let ghost l = type_views(out@);
    let n = out.len();
    let mut p: usize = 0;
    while p < n && !str_lt(et.name.as_str(), out[p].name.as_str())
        invariant
            p <= n,
            n == out@.len(),
            out@ == old(out)@,
            l == type_views(out@),
            forall|t: int| 0 <= t < p ==> !type_lt(et@, #[trigger] l[t]),
        decreases n - p,
    {
        proof {
            assert(l[p as int] == out@[p as int]@);
        }
        p = p + 1;
    }
    proof {
        if p < n {
            assert(l[p as int] == out@[p as int]@);
        }
        lemma_insert_type_at(et@, l, p as int);
    }
    out.insert(p, et);
    proof {
        assert(type_views(out@) =~= l.take(p as int) + seq![et@] + l.skip(p as int));
    }
}

/// Sorts element types by name, stably.
fn sort_types(types: Vec<ElementType>) -> (r: Vec<ElementType>)
    ensures
        type_views(r@) == spec_sort_types(type_views(types@)),
{
    let ghost sv = type_views(types@);
    let mut input = types;
    let mut out: Vec<ElementType> = Vec::new();
    let mut i: usize = 0;
    let n = input.len();
    proof {
        assert(type_views(input@) =~= sv.skip(0));
        assert(type_views(out@) =~= spec_sort_types(sv.take(0)));
    }
    while i < n
        invariant
            i <= n,
            n == sv.len(),
            input@.len() == n - i,
            type_views(input@) == sv.skip(i as int),
            type_views(out@) == spec_sort_types(sv.take(i as int)),
        decreases n - i,
    {
        let ghost prev = input@;
        let et = input.remove(0);
        proof {
            assert(et@ == type_views(prev)[0]);
            assert(type_views(prev)[0] == sv.skip(i as int)[0]);
            assert(et@ == sv[i as int]);
            assert forall|k: int| 0 <= k < input@.len() implies type_views(input@)[k]
                == sv.skip(i + 1)[k] by {
                assert(prev.remove(0)[k] == prev[k + 1]);
                assert(input@[k] == prev[k + 1]);
                assert(type_views(input@)[k] == input@[k]@);
                assert(type_views(prev)[k + 1] == prev[k + 1]@);
                assert(type_views(prev)[k + 1] == sv.skip(i as int)[k + 1]);
                assert(sv.skip(i as int)[k + 1] == sv[i + 1 + k]);
                assert(sv.skip(i + 1)[k] == sv[i + 1 + k]);
            }
            assert(type_views(input@) =~= sv.skip(i + 1));
            assert(sv.take(i + 1).drop_last() =~= sv.take(i as int));
            assert(sv.take(i + 1).last() == sv[i as int]);
        }
        insert_type(&mut out, et);
        i = i + 1;
    }
    proof {
        assert(sv.take(n as int) =~= sv);
    }
    out
}

/// Strict order on categories: priority categories first, then
/// alphabetically by label.
pub open spec fn cat_lt(a: CategoryV, b: CategoryV) -> bool {
    (a.is_priority && !b.is_priority) || (a.is_priority == b.is_priority && lex_lt(a.name, b.name))
}

pub open spec fn spec_insert_cat(x: CategoryV, l: Seq<CategoryV>) -> Seq<CategoryV>
    decreases l.len(),
{
    if l.len() == 0 {
        seq![x]
    } else if cat_lt(x, l[0]) {
        seq![x] + l
    } else {
        seq![l[0]] + spec_insert_cat(x, l.skip(1))
    }
}

/// Categories ordered priority-first then by label, ties kept in input
/// order.
pub open spec fn spec_sort_cats(l: Seq<CategoryV>) -> Seq<CategoryV>
    decreases l.len(),
{
    if l.len() == 0 {
        Seq::<CategoryV>::empty()
    } else {
        spec_insert_cat(l.last(), spec_sort_cats(l.drop_last()))
    }
}

pub proof fn lemma_insert_cat_at(x: CategoryV, l: Seq<CategoryV>, p: int)
    requires
        0 <= p <= l.len(),
        forall|t: int| 0 <= t < p ==> !cat_lt(x, #[trigger] l[t]),
        p < l.len() ==> cat_lt(x, l[p]),
    ensures
        spec_insert_cat(x, l) == l.take(p) + seq![x] + l.skip(p),
    decreases l.len(),
{
    if l.len() == 0 {
        assert(spec_insert_cat(x, l) =~= l.take(p) + seq![x] + l.skip(p));
    } else if p == 0 {
        assert(spec_insert_cat(x, l) =~= l.take(0) + seq![x] + l.skip(0));
    } else {
        lemma_insert_cat_at(x, l.skip(1), p - 1);
        assert(forall|t: int| 0 <= t < p - 1 ==> l.skip(1)[t] == l[t + 1]);
        assert(l.skip(1).take(p - 1) =~= l.take(p).skip(1));
        assert(l.skip(1).skip(p - 1) =~= l.skip(p));
        assert(spec_insert_cat(x, l) =~= l.take(p) + seq![x] + l.skip(p));
    }
}

fn cat_before(a: &Category, b: &Category) -> (r: bool)
    ensures
        r == cat_lt(a@, b@),
{
    if a.is_priority && !b.is_priority {
        true
    } else if a.is_priority == b.is_priority {
        str_lt(a.name.as_str(), b.name.as_str())
    } else {
        false
    }
}

fn insert_cat(out: &mut Vec<Category>, c: Category)
    ensures
        cat_views(final(out)@) == spec_insert_cat(c@, cat_views(old(out)@)),
{
    let ghost l = cat_views(out@);
    let n = out.len();
    let mut p: usize = 0;
    while p < n && !cat_before(&c, &out[p])
        invariant
            p <= n,
            n == out@.len(),
            out@ == old(out)@,
            l == cat_views(out@),
            forall|t: int| 0 <= t < p ==> !cat_lt(c@, #[trigger] l[t]),
        decreases n - p,
    {
        proof {
            assert(l[p as int] == out@[p as int]@);
        }
        p = p + 1;
    }
    proof {
        if p < n {
            assert(l[p as int] == out@[p as int]@);
        }
        lemma_insert_cat_at(c@, l, p as int);
    }
    out.insert(p, c);
    proof {
        assert(cat_views(out@) =~= l.take(p as int) + seq![c@] + l.skip(p as int));
    }
}

/// Sorts categories priority-first then by label, stably.
fn sort_cats(cats: Vec<Category>) -> (r: Vec<Category>)
    ensures
        cat_views(r@) == spec_sort_cats(cat_views(cats@)),
{
    let ghost sv = cat_views(cats@);
    let mut input = cats;
    let mut out: Vec<Category> = Vec::new();
    let mut i: usize = 0;
    let n = input.len();
    proof {
        assert(cat_views(input@) =~= sv.skip(0));
        assert(cat_views(out@) =~= spec_sort_cats(sv.take(0)));
    }
    while i < n
        invariant
            i <= n,
            n == sv.len(),
            input@.len() == n - i,
            cat_views(input@) == sv.skip(i as int),
            cat_views(out@) == spec_sort_cats(sv.take(i as int)),
        decreases n - i,
    {
        let ghost prev = input@;
        let c = input.remove(0);
        proof {
            assert(c@ == cat_views(prev)[0]);
            assert(cat_views(prev)[0] == sv.skip(i as int)[0]);
            assert(c@ == sv[i as int]);
            assert forall|k: int| 0 <= k < input@.len() implies cat_views(input@)[k]
                == sv.skip(i + 1)[k] by {
                assert(prev.remove(0)[k] == prev[k + 1]);
                assert(input@[k] == prev[k + 1]);
                assert(cat_views(input@)[k] == input@[k]@);
                assert(cat_views(prev)[k + 1] == prev[k + 1]@);
                assert(cat_views(prev)[k + 1] == sv.skip(i as int)[k + 1]);
                assert(sv.skip(i as int)[k + 1] == sv[i + 1 + k]);
                assert(sv.skip(i + 1)[k] == sv[i + 1 + k]);
            }
            assert(cat_views(input@) =~= sv.skip(i + 1));
            assert(sv.take(i + 1).drop_last() =~= sv.take(i as int));
            assert(sv.take(i + 1).last() == sv[i as int]);
        }
        insert_cat(&mut out, c);
        i = i + 1;
    }
    proof {
        assert(sv.take(n as int) =~= sv);
    }
    out
}

/// Each category with its types ordered by name.
pub open spec fn spec_sort_types_in(cat: CategoryV) -> CategoryV {
    CategoryV {
        types: spec_sort_types(cat.types),
        name: cat.name,
        is_priority: cat.is_priority,
        total_count: cat.total_count,
    }
}

pub open spec fn spec_sort_all_types(cats: Seq<CategoryV>) -> Seq<CategoryV> {
    Seq::new(cats.len(), |i: int| spec_sort_types_in(cats[i]))
}

/// Sorts the types of every category by name.
fn sort_all_types(cats: Vec<Category>) -> (r: Vec<Category>)
    ensures
        cat_views(r@) == spec_sort_all_types(cat_views(cats@)),
{
    let ghost sv = cat_views(cats@);
    let mut input = cats;
    let mut out: Vec<Category> = Vec::new();
    let mut i: usize = 0;
    let n = input.len();
    proof {
        assert(cat_views(input@) =~= sv.skip(0));
    }
    while i < n
        invariant
            i <= n,
            n == sv.len(),
            input@.len() == n - i,
            cat_views(input@) == sv.skip(i as int),
            out@.len() == i,
            forall|k: int|
                0 <= k < i ==> #[trigger] cat_views(out@)[k] == spec_sort_types_in(sv[k]),
        decreases n - i,
    {
        let ghost prev = input@;
        let c = input.remove(0);
        proof {
            assert(c@ == cat_views(prev)[0]);
            assert(cat_views(prev)[0] == sv.skip(i as int)[0]);
            assert(c@ == sv[i as int]);
            assert forall|k: int| 0 <= k < input@.len() implies cat_views(input@)[k]
                == sv.skip(i + 1)[k] by {
                assert(prev.remove(0)[k] == prev[k + 1]);
                assert(input@[k] == prev[k + 1]);
                assert(cat_views(input@)[k] == input@[k]@);
                assert(cat_views(prev)[k + 1] == prev[k + 1]@);
                assert(cat_views(prev)[k + 1] == sv.skip(i as int)[k + 1]);
                assert(sv.skip(i as int)[k + 1] == sv[i + 1 + k]);
                assert(sv.skip(i + 1)[k] == sv[i + 1 + k]);
            }
            assert(cat_views(input@) =~= sv.skip(i + 1));
        }
        let ghost prevout = out@;
        let sorted = sort_types(c.types);
        let c2 = Category {
            name: c.name,
            is_priority: c.is_priority,
            types: sorted,
            total_count: c.total_count,
        };
        out.push(c2);
        proof {
            assert(c2@ == spec_sort_types_in(sv[i as int]));
            assert(forall|k: int| 0 <= k < i ==> out@[k] == prevout[k]);
            assert(forall|k: int|
                0 <= k < i ==> #[trigger] cat_views(out@)[k] == cat_views(prevout)[k]);
            assert(cat_views(out@)[i as int] == c2@);
        }
        i = i + 1;
    }
    proof {
        assert(cat_views(input@).len() == 0);
        assert forall|k: int| 0 <= k < cat_views(out@).len() implies cat_views(out@)[k]
            == spec_sort_all_types(sv)[k] by {
            assert(cat_views(out@)[k] == spec_sort_types_in(sv[k]));
        }
        assert(cat_views(out@) =~= spec_sort_all_types(sv));
    }
    out
}

/// One classification row: a category label, whether it is a priority
/// category, and the candidate type-record kinds in probing order.
#[derive(Debug)]
pub struct Row {
    pub label: String,
    pub is_priority: bool,
    pub kinds: Vec<String>,
}

#[verifier::ext_equal]
pub struct RowV {
    pub label: Seq<char>,
    pub is_priority: bool,
    pub kinds: Seq<Seq<char>>,
}

pub open spec fn kind_views(s: Seq<String>) -> Seq<Seq<char>> {
    Seq::new(s.len(), |i: int| s[i]@)
}

impl View for Row {
    type V = RowV;

    open spec fn view(&self) -> RowV {
        RowV { label: self.label@, is_priority: self.is_priority, kinds: kind_views(self.kinds@) }
    }
}

pub open spec fn row_views(s: Seq<Row>) -> Seq<RowV> {
    Seq::new(s.len(), |i: int| s[i]@)
}

/// The static classification table: element kinds paired with their
/// type-record kinds over two schema generations, priority categories
/// named, the rest gathered under a catch-all label.
pub open spec fn spec_rows() -> Seq<RowV> {
    seq![
        RowV { label: "Walls"@, is_priority: true, kinds: seq!["IFCWALLTYPE"@] },
        RowV { label: "Other"@, is_priority: false, kinds: seq!["IFCWALLTYPE"@] },
        RowV {
            label: "Doors"@,
            is_priority: true,
            kinds: seq!["IFCDOORTYPE"@, "IFCDOORSTYLE"@],
        },
        RowV {
            label: "Windows"@,
            is_priority: true,
            kinds: seq!["IFCWINDOWTYPE"@, "IFCWINDOWSTYLE"@],
        },
        RowV { label: "Furniture"@, is_priority: true, kinds: seq!["IFCFURNITURETYPE"@] },
        RowV { label: "Fixtures"@, is_priority: true, kinds: seq!["IFCFLOWTERMINALTYPE"@] },
        RowV {
            label: "Fixtures"@,
            is_priority: true,
            kinds: seq!["IFCSANITARYTERMINALTYPE"@],
        },
        RowV { label: "Other"@, is_priority: false, kinds: seq!["IFCSLABTYPE"@] },
        RowV { label: "Other"@, is_priority: false, kinds: seq!["IFCCOLUMNTYPE"@] },
        RowV { label: "Other"@, is_priority: false, kinds: seq!["IFCBEAMTYPE"@] },
        RowV {
            label: "Other"@,
            is_priority: false,
            kinds: seq!["IFCSTAIRTYPE"@, "IFCSTAIRFLIGHTTYPE"@],
        },
        RowV { label: "Other"@, is_priority: false, kinds: seq!["IFCRAILINGTYPE"@] },
        RowV { label: "Other"@, is_priority: false, kinds: seq!["IFCROOFTYPE"@] },
        RowV { label: "Other"@, is_priority: false, kinds: seq!["IFCCOVERINGTYPE"@] },
        RowV { label: "Other"@, is_priority: false, kinds: seq!["IFCCURTAINWALLTYPE"@] },
    ]
}

fn make_row1(label: &str, is_priority: bool, k1: &str) -> (r: Row)
    ensures
        r@ == (RowV { label: label@, is_priority, kinds: seq![k1@] }),
{
    let mut kinds: Vec<String> = Vec::new();
    kinds.push(String::from_str(k1));
    let r = Row { label: String::from_str(label), is_priority, kinds };
    proof {
        assert(r@.kinds =~= seq![k1@]);
        assert(r@ =~~= (RowV { label: label@, is_priority, kinds: seq![k1@] }));
    }
    r
}

fn make_row2(label: &str, is_priority: bool, k1: &str, k2: &str) -> (r: Row)
    ensures
        r@ == (RowV { label: label@, is_priority, kinds: seq![k1@, k2@] }),
{
    let mut kinds: Vec<String> = Vec::new();
    kinds.push(String::from_str(k1));
    kinds.push(String::from_str(k2));
    let r = Row { label: String::from_str(label), is_priority, kinds };
    proof {
        assert(r@.kinds =~= seq![k1@, k2@]);
        assert(r@ =~~= (RowV { label: label@, is_priority, kinds: seq![k1@, k2@] }));
    }
    r
}

/// Builds the classification table.
fn classification_rows() -> (r: Vec<Row>)
    ensures
        row_views(r@) == spec_rows(),
{
    let mut rows: Vec<Row> = Vec::new();
    rows.push(make_row1("Walls", true, "IFCWALLTYPE"));
    rows.push(make_row1("Other", false, "IFCWALLTYPE"));
    rows.push(make_row2("Doors", true, "IFCDOORTYPE", "IFCDOORSTYLE"));
    rows.push(make_row2("Windows", true, "IFCWINDOWTYPE", "IFCWINDOWSTYLE"));
    rows.push(make_row1("Furniture", true, "IFCFURNITURETYPE"));
    rows.push(make_row1("Fixtures", true, "IFCFLOWTERMINALTYPE"));
    rows.push(make_row1("Fixtures", true, "IFCSANITARYTERMINALTYPE"));
    rows.push(make_row1("Other", false, "IFCSLABTYPE"));
    rows.push(make_row1("Other", false, "IFCCOLUMNTYPE"));
    rows.push(make_row1("Other", false, "IFCBEAMTYPE"));
    rows.push(make_row2("Other", false, "IFCSTAIRTYPE", "IFCSTAIRFLIGHTTYPE"));
    rows.push(make_row1("Other", false, "IFCRAILINGTYPE"));
    rows.push(make_row1("Other", false, "IFCROOFTYPE"));
    rows.push(make_row1("Other", false, "IFCCOVERINGTYPE"));
    rows.push(make_row1("Other", false, "IFCCURTAINWALLTYPE"));
    proof {
        assert(row_views(rows@) =~~= spec_rows());
    }
    rows
}

/// Whether a type kind carries the synthesized door or window
/// dimension properties.
pub open spec fn spec_dims_kind(kind: Seq<char>) -> bool {
    kind == "IFCDOORTYPE"@ || kind == "IFCDOORSTYLE"@ || kind == "IFCWINDOWTYPE"@ || kind
        == "IFCWINDOWSTYLE"@
}

fn is_dims_kind(kind: &str) -> (r: bool)
    ensures
        r == spec_dims_kind(kind@),
{
    crate::text::str_eq(kind, "IFCDOORTYPE") || crate::text::str_eq(kind, "IFCDOORSTYLE")
        || crate::text::str_eq(kind, "IFCWINDOWTYPE") || crate::text::str_eq(
        kind,
        "IFCWINDOWSTYLE",
    )
}

/// The position of the first category with the given label.
pub open spec fn first_label_index(cats: Seq<CategoryV>, label: Seq<char>) -> Option<int>
    decreases cats.len(),
{
    if cats.len() == 0 {
        None
    } else if cats[0].name == label {
        Some(0int)
    } else {
        match first_label_index(cats.skip(1), label) {
            Some(i) => Some(i + 1),
            None => None,
        }
    }
}

pub proof fn lemma_first_label_index_bounds(cats: Seq<CategoryV>, label: Seq<char>)
    ensures
        first_label_index(cats, label) matches Some(i) ==> 0 <= i < cats.len() && cats[i].name
            == label,
    decreases cats.len(),
{
    if cats.len() > 0 && cats[0].name != label {
        lemma_first_label_index_bounds(cats.skip(1), label);
    }
}

pub proof fn lemma_first_name_index_bounds(types: Seq<ElementTypeV>, name: Seq<char>)
    ensures
        first_name_index(types, name) matches Some(i) ==> 0 <= i < types.len() && types[i].name
            == name,
    decreases types.len(),
{
    if types.len() > 0 && types[0].name != name {
        lemma_first_name_index_bounds(types.skip(1), name);
    }
}

/// An absent name matches no entry.
pub proof fn lemma_first_name_index_all(types: Seq<ElementTypeV>, name: Seq<char>)
    ensures
        first_name_index(types, name) is None ==> forall|t: int|
            0 <= t < types.len() ==> (#[trigger] types[t]).name != name,
    decreases types.len(),
{
    if types.len() > 0 && types[0].name != name {
        lemma_first_name_index_all(types.skip(1), name);
        if first_name_index(types, name) is None {
            assert(forall|t: int| 0 <= t < types.skip(1).len() ==> types.skip(1)[t] == types[t + 1]);
            assert forall|t: int| 0 <= t < types.len() implies (#[trigger] types[t]).name != name by {
                if t > 0 {
                    assert(types.skip(1)[t - 1] == types[t]);
                }
            }
        }
    }
}

proof fn lemma_first_label_at(cats: Seq<CategoryV>, label: Seq<char>, j: int)
    requires
        0 <= j < cats.len(),
        cats[j].name == label,
        forall|t: int| 0 <= t < j ==> (#[trigger] cats[t]).name != label,
    ensures
        first_label_index(cats, label) == Some(j),
    decreases cats.len(),
{
    if j > 0 {
        lemma_first_label_at(cats.skip(1), label, j - 1);
        assert(forall|t: int| 0 <= t < j - 1 ==> cats.skip(1)[t] == cats[t + 1]);
    }
}

proof fn lemma_first_label_none(cats: Seq<CategoryV>, label: Seq<char>)
    requires
        forall|t: int| 0 <= t < cats.len() ==> (#[trigger] cats[t]).name != label,
    ensures
        first_label_index(cats, label) is None,
    decreases cats.len(),
{
    if cats.len() > 0 {
        lemma_first_label_none(cats.skip(1), label);
    }
}

/// The position of the first type with the given display name.
pub open spec fn first_name_index(types: Seq<ElementTypeV>, name: Seq<char>) -> Option<int>
    decreases types.len(),
{
    if types.len() == 0 {
        None
    } else if types[0].name == name {
        Some(0int)
    } else {
        match first_name_index(types.skip(1), name) {
            Some(i) => Some(i + 1),
            None => None,
        }
    }
}

proof fn lemma_first_name_at(types: Seq<ElementTypeV>, name: Seq<char>, j: int)
    requires
        0 <= j < types.len(),
        types[j].name == name,
        forall|t: int| 0 <= t < j ==> (#[trigger] types[t]).name != name,
    ensures
        first_name_index(types, name) == Some(j),
    decreases types.len(),
{
    if j > 0 {
        lemma_first_name_at(types.skip(1), name, j - 1);
        assert(forall|t: int| 0 <= t < j - 1 ==> types.skip(1)[t] == types[t + 1]);
    }
}

proof fn lemma_first_name_none(types: Seq<ElementTypeV>, name: Seq<char>)
    requires
        forall|t: int| 0 <= t < types.len() ==> (#[trigger] types[t]).name != name,
    ensures
        first_name_index(types, name) is None,
    decreases types.len(),
{
    if types.len() > 0 {
        lemma_first_name_none(types.skip(1), name);
    }
}

/// Two same-named type entries merge: the instance-id sequences
/// concatenate in processing order, the count is the merged sequence's
/// length, and property tables merge first-write-wins.
pub open spec fn spec_merge_et(a: ElementTypeV, b: ElementTypeV) -> ElementTypeV {
    ElementTypeV {
        id: a.id,
        global_id: a.global_id,
        name: a.name,
        category: a.category,
        instance_count: (a.instance_ids + b.instance_ids).len() as int,
        instance_ids: a.instance_ids + b.instance_ids,
        properties: crate::model::prop_merge_absent(a.properties, b.properties),
    }
}

/// Adding a type to a category: a same-named entry absorbs it,
/// otherwise it is appended; the category's total grows either way.
pub open spec fn spec_cat_add(cat: CategoryV, et: ElementTypeV) -> CategoryV {
    match first_name_index(cat.types, et.name) {
        Some(ti) => CategoryV {
            name: cat.name,
            is_priority: cat.is_priority,
            types: cat.types.update(ti, spec_merge_et(cat.types[ti], et)),
            total_count: crate::model::sat_add_usize(cat.total_count, et.instance_count),
        },
        None => CategoryV {
            name: cat.name,
            is_priority: cat.is_priority,
            types: cat.types.push(et),
            total_count: crate::model::sat_add_usize(cat.total_count, et.instance_count),
        },
    }
}

/// Adding a claimed type to the category list: the labelled category
/// absorbs it, a new label opens a new category.
pub open spec fn spec_add_type(
    cats: Seq<CategoryV>,
    label: Seq<char>,
    is_priority: bool,
    et: ElementTypeV,
) -> Seq<CategoryV> {
    match first_label_index(cats, label) {
        Some(ci) => cats.update(ci, spec_cat_add(cats[ci], et)),
        None => cats.push(
            spec_cat_add(
                CategoryV {
                    name: label,
                    is_priority,
                    types: Seq::<ElementTypeV>::empty(),
                    total_count: 0,
                },
                et,
            ),
        ),
    }
}

/// The element type built from a claimed type record: display name and
/// identifying code with fallbacks, the instance list from the
/// membership map, properties from the type's id, then its first
/// instance's id, then the synthesized dimension properties for door
/// and window kinds.
pub open spec fn spec_make_type(
    rs: Seq<RecordV>,
    t2i: Seq<(u64, Seq<u64>)>,
    props: Seq<(u64, Seq<(Seq<char>, Seq<char>)>)>,
    rec: RecordV,
    kind: Seq<char>,
    label: Seq<char>,
) -> ElementTypeV {
    let ids = match crate::model::alist_get(t2i, rec.id) {
        Some(v) => v,
        None => Seq::<u64>::empty(),
    };
    let p0 = match crate::model::alist_get(props, rec.id) {
        Some(p) => p,
        None => Seq::<(Seq<char>, Seq<char>)>::empty(),
    };
    let p1 = if ids.len() > 0 {
        match crate::model::alist_get(props, ids[0]) {
            Some(q) => crate::model::prop_merge_absent(p0, q),
            None => p0,
        }
    } else {
        p0
    };
    let p2 = if spec_dims_kind(kind) && ids.len() > 0 {
        match crate::step::spec_find_record(rs, ids[0]) {
            Some(inst) => {
                let ph = match spec_real_at(inst, 8) {
                    Some(h) => crate::model::prop_set(p1, "Height"@, crate::numbers::spec_micro_mm(h)),
                    None => p1,
                };
                match spec_real_at(inst, 9) {
                    Some(w) => crate::model::prop_set(ph, "Width"@, crate::numbers::spec_micro_mm(w)),
                    None => ph,
                }
            },
            None => p1,
        }
    } else {
        p1
    };
    ElementTypeV {
        id: rec.id,
        global_id: match spec_string_at(rec, 0) {
            Some(s) => s,
            None => Seq::<char>::empty(),
        },
        name: match spec_string_at(rec, 2) {
            Some(s) => s,
            None => "Type #"@ + spec_u64_chars(rec.id),
        },
        category: label,
        instance_count: ids.len() as int,
        instance_ids: ids,
        properties: p2,
    }
}

/// The classifier's running state: the claimed record ids, and the
/// categories in first-created order.
#[verifier::ext_equal]
pub struct BuildStV {
    pub claimed: Seq<u64>,
    pub cats: Seq<CategoryV>,
}

/// One candidate record: an unclaimed record is claimed and its type
/// added under the row's label; a claimed one is passed over.
pub open spec fn spec_rec_step(
    rs: Seq<RecordV>,
    t2i: Seq<(u64, Seq<u64>)>,
    props: Seq<(u64, Seq<(Seq<char>, Seq<char>)>)>,
    st: BuildStV,
    label: Seq<char>,
    is_priority: bool,
    kind: Seq<char>,
    rec: RecordV,
) -> BuildStV {
    if st.claimed.contains(rec.id) {
        st
    } else {
        BuildStV {
            claimed: st.claimed.push(rec.id),
            cats: spec_add_type(
                st.cats,
                label,
                is_priority,
                spec_make_type(rs, t2i, props, rec, kind, label),
            ),
        }
    }
}

pub open spec fn spec_recs_fold(
    rs: Seq<RecordV>,
    t2i: Seq<(u64, Seq<u64>)>,
    props: Seq<(u64, Seq<(Seq<char>, Seq<char>)>)>,
    st: BuildStV,
    label: Seq<char>,
    is_priority: bool,
    kind: Seq<char>,
    recs: Seq<RecordV>,
) -> BuildStV
    decreases recs.len(),
{
    if recs.len() == 0 {
        st
    } else {
        spec_rec_step(
            rs,
            t2i,
            props,
            spec_recs_fold(rs, t2i, props, st, label, is_priority, kind, recs.drop_last()),
            label,
            is_priority,
            kind,
            recs.last(),
        )
    }
}

pub open spec fn spec_kind_step(
    rs: Seq<RecordV>,
    t2i: Seq<(u64, Seq<u64>)>,
    props: Seq<(u64, Seq<(Seq<char>, Seq<char>)>)>,
    st: BuildStV,
    label: Seq<char>,
    is_priority: bool,
    kind: Seq<char>,
) -> BuildStV {
    spec_recs_fold(rs, t2i, props, st, label, is_priority, kind, spec_by_kind(rs, kind))
}

pub open spec fn spec_kinds_fold(
    rs: Seq<RecordV>,
    t2i: Seq<(u64, Seq<u64>)>,
    props: Seq<(u64, Seq<(Seq<char>, Seq<char>)>)>,
    st: BuildStV,
    label: Seq<char>,
    is_priority: bool,
    kinds: Seq<Seq<char>>,
) -> BuildStV
    decreases kinds.len(),
{
    if kinds.len() == 0 {
        st
    } else {
        spec_kind_step(
            rs,
            t2i,
            props,
            spec_kinds_fold(rs, t2i, props, st, label, is_priority, kinds.drop_last()),
            label,
            is_priority,
            kinds.last(),
        )
    }
}

pub open spec fn spec_rows_fold(
    rs: Seq<RecordV>,
    t2i: Seq<(u64, Seq<u64>)>,
    props: Seq<(u64, Seq<(Seq<char>, Seq<char>)>)>,
    st: BuildStV,
    rows: Seq<RowV>,
) -> BuildStV
    decreases rows.len(),
{
    if rows.len() == 0 {
        st
    } else {
        spec_kinds_fold(
            rs,
            t2i,
            props,
            spec_rows_fold(rs, t2i, props, st, rows.drop_last()),
            rows.last().label,
            rows.last().is_priority,
            rows.last().kinds,
        )
    }
}

/// The categorized type catalog of a record table, before ordering.
pub open spec fn spec_build_categories(
    rs: Seq<RecordV>,
    t2i: Seq<(u64, Seq<u64>)>,
    props: Seq<(u64, Seq<(Seq<char>, Seq<char>)>)>,
) -> Seq<CategoryV> {
    spec_rows_fold(
        rs,
        t2i,
        props,
        BuildStV { claimed: Seq::<u64>::empty(), cats: Seq::<CategoryV>::empty() },
        spec_rows(),
    ).cats
}

fn contains_id(v: &Vec<u64>, id: u64) -> (r: bool)
    ensures
        r == v@.contains(id),
{
    let n = v.len();
    let mut i: usize = 0;
    while i < n
        invariant
            i <= n,
            n == v@.len(),
            forall|t: int| 0 <= t < i ==> v@[t] != id,
        decreases n - i,
    {
        if v[i] == id {
            proof {
                assert(v@[i as int] == id);
            }
            return true;
        }
        i = i + 1;
    }
    proof {
        assert(!v@.contains(id)) by {
            if v@.contains(id) {
                let w = choose|w: int| 0 <= w < v@.len() && v@[w] == id;
                assert(v@[w] != id);
            }
        }
    }
    false
}

fn clone_ids(src: &Vec<u64>) -> (r: Vec<u64>)
    ensures
        r@ == src@,
{
    let n = src.len();
    let mut out: Vec<u64> = Vec::new();
    let mut i: usize = 0;
    while i < n
        invariant
            i <= n,
            n == src@.len(),
            out@ == src@.take(i as int),
        decreases n - i,
    {
        out.push(src[i]);
        proof {
            assert(out@ =~= src@.take(i + 1));
        }
        i = i + 1;
    }
    proof {
        assert(src@.take(n as int) =~= src@);
    }
    out
}

fn clone_props(src: &Vec<(String, String)>) -> (r: Vec<(String, String)>)
    ensures
        crate::model::props_view(r@) == crate::model::props_view(src@),
{
    let n = src.len();
    let mut out: Vec<(String, String)> = Vec::new();
    let mut i: usize = 0;
    while i < n
        invariant
            i <= n,
            n == src@.len(),
            out@.len() == i,
            forall|t: int|
                0 <= t < i ==> #[trigger] crate::model::props_view(out@)[t]
                    == crate::model::props_view(src@)[t],
        decreases n - i,
    {
        let ghost prevout = out@;
        out.push((src[i].0.clone(), src[i].1.clone()));
        proof {
            assert(forall|t: int| 0 <= t < i ==> out@[t] == prevout[t]);
            assert(forall|t: int|
                0 <= t < i ==> #[trigger] crate::model::props_view(out@)[t]
                    == crate::model::props_view(prevout)[t]);
            assert(crate::model::props_view(out@)[i as int] == crate::model::props_view(src@)[
                i as int
            ]);
        }
        i = i + 1;
    }
    proof {
        assert(crate::model::props_view(out@) =~= crate::model::props_view(src@));
    }
    out
}

/// The position of a key in an instance-properties map.
fn find_props(m: &Vec<(u64, Vec<(String, String)>)>, k: u64) -> (r: Option<usize>)
    ensures
        match r {
            Some(j) => crate::model::alist_index(crate::model::prop_map_view(m@), k) == Some(
                j as int,
            ) && j < m@.len() && m@[j as int].0 == k,
            None => crate::model::alist_index(crate::model::prop_map_view(m@), k) is None,
        },
{
    let ghost mv = crate::model::prop_map_view(m@);
    let n = m.len();
    let mut j: usize = 0;
    while j < n
        invariant
            j <= n,
            n == m@.len(),
            mv == crate::model::prop_map_view(m@),
            forall|t: int| 0 <= t < j ==> (#[trigger] mv[t]).0 != k,
        decreases n - j,
    {
        proof {
            assert(mv[j as int].0 == m@[j as int].0);
        }
        if m[j].0 == k {
            proof {
                crate::model::lemma_alist_index_at(mv, k, j as int);
            }
            return Some(j);
        }
        j = j + 1;
    }
    proof {
        crate::model::lemma_alist_index_none(mv, k);
    }
    None
}

/// Builds the element type of a claimed type record.
#[verifier::rlimit(100)]
fn make_element_type(
    step_file: &StepFile,
    t2i: &Vec<(u64, Vec<u64>)>,
    props: &Vec<(u64, Vec<(String, String)>)>,
    rec: &crate::value::StepEntity,
    kind: &str,
    label: &str,
) -> (et: ElementType)
    ensures
        et@ == spec_make_type(
            step_file@.records,
            crate::ifc::t2i_view(t2i@),
            crate::model::prop_map_view(props@),
            rec@,
            kind@,
            label@,
        ),
{
    let ghost rs = step_file@.records;
    let ghost t2iv = crate::ifc::t2i_view(t2i@);
    let ghost prv = crate::model::prop_map_view(props@);
    // the instance list from the membership map
    let ids: Vec<u64> = match alist_find_vecs(t2i, rec.id) {
        Some(j) => clone_ids(&t2i[j].1),
        None => Vec::new(),
    };
    proof {
        assert(ids@ == (match crate::model::alist_get(t2iv, rec@.id) {
            Some(v) => v,
            None => Seq::<u64>::empty(),
        })) by {
            if crate::model::alist_index(t2iv, rec@.id) is Some {
                crate::model::lemma_alist_index_bounds(t2iv, rec@.id);
            }
            assert(ids@ =~= (match crate::model::alist_get(t2iv, rec@.id) {
                Some(v) => v,
                None => Seq::<u64>::empty(),
            }));
        }
    }
    // properties keyed by the type record's own id
    let mut p: Vec<(String, String)> = match find_props(props, rec.id) {
        Some(j) => clone_props(&props[j].1),
        None => Vec::new(),
    };
    proof {
        assert(crate::model::props_view(p@) == (match crate::model::alist_get(prv, rec@.id) {
            Some(q) => q,
            None => Seq::<(Seq<char>, Seq<char>)>::empty(),
        })) by {
            if crate::model::alist_index(prv, rec@.id) is Some {
                crate::model::lemma_alist_index_bounds(prv, rec@.id);
            }
            assert(crate::model::props_view(p@) =~= (match crate::model::alist_get(prv, rec@.id) {
                Some(q) => q,
                None => Seq::<(Seq<char>, Seq<char>)>::empty(),
            }));
        }
    }
    // then properties keyed by the first instance, where not yet bound
    if ids.len() > 0 {
        match find_props(props, ids[0]) {
            Some(j) => {
                proof {
                    crate::model::lemma_alist_index_bounds(prv, ids@[0]);
                }
                prop_merge(&mut p, &props[j].1);
            },
            None => {
            },
        }
    }
    // synthesized dimensions for door and window kinds
    if is_dims_kind(kind) && ids.len() > 0 {
        match step_file.get_entity(ids[0]) {
            Some(inst) => {
                match inst.real_at(8) {
                    Some(h) => {
                        let hv = crate::numbers::micro_mm_chars(h);
                        prop_put(&mut p, String::from_str("Height"), chars_to_string(&hv));
                    },
                    None => {
                    },
                }
                match inst.real_at(9) {
                    Some(w) => {
                        let wv = crate::numbers::micro_mm_chars(w);
                        prop_put(&mut p, String::from_str("Width"), chars_to_string(&wv));
                    },
                    None => {
                    },
                }
            },
            None => {
            },
        }
    }
    let name: String = match rec.string_at(2) {
        Some(sref) => sref.clone(),
        None => {
            let mut cs = chars_of_str("Type #");
            let mut ds = u64_chars(rec.id);
            cs.append(&mut ds);
            chars_to_string(&cs)
        },
    };
    let global_id: String = match rec.string_at(0) {
        Some(sref) => sref.clone(),
        None => String::new(),
    };
    let count: usize = ids.len();
    let et = ElementType {
        id: rec.id,
        global_id,
        name,
        category: String::from_str(label),
        instance_count: count,
        instance_ids: ids,
        properties: p,
    };
    proof {
        assert(et@ =~~= spec_make_type(rs, t2iv, prv, rec@, kind@, label@));
    }
    et
}

/// Saturating addition on machine-word counts.
fn sat_add(a: usize, b: usize) -> (r: usize)
    ensures
        r == crate::model::sat_add_usize(a as int, b as int),
{
    if a > usize::MAX - b {
        usize::MAX
    } else {
        a + b
    }
}

/// Adds a claimed type to the category list.
#[verifier::rlimit(100)]
fn add_type_to_cats(cats: &mut Vec<Category>, label: &str, is_priority: bool, et: ElementType)
    ensures
        cat_views(final(cats)@) == spec_add_type(cat_views(old(cats)@), label@, is_priority, et@),
{
    let ghost cv = cat_views(cats@);
    let ghost etv = et@;
    let n = cats.len();
    let mut ci: usize = 0;
    let mut found: bool = false;
    while ci < n && !found
        invariant
            ci <= n,
            n == cats@.len(),
            cats@ == old(cats)@,
            cv == cat_views(cats@),
            !found ==> forall|t: int| 0 <= t < ci ==> (#[trigger] cv[t]).name != label@,
            found ==> ci < n && cv[ci as int].name == label@ && (forall|t: int|
                0 <= t < ci ==> (#[trigger] cv[t]).name != label@),
        decreases n - ci, (if found { 0int } else { 1int }),
    {
        proof {
            assert(cv[ci as int].name == cats@[ci as int]@.name);
        }
        if crate::text::str_eq(cats[ci].name.as_str(), label) {
            found = true;
        } else {
            ci = ci + 1;
        }
    }
    if found {
        proof {
            lemma_first_label_at(cv, label@, ci as int);
        }
        let mut cat = cats.remove(ci);
        let ghost catv = cat@;
        let added: usize = et.instance_count;
        let ghost tv = catv.types;
        // merge into a same-named entry, or append
        let tn = cat.types.len();
        let mut ti: usize = 0;
        let mut tf: bool = false;
        while ti < tn && !tf
            invariant
                ti <= tn,
                tn == cat.types@.len(),
                type_views(cat.types@) == tv,
                et@ == etv,
                !tf ==> forall|t: int| 0 <= t < ti ==> (#[trigger] tv[t]).name != etv.name,
                tf ==> ti < tn && tv[ti as int].name == etv.name && (forall|t: int|
                    0 <= t < ti ==> (#[trigger] tv[t]).name != etv.name),
            decreases tn - ti, (if tf { 0int } else { 1int }),
        {
            proof {
                assert(tv[ti as int].name == cat.types@[ti as int]@.name);
            }
            if crate::text::str_eq(cat.types[ti].name.as_str(), et.name.as_str()) {
                tf = true;
            } else {
                ti = ti + 1;
            }
        }
        if tf {
            proof {
                lemma_first_name_at(tv, etv.name, ti as int);
            }
            let mut et2 = et;
            let mut old_t = cat.types.remove(ti);
            let ghost old_tv = old_t@;
            old_t.instance_ids.append(&mut et2.instance_ids);
            old_t.instance_count = old_t.instance_ids.len();
            prop_merge(&mut old_t.properties, &et2.properties);
            proof {
                assert(old_t@ =~~= spec_merge_et(old_tv, etv));
            }
            cat.types.insert(ti, old_t);
            proof {
                assert(type_views(cat.types@) =~= tv.update(
                    ti as int,
                    spec_merge_et(tv[ti as int], etv),
                ));
            }
        } else {
            proof {
                lemma_first_name_none(tv, etv.name);
            }
            cat.types.push(et);
            proof {
                assert(type_views(cat.types@) =~= tv.push(etv));
            }
        }
        cat.total_count = sat_add(cat.total_count, added);
        proof {
            assert(cat@ =~~= spec_cat_add(catv, etv));
        }
        cats.insert(ci, cat);
        proof {
            assert forall|k: int| 0 <= k < cat_views(cats@).len() implies cat_views(cats@)[k]
                == cv.update(ci as int, spec_cat_add(cv[ci as int], etv))[k] by {
                assert(cats@.len() == cv.len());
                if k < ci {
                    assert(cats@[k] == old(cats)@[k]);
                    assert(cat_views(cats@)[k] == cats@[k]@);
                    assert(cv[k] == old(cats)@[k]@);
                } else if k == ci {
                    assert(cats@[k]@ == spec_cat_add(cv[ci as int], etv));
                } else {
                    assert(cats@[k] == old(cats)@[k]);
                    assert(cat_views(cats@)[k] == cats@[k]@);
                    assert(cv[k] == old(cats)@[k]@);
                }
            }
            assert(cat_views(cats@) =~= cv.update(ci as int, spec_cat_add(cv[ci as int], etv)));
        }
    } else {
        proof {
            lemma_first_label_none(cv, label@);
        }
        let added: usize = et.instance_count;
        let mut types: Vec<ElementType> = Vec::new();
        let ghost emptyv = type_views(types@);
        types.push(et);
        let cat = Category {
            name: String::from_str(label),
            is_priority,
            types,
            total_count: added,
        };
        proof {
            assert(emptyv =~= Seq::<ElementTypeV>::empty());
            assert(type_views(cat.types@) =~= Seq::<ElementTypeV>::empty().push(etv));
            assert(first_name_index(Seq::<ElementTypeV>::empty(), etv.name) is None);
            assert(crate::model::sat_add_usize(0, etv.instance_count) == added as int);
            assert(cat@ =~~= spec_cat_add(
                CategoryV {
                    name: label@,
                    is_priority,
                    types: Seq::<ElementTypeV>::empty(),
                    total_count: 0,
                },
                etv,
            ));
        }
        cats.push(cat);
        proof {
            assert(cat_views(cats@) =~= cv.push(spec_cat_add(
                CategoryV {
                    name: label@,
                    is_priority,
                    types: Seq::<ElementTypeV>::empty(),
                    total_count: 0,
                },
                etv,
            )));
        }
    }
}

/// Classifies the type records into categories, claiming each record
/// once, in the table's row order.
#[verifier::loop_isolation(false)]
#[verifier::rlimit(100)]
pub fn build_categories(
    step_file: &StepFile,
    t2i: &Vec<(u64, Vec<u64>)>,
    props: &Vec<(u64, Vec<(String, String)>)>,
) -> (r: Vec<Category>)
    ensures
        cat_views(r@) == spec_build_categories(
            step_file@.records,
            crate::ifc::t2i_view(t2i@),
            crate::model::prop_map_view(props@),
        ),
{
    let ghost rs = step_file@.records;
    let ghost t2iv = crate::ifc::t2i_view(t2i@);
    let ghost prv = crate::model::prop_map_view(props@);
    let ghost init = BuildStV { claimed: Seq::<u64>::empty(), cats: Seq::<CategoryV>::empty() };
    let rows = classification_rows();
    let ghost rws = spec_rows();
    let mut claimed: Vec<u64> = Vec::new();
    let mut cats: Vec<Category> = Vec::new();
    let nr = rows.len();
    let mut i: usize = 0;
    proof {
        assert(claimed@ =~= init.claimed);
        assert(cat_views(cats@) =~= init.cats);
        assert((BuildStV { claimed: claimed@, cats: cat_views(cats@) }) =~~= spec_rows_fold(
            rs,
            t2iv,
            prv,
            init,
            rws.take(0),
        ));
    }
    while i < nr
        invariant
            i <= nr,
            (BuildStV { claimed: claimed@, cats: cat_views(cats@) }) == spec_rows_fold(
                rs,
                t2iv,
                prv,
                init,
                rws.take(i as int),
            ),
        decreases nr - i,
    {
        proof {
            assert(rws[i as int] == rows@[i as int]@);
            assert(rws.take(i + 1).drop_last() =~= rws.take(i as int));
            assert(rws.take(i + 1).last() == rws[i as int]);
        }
        let ghost st_row = spec_rows_fold(rs, t2iv, prv, init, rws.take(i as int));
        let row = &rows[i];
        let ghost rowv = rws[i as int];
        let nk = row.kinds.len();
        let mut j: usize = 0;
        proof {
            assert((BuildStV { claimed: claimed@, cats: cat_views(cats@) }) =~~= spec_kinds_fold(
                rs,
                t2iv,
                prv,
                st_row,
                rowv.label,
                rowv.is_priority,
                rowv.kinds.take(0),
            ));
        }
        while j < nk
            invariant
                j <= nk,
                nk == row.kinds@.len(),
                (BuildStV { claimed: claimed@, cats: cat_views(cats@) }) == spec_kinds_fold(
                    rs,
                    t2iv,
                    prv,
                    st_row,
                    rowv.label,
                    rowv.is_priority,
                    rowv.kinds.take(j as int),
                ),
            decreases nk - j,
        {
            proof {
                assert(rowv.kinds[j as int] == row.kinds@[j as int]@);
                assert(rowv.kinds.take(j + 1).drop_last() =~= rowv.kinds.take(j as int));
                assert(rowv.kinds.take(j + 1).last() == rowv.kinds[j as int]);
            }
            let ghost st_kind = spec_kinds_fold(
                rs,
                t2iv,
                prv,
                st_row,
                rowv.label,
                rowv.is_priority,
                rowv.kinds.take(j as int),
            );
            let kind = &row.kinds[j];
            let ghost kindv = rowv.kinds[j as int];
            let recs = step_file.get_entities_by_type(kind.as_str());
            let ghost recsv = spec_by_kind(rs, kindv);
            let nrec = recs.len();
            let mut k: usize = 0;
            proof {
                assert((BuildStV { claimed: claimed@, cats: cat_views(cats@) })
                    =~~= spec_recs_fold(
                    rs,
                    t2iv,
                    prv,
                    st_kind,
                    rowv.label,
                    rowv.is_priority,
                    kindv,
                    recsv.take(0),
                ));
            }
            while k < nrec
                invariant
                    k <= nrec,
                    nrec == recs@.len(),
                    crate::value::entity_ref_views(recs@) == recsv,
                    (BuildStV { claimed: claimed@, cats: cat_views(cats@) }) == spec_recs_fold(
                        rs,
                        t2iv,
                        prv,
                        st_kind,
                        rowv.label,
                        rowv.is_priority,
                        kindv,
                        recsv.take(k as int),
                    ),
                decreases nrec - k,
            {
                proof {
                    assert(recsv[k as int] == recs@[k as int]@);
                    assert(recsv.take(k + 1).drop_last() =~= recsv.take(k as int));
                    assert(recsv.take(k + 1).last() == recsv[k as int]);
                }
                let rec = recs[k];
                if !contains_id(&claimed, rec.id) {
                    claimed.push(rec.id);
                    let et = make_element_type(step_file, t2i, props, rec, kind.as_str(), row.label.as_str());
                    add_type_to_cats(&mut cats, row.label.as_str(), row.is_priority, et);
                }
                k = k + 1;
            }
            proof {
                assert(recsv.take(nrec as int) =~= recsv);
            }
            j = j + 1;
        }
        proof {
            assert(rowv.kinds.take(nk as int) =~= rowv.kinds);
        }
        i = i + 1;
    }
    proof {
        assert(rws.take(nr as int) =~= rws);
    }
    cats
}

/// The assembled project of a source text: records extracted, the
/// relationship maps resolved, the catalog classified and ordered, the
/// storeys counted and ordered.
pub open spec fn spec_project(content: Seq<char>, file_path: Seq<char>) -> crate::model::ProjectV {
    let f = spec_parse_file(content);
    let rs = f.records;
    let e2s = spec_containment(rs);
    let t2i = spec_type_instances(rs);
    let props = spec_element_properties(rs);
    crate::model::ProjectV {
        name: spec_project_name(rs),
        schema: f.schema,
        file_path: file_path,
        categories: spec_sort_all_types(
            spec_sort_cats(spec_build_categories(rs, t2i, props)),
        ),
        storeys: spec_sort_storeys(spec_storeys_counted(spec_storeys(rs), e2s)),
        element_to_storey: e2s,
        element_properties: props,
        instance_global_ids: spec_instance_gids(rs, t2i),
    }
}

/// Builds the project model from raw exchange-structure text.  Every
/// field of the result is a function of the text alone.
pub fn parse_project(content: &str, file_path: &str) -> (p: IfcProject)
    ensures
        p@ == spec_project(content@, file_path@),
{
    let step_file = match StepFile::parse(content) {
        Ok(f) => f,
        Err(_) => {
            proof {
                assert(false);
            }
            return IfcProject::new(String::new(), String::new(), String::new());
        },
    };
    let name = extract_project_name(&step_file);
    let storeys0 = extract_storeys(&step_file);
    let e2s = extract_spatial_containment(&step_file);
    let storeys1 = count_storeys(storeys0, &e2s);
    let storeys = sort_storeys(storeys1);
    let t2i = extract_type_relationships(&step_file);
    let props = extract_property_sets(&step_file);
    let cats0 = build_categories(&step_file, &t2i, &props);
    let cats = sort_all_types(sort_cats(cats0));
    let gids = extract_instance_global_ids(&step_file, &t2i);
    let p = IfcProject {
        name,
        schema: step_file.schema,
        file_path: String::from_str(file_path),
        categories: cats,
        storeys,
        elements: Vec::new(),
        element_to_storey: e2s,
        element_properties: props,
        instance_global_ids: gids,
    };
    proof {
        assert(p@ =~~= spec_project(content@, file_path@));
    }
    p
}

} // verus!

//! The relationship resolver: three independent walks over the record
//! table derive the element-to-storey containment map, the
//! type-to-instances membership map, and the instance-to-properties
//! map, with the value formatter the property tables display.

use vstd::prelude::*;
use vstd::string::StringExecFns;

verus! {

broadcast use {vstd::std_specs::vec::group_vec_axioms, vstd::seq::group_seq_axioms};

use crate::model::alist_get;
use crate::model::alist_index;
use crate::model::alist_set;
use crate::model::lemma_alist_index_at;
use crate::model::lemma_alist_index_bounds;
use crate::model::lemma_alist_index_none;
use crate::numbers::spec_i64_chars;
use crate::numbers::spec_micro_2dp;
use crate::numbers::spec_u64_chars;
use crate::numbers::i64_chars;
use crate::numbers::micro_2dp_chars;
use crate::numbers::u64_chars;
use crate::step::StepFile;
use crate::step::spec_by_kind;
use crate::step::spec_find_record;
use crate::text::chars_to_string;
use crate::text::chars_of_str;
use crate::value::RecordV;
use crate::value::StepValue;
use crate::value::ValueV;
use crate::value::entity_ref_views;
use crate::value::lemma_seq_value_views;
use crate::value::spec_list_refs;
use crate::value::spec_ref_at;
use crate::value::spec_string_at;
use crate::value::value_view;
use crate::value::views_of;

/// The display form of one attribute value.
pub open spec fn spec_format_value(v: ValueV) -> Seq<char>
    decreases v, 0nat,
{
    match v {
        ValueV::Text(s) => s,
        ValueV::Real(m) => spec_micro_2dp(m),
        ValueV::Integer(i) => spec_i64_chars(i),
        ValueV::Boolean(b) => if b {
            "Yes"@
        } else {
            "No"@
        },
        ValueV::Enum(e) => e,
        ValueV::Reference(id) => seq!['#'] + spec_u64_chars(id),
        ValueV::List(l) => spec_format_list(l),
        ValueV::Null => "-"@,
        ValueV::Derived => "*"@,
    }
}

/// The display form of a list: the items joined by a comma and space.
pub open spec fn spec_format_list(l: Seq<ValueV>) -> Seq<char>
    decreases l, 1nat,
    via spec_format_list_decreases
{
    if l.len() == 0 {
        Seq::<char>::empty()
    } else if l.len() == 1 {
        spec_format_value(l[0])
    } else {
        spec_format_list(l.drop_last()) + seq![',', ' '] + spec_format_value(l.last())
    }
}

#[via_fn]
proof fn spec_format_list_decreases(l: Seq<ValueV>) {
    if l.len() > 0 {
        assert(decreases_to!(l => l[0]));
        assert(decreases_to!(l => l[l.len() - 1]));
        assert(decreases_to!(l => l.drop_last()));
    }
}

/// Renders one attribute value for a property table.
#[verifier::loop_isolation(false)]
fn format_value_chars(v: &StepValue) -> (out: Vec<char>)
    ensures
        out@ == spec_format_value(v@),
    decreases v,
{
    match v {
        StepValue::Text(s) => chars_of_str(s.as_str()),
        StepValue::Real(m) => micro_2dp_chars(*m),
        StepValue::Integer(i) => i64_chars(*i),
        StepValue::Boolean(b) => {
            if *b {
                chars_of_str("Yes")
            } else {
                chars_of_str("No")
            }
        },
        StepValue::Enum(e) => chars_of_str(e.as_str()),
        StepValue::Reference(id) => {
            let mut out: Vec<char> = Vec::new();
            out.push('#');
            let mut digits = u64_chars(*id);
            out.append(&mut digits);
            proof {
                assert(out@ =~= seq!['#'] + spec_u64_chars(*id));
            }
            out
        },
        StepValue::List(l) => {
            let ghost lv = views_of(l@);
            let n = l.len();
            let mut out: Vec<char> = Vec::new();
            let mut j: usize = 0;
            proof {
                assert(out@ =~= spec_format_list(lv.take(0)));
            }
            while j < n
                invariant
                    j <= n,
                    n == l@.len(),
                    lv == views_of(l@),
                    out@ == spec_format_list(lv.take(j as int)),
                decreases n - j,
            {
                proof {
                    assert(lv.take(j + 1).drop_last() =~= lv.take(j as int));
                    assert(lv.take(j + 1).last() == value_view(l@[j as int]));
                    let ghost lw = (*v)->List_0;
                    assert(lw == *l);
                    assert(decreases_to!(*v => (*v)->List_0));
                    assert(decreases_to!(lw => lw@));
                    assert(decreases_to!(lw@ => lw@[j as int]));
                    assert(decreases_to!(*v => l@[j as int]));
                }
                if j > 0 {
                    out.push(',');
                    out.push(' ');
                }
                let mut item = format_value_chars(&l[j]);
                out.append(&mut item);
                proof {
                    assert(out@ =~= spec_format_list(lv.take(j + 1)));
                }
                j = j + 1;
            }
            proof {
                assert(lv.take(n as int) =~= lv);
                lemma_seq_value_views(l@);
                assert(spec_format_value(v@) == spec_format_list(lv));
            }
            out
        },
        StepValue::Null => chars_of_str("-"),
        StepValue::Derived => chars_of_str("*"),
    }
}

/// The display form of one attribute value.
pub fn format_step_value(v: &StepValue) -> (r: String)
    ensures
        r@ == spec_format_value(v@),
{
    let out = format_value_chars(v);
    chars_to_string(&out)
}

/// Binds a key in an association vector: an existing entry's value is
/// replaced in place, a new key is appended.
pub fn alist_put<V>(m: &mut Vec<(u64, V)>, k: u64, v: V)
    ensures
        final(m)@ == alist_set(old(m)@, k, v),
{
    let n = m.len();
    let mut j: usize = 0;
    while j < n
        invariant
            j <= n,
            n == m@.len(),
            m@ == old(m)@,
            forall|t: int| 0 <= t < j ==> (#[trigger] m@[t]).0 != k,
        decreases n - j,
    {
        if m[j].0 == k {
            proof {
                lemma_alist_index_at(m@, k, j as int);
            }
            m.remove(j);
            m.insert(j, (k, v));
            proof {
                assert(m@ =~= alist_set(old(m)@, k, v));
            }
            return ;
        }
        j = j + 1;
    }
    proof {
        lemma_alist_index_none(m@, k);
    }
    m.push((k, v));
}

/// The position of a key in an association vector.
pub fn alist_find<V>(m: &Vec<(u64, V)>, k: u64) -> (r: Option<usize>)
    ensures
        match r {
            Some(j) => alist_index(m@, k) == Some(j as int) && j < m@.len() && m@[j as int].0 == k,
            None => alist_index(m@, k) is None,
        },
{
    let n = m.len();
    let mut j: usize = 0;
    while j < n
        invariant
            j <= n,
            n == m@.len(),
            forall|t: int| 0 <= t < j ==> (#[trigger] m@[t]).0 != k,
        decreases n - j,
    {
        if m[j].0 == k {
            proof {
                lemma_alist_index_at(m@, k, j as int);
            }
            return Some(j);
        }
        j = j + 1;
    }
    proof {
        lemma_alist_index_none(m@, k);
    }
    None
}

/// One containment relationship record: every related element is bound
/// to the relating structure, later records overwriting earlier ones.
pub open spec fn spec_contain_step(m: Seq<(u64, u64)>, rel: RecordV) -> Seq<(u64, u64)> {
    match spec_ref_at(rel, 5) {
        Some(sid) => spec_insert_ids(m, spec_list_refs(rel, 4), sid),
        None => m,
    }
}

pub open spec fn spec_insert_ids(m: Seq<(u64, u64)>, ids: Seq<u64>, sid: u64) -> Seq<(u64, u64)>
    decreases ids.len(),
{
    if ids.len() == 0 {
        m
    } else {
        alist_set(spec_insert_ids(m, ids.drop_last(), sid), ids.last(), sid)
    }
}

pub open spec fn spec_containment_fold(rels: Seq<RecordV>) -> Seq<(u64, u64)>
    decreases rels.len(),
{
    if rels.len() == 0 {
        Seq::<(u64, u64)>::empty()
    } else {
        spec_contain_step(spec_containment_fold(rels.drop_last()), rels.last())
    }
}

/// The element-to-storey containment map of a record table.
pub open spec fn spec_containment(rs: Seq<RecordV>) -> Seq<(u64, u64)> {
    spec_containment_fold(spec_by_kind(rs, "IFCRELCONTAINEDINSPATIALSTRUCTURE"@))
}

/// Derives the element-to-storey map from the containment
/// relationship records.
pub fn extract_spatial_containment(step_file: &StepFile) -> (r: Vec<(u64, u64)>)
    ensures
        r@ == spec_containment(step_file@.records),
{
    let rels = step_file.get_entities_by_type("IFCRELCONTAINEDINSPATIALSTRUCTURE");
    let ghost rv = spec_by_kind(step_file@.records, "IFCRELCONTAINEDINSPATIALSTRUCTURE"@);
    let n = rels.len();
    let mut m: Vec<(u64, u64)> = Vec::new();
    let mut i: usize = 0;
    proof {
        assert(m@ =~= spec_containment_fold(rv.take(0)));
    }
    while i < n
        invariant
            i <= n,
            n == rels@.len(),
            entity_ref_views(rels@) == rv,
            m@ == spec_containment_fold(rv.take(i as int)),
        decreases n - i,
    {
        proof {
            assert(rv.take(i + 1).drop_last() =~= rv.take(i as int));
            assert(rv.take(i + 1).last() == rv[i as int]);
            assert(rv[i as int] == rels@[i as int]@);
        }
        let rel = rels[i];
        let ids = rel.ref_ids_at(4);
        match rel.ref_at(5) {
            Some(sid) => {
                let k = ids.len();
                let mut j: usize = 0;
                proof {
                    assert(ids@.take(0).len() == 0);
                }
                while j < k
                    invariant
                        j <= k,
                        k == ids@.len(),
                        ids@ == spec_list_refs(rv[i as int], 4),
                        m@ == spec_insert_ids(
                            spec_containment_fold(rv.take(i as int)),
                            ids@.take(j as int),
                            sid,
                        ),
                    decreases k - j,
                {
                    proof {
                        assert(ids@.take(j + 1).drop_last() =~= ids@.take(j as int));
                        assert(ids@.take(j + 1).last() == ids@[j as int]);
                    }
                    alist_put(&mut m, ids[j], sid);
                    j = j + 1;
                }
                proof {
                    assert(ids@.take(k as int) =~= ids@);
                }
            },
            None => {
            },
        }
        i = i + 1;
    }
    proof {
        assert(rv.take(n as int) =~= rv);
    }
    m
}

/// One type-definition relationship record: the related objects are
/// appended to the relating type's instance list.
pub open spec fn spec_typerel_step(m: Seq<(u64, Seq<u64>)>, rel: RecordV) -> Seq<(u64, Seq<u64>)> {
    match spec_ref_at(rel, 5) {
        Some(tid) => {
            let ids = spec_list_refs(rel, 4);
            match alist_index(m, tid) {
                Some(j) => m.update(j, (tid, m[j].1 + ids)),
                None => m.push((tid, ids)),
            }
        },
        None => m,
    }
}

pub open spec fn spec_typerel_fold(rels: Seq<RecordV>) -> Seq<(u64, Seq<u64>)>
    decreases rels.len(),
{
    if rels.len() == 0 {
        Seq::<(u64, Seq<u64>)>::empty()
    } else {
        spec_typerel_step(spec_typerel_fold(rels.drop_last()), rels.last())
    }
}

/// The type-to-instances membership map of a record table.
pub open spec fn spec_type_instances(rs: Seq<RecordV>) -> Seq<(u64, Seq<u64>)> {
    spec_typerel_fold(spec_by_kind(rs, "IFCRELDEFINESBYTYPE"@))
}

/// The view of a type-to-instances map held in vectors.
pub open spec fn t2i_view(s: Seq<(u64, Vec<u64>)>) -> Seq<(u64, Seq<u64>)> {
    Seq::new(s.len(), |i: int| (s[i].0, s[i].1@))
}

/// Derives the type-to-instances map from the type-definition
/// relationship records.
pub fn extract_type_relationships(step_file: &StepFile) -> (r: Vec<(u64, Vec<u64>)>)
    ensures
        t2i_view(r@) == spec_type_instances(step_file@.records),
{
    let rels = step_file.get_entities_by_type("IFCRELDEFINESBYTYPE");
    let ghost rv = spec_by_kind(step_file@.records, "IFCRELDEFINESBYTYPE"@);
    let n = rels.len();
    let mut m: Vec<(u64, Vec<u64>)> = Vec::new();
    let mut i: usize = 0;
    proof {
        assert(t2i_view(m@) =~= spec_typerel_fold(rv.take(0)));
    }
    while i < n
        invariant
            i <= n,
            n == rels@.len(),
            entity_ref_views(rels@) == rv,
            t2i_view(m@) == spec_typerel_fold(rv.take(i as int)),
        decreases n - i,
    {
        proof {
            assert(rv.take(i + 1).drop_last() =~= rv.take(i as int));
            assert(rv.take(i + 1).last() == rv[i as int]);
            assert(rv[i as int] == rels@[i as int]@);
        }
        let rel = rels[i];
        let mut ids = rel.ref_ids_at(4);
        match rel.ref_at(5) {
            Some(tid) => {
                let ghost before = t2i_view(m@);
                match alist_find_vecs(&m, tid) {
                    Some(j) => {
                        proof {
                            assert(alist_index(before, tid) == Some(j as int));
                        }
                        let mut entry = m.remove(j);
                        entry.1.append(&mut ids);
                        m.insert(j, entry);
                        proof {
                            assert(t2i_view(m@) =~= before.update(
                                j as int,
                                (tid, before[j as int].1 + spec_list_refs(rv[i as int], 4)),
                            ));
                        }
                    },
                    None => {
                        proof {
                            assert(alist_index(before, tid) is None);
                        }
                        m.push((tid, ids));
                        proof {
                            assert(t2i_view(m@) =~= before.push(
                                (tid, spec_list_refs(rv[i as int], 4)),
                            ));
                        }
                    },
                }
            },
            None => {
            },
        }
        i = i + 1;
    }
    proof {
        assert(rv.take(n as int) =~= rv);
    }
    m
}

/// The position of a key in a vector-valued association vector.
pub(crate) fn alist_find_vecs(m: &Vec<(u64, Vec<u64>)>, k: u64) -> (r: Option<usize>)
    ensures
        match r {
            Some(j) => alist_index(t2i_view(m@), k) == Some(j as int) && j < m@.len()
                && m@[j as int].0 == k,
            None => alist_index(t2i_view(m@), k) is None,
        },
{
    let ghost mv = t2i_view(m@);
    let n = m.len();
    let mut j: usize = 0;
    while j < n
        invariant
            j <= n,
            n == m@.len(),
            mv == t2i_view(m@),
            forall|t: int| 0 <= t < j ==> (#[trigger] mv[t]).0 != k,
        decreases n - j,
    {
        if m[j].0 == k {
            proof {
                assert(mv[j as int].0 == k);
                lemma_alist_index_at(mv, k, j as int);
            }
            return Some(j);
        }
        proof {
            assert(mv[j as int].0 == m@[j as int].0);
        }
        j = j + 1;
    }
    proof {
        lemma_alist_index_none(mv, k);
    }
    None
}

/// One instance id: its first attribute, when text, becomes its
/// identifying code, later writes overwriting earlier ones.
pub open spec fn spec_gid_step(rs: Seq<RecordV>, g: Seq<(u64, Seq<char>)>, id: u64) -> Seq<
    (u64, Seq<char>),
> {
    match spec_find_record(rs, id) {
        Some(rec) => match spec_string_at(rec, 0) {
            Some(gid) => alist_set(g, id, gid),
            None => g,
        },
        None => g,
    }
}

pub open spec fn spec_gid_ids(rs: Seq<RecordV>, g: Seq<(u64, Seq<char>)>, ids: Seq<u64>) -> Seq<
    (u64, Seq<char>),
>
    decreases ids.len(),
{
    if ids.len() == 0 {
        g
    } else {
        spec_gid_step(rs, spec_gid_ids(rs, g, ids.drop_last()), ids.last())
    }
}

pub open spec fn spec_gid_entries(rs: Seq<RecordV>, entries: Seq<(u64, Seq<u64>)>) -> Seq<
    (u64, Seq<char>),
>
    decreases entries.len(),
{
    if entries.len() == 0 {
        Seq::<(u64, Seq<char>)>::empty()
    } else {
        spec_gid_ids(rs, spec_gid_entries(rs, entries.drop_last()), entries.last().1)
    }
}

/// The identifying codes of every instance named by the membership map.
pub open spec fn spec_instance_gids(rs: Seq<RecordV>, t2i: Seq<(u64, Seq<u64>)>) -> Seq<
    (u64, Seq<char>),
> {
    spec_gid_entries(rs, t2i)
}

/// Binds an id to a name, replacing an existing binding in place.
fn gid_put(m: &mut Vec<(u64, String)>, k: u64, v: String)
    ensures
        crate::model::gid_map_view(final(m)@) == alist_set(
            crate::model::gid_map_view(old(m)@),
            k,
            v@,
        ),
{
    let ghost mv = crate::model::gid_map_view(m@);
    let n = m.len();
    let mut j: usize = 0;
    while j < n
        invariant
            j <= n,
            n == m@.len(),
            m@ == old(m)@,
            mv == crate::model::gid_map_view(m@),
            forall|t: int| 0 <= t < j ==> (#[trigger] mv[t]).0 != k,
        decreases n - j,
    {
        if m[j].0 == k {
            proof {
                assert(mv[j as int].0 == k);
                lemma_alist_index_at(mv, k, j as int);
            }
            m.remove(j);
            m.insert(j, (k, v));
            proof {
                assert(crate::model::gid_map_view(m@) =~= alist_set(mv, k, v@));
            }
            return ;
        }
        proof {
            assert(mv[j as int].0 == m@[j as int].0);
        }
        j = j + 1;
    }
    proof {
        lemma_alist_index_none(mv, k);
    }
    m.push((k, v));
    proof {
        assert(crate::model::gid_map_view(m@) =~= alist_set(mv, k, v@));
    }
}

/// Collects the identifying code of every instance named by the
/// membership map.
pub fn extract_instance_global_ids(
    step_file: &StepFile,
    type_to_instances: &Vec<(u64, Vec<u64>)>,
) -> (r: Vec<(u64, String)>)
    ensures
        crate::model::gid_map_view(r@) == spec_instance_gids(
            step_file@.records,
            t2i_view(type_to_instances@),
        ),
{
    let ghost rs = step_file@.records;
    let ghost entries = t2i_view(type_to_instances@);
    let n = type_to_instances.len();
    let mut g: Vec<(u64, String)> = Vec::new();
    let mut i: usize = 0;
    proof {
        assert(crate::model::gid_map_view(g@) =~= spec_gid_entries(rs, entries.take(0)));
    }
    while i < n
        invariant
            i <= n,
            n == type_to_instances@.len(),
            rs == step_file@.records,
            entries == t2i_view(type_to_instances@),
            crate::model::gid_map_view(g@) == spec_gid_entries(rs, entries.take(i as int)),
        decreases n - i,
    {
        proof {
            assert(entries.take(i + 1).drop_last() =~= entries.take(i as int));
            assert(entries.take(i + 1).last() == entries[i as int]);
            assert(entries[i as int].1 == type_to_instances@[i as int].1@);
        }
        let ids = &type_to_instances[i].1;
        let k = ids.len();
        let mut j: usize = 0;
        proof {
            assert(ids@.take(0).len() == 0);
        }
        while j < k
            invariant
                j <= k,
                i < n,
                n == type_to_instances@.len(),
                k == ids@.len(),
                rs == step_file@.records,
                ids@ == type_to_instances@[i as int].1@,
                entries == t2i_view(type_to_instances@),
                crate::model::gid_map_view(g@) == spec_gid_ids(
                    rs,
                    spec_gid_entries(rs, entries.take(i as int)),
                    ids@.take(j as int),
                ),
            decreases k - j,
        {
            proof {
                assert(ids@.take(j + 1).drop_last() =~= ids@.take(j as int));
                assert(ids@.take(j + 1).last() == ids@[j as int]);
            }
            let id = ids[j];
            match step_file.get_entity(id) {
                Some(ent) => {
                    match ent.string_at(0) {
                        Some(gid) => {
                            let gid2 = gid.clone();
                            gid_put(&mut g, id, gid2);
                        },
                        None => {
                        },
                    }
                },
                None => {
                },
            }
            j = j + 1;
        }
        proof {
            assert(ids@.take(k as int) =~= ids@);
        }
        i = i + 1;
    }
    proof {
        assert(entries.take(n as int) =~= entries);
    }
    g
}

/// One member of a property set: a single-value property record adds
/// its name and formatted value, the name's later writes overwriting
/// earlier ones; an empty name adds nothing.
pub open spec fn spec_pset_member(
    rs: Seq<RecordV>,
    props: Seq<(Seq<char>, Seq<char>)>,
    pid: u64,
) -> Seq<(Seq<char>, Seq<char>)> {
    match spec_find_record(rs, pid) {
        Some(prop) => if prop.kind == "IFCPROPERTYSINGLEVALUE"@ {
            let name = match spec_string_at(prop, 0) {
                Some(s) => s,
                None => Seq::<char>::empty(),
            };
            let value = match crate::value::spec_attr(prop, 2) {
                Some(v) => spec_format_value(v),
                None => Seq::<char>::empty(),
            };
            if name.len() > 0 {
                crate::model::prop_set(props, name, value)
            } else {
                props
            }
        } else {
            props
        },
        None => props,
    }
}

pub open spec fn spec_pset_members(rs: Seq<RecordV>, pids: Seq<u64>) -> Seq<
    (Seq<char>, Seq<char>),
>
    decreases pids.len(),
{
    if pids.len() == 0 {
        Seq::<(Seq<char>, Seq<char>)>::empty()
    } else {
        spec_pset_member(rs, spec_pset_members(rs, pids.drop_last()), pids.last())
    }
}

/// The resolved name-to-value table of one property-set record.
pub open spec fn spec_pset_table(rs: Seq<RecordV>, pset: RecordV) -> Seq<(Seq<char>, Seq<char>)> {
    spec_pset_members(rs, spec_list_refs(pset, 4))
}

pub open spec fn spec_psets_fold(rs: Seq<RecordV>, psets: Seq<RecordV>) -> Seq<
    (u64, Seq<(Seq<char>, Seq<char>)>),
>
    decreases psets.len(),
{
    if psets.len() == 0 {
        Seq::<(u64, Seq<(Seq<char>, Seq<char>)>)>::empty()
    } else {
        alist_set(
            spec_psets_fold(rs, psets.drop_last()),
            psets.last().id,
            spec_pset_table(rs, psets.last()),
        )
    }
}

/// Every property-set record resolved to its table.
pub open spec fn spec_psets(rs: Seq<RecordV>) -> Seq<(u64, Seq<(Seq<char>, Seq<char>)>)> {
    spec_psets_fold(rs, spec_by_kind(rs, "IFCPROPERTYSET"@))
}

/// One target object of a property-assignment record accumulates the
/// resolved table, earlier-seen names keeping their values.
pub open spec fn spec_assign_id(
    ep: Seq<(u64, Seq<(Seq<char>, Seq<char>)>)>,
    id: u64,
    props: Seq<(Seq<char>, Seq<char>)>,
) -> Seq<(u64, Seq<(Seq<char>, Seq<char>)>)> {
    match alist_index(ep, id) {
        Some(j) => ep.update(j, (id, crate::model::prop_merge_absent(ep[j].1, props))),
        None => ep.push(
            (id, crate::model::prop_merge_absent(Seq::<(Seq<char>, Seq<char>)>::empty(), props)),
        ),
    }
}

pub open spec fn spec_assign_ids(
    ep: Seq<(u64, Seq<(Seq<char>, Seq<char>)>)>,
    ids: Seq<u64>,
    props: Seq<(Seq<char>, Seq<char>)>,
) -> Seq<(u64, Seq<(Seq<char>, Seq<char>)>)>
    decreases ids.len(),
{
    if ids.len() == 0 {
        ep
    } else {
        spec_assign_id(spec_assign_ids(ep, ids.drop_last(), props), ids.last(), props)
    }
}

pub open spec fn spec_assign_step(
    psets: Seq<(u64, Seq<(Seq<char>, Seq<char>)>)>,
    ep: Seq<(u64, Seq<(Seq<char>, Seq<char>)>)>,
    rel: RecordV,
) -> Seq<(u64, Seq<(Seq<char>, Seq<char>)>)> {
    match spec_ref_at(rel, 5) {
        Some(pid) => match alist_get(psets, pid) {
            Some(props) => spec_assign_ids(ep, spec_list_refs(rel, 4), props),
            None => ep,
        },
        None => ep,
    }
}

pub open spec fn spec_assign_fold(
    psets: Seq<(u64, Seq<(Seq<char>, Seq<char>)>)>,
    rels: Seq<RecordV>,
) -> Seq<(u64, Seq<(Seq<char>, Seq<char>)>)>
    decreases rels.len(),
{
    if rels.len() == 0 {
        Seq::<(u64, Seq<(Seq<char>, Seq<char>)>)>::empty()
    } else {
        spec_assign_step(psets, spec_assign_fold(psets, rels.drop_last()), rels.last())
    }
}

/// The instance-to-properties map of a record table.
pub open spec fn spec_element_properties(rs: Seq<RecordV>) -> Seq<
    (u64, Seq<(Seq<char>, Seq<char>)>),
> {
    spec_assign_fold(spec_psets(rs), spec_by_kind(rs, "IFCRELDEFINESBYPROPERTIES"@))
}

/// Binds a property name, replacing an existing value in place.
pub(crate) fn prop_put(ps: &mut Vec<(String, String)>, name: String, value: String)
    ensures
        crate::model::props_view(final(ps)@) == crate::model::prop_set(
            crate::model::props_view(old(ps)@),
            name@,
            value@,
        ),
{
    let ghost pv = crate::model::props_view(ps@);
    let n = ps.len();
    let mut j: usize = 0;
    while j < n
        invariant
            j <= n,
            n == ps@.len(),
            ps@ == old(ps)@,
            pv == crate::model::props_view(ps@),
            forall|t: int| 0 <= t < j ==> (#[trigger] pv[t]).0 != name@,
        decreases n - j,
    {
        proof {
            assert(pv[j as int].0 == ps@[j as int].0@);
        }
        if crate::text::str_eq(ps[j].0.as_str(), name.as_str()) {
            proof {
                crate::model::lemma_prop_index_at(pv, name@, j as int);
            }
            ps.remove(j);
            ps.insert(j, (name, value));
            proof {
                assert(crate::model::props_view(ps@) =~= crate::model::prop_set(pv, name@, value@));
            }
            return ;
        }
        j = j + 1;
    }
    proof {
        crate::model::lemma_prop_index_none(pv, name@);
    }
    ps.push((name, value));
    proof {
        assert(crate::model::props_view(ps@) =~= crate::model::prop_set(pv, name@, value@));
    }
}

/// Adds a property only when the name is not yet bound.
fn prop_push_absent(ps: &mut Vec<(String, String)>, name: String, value: String)
    ensures
        crate::model::props_view(final(ps)@) == crate::model::prop_add_if_absent(
            crate::model::props_view(old(ps)@),
            name@,
            value@,
        ),
{
    let ghost pv = crate::model::props_view(ps@);
    let n = ps.len();
    let mut j: usize = 0;
    while j < n
        invariant
            j <= n,
            n == ps@.len(),
            ps@ == old(ps)@,
            pv == crate::model::props_view(ps@),
            forall|t: int| 0 <= t < j ==> (#[trigger] pv[t]).0 != name@,
        decreases n - j,
    {
        proof {
            assert(pv[j as int].0 == ps@[j as int].0@);
        }
        if crate::text::str_eq(ps[j].0.as_str(), name.as_str()) {
            proof {
                crate::model::lemma_prop_index_at(pv, name@, j as int);
            }
            return ;
        }
        j = j + 1;
    }
    proof {
        crate::model::lemma_prop_index_none(pv, name@);
    }
    ps.push((name, value));
    proof {
        assert(crate::model::props_view(ps@) =~= crate::model::prop_add_if_absent(
            pv,
            name@,
            value@,
        ));
    }
}

/// Merges a second table into the first, first-write-wins per name.
pub(crate) fn prop_merge(ps: &mut Vec<(String, String)>, other: &Vec<(String, String)>)
    ensures
        crate::model::props_view(final(ps)@) == crate::model::prop_merge_absent(
            crate::model::props_view(old(ps)@),
            crate::model::props_view(other@),
        ),
{
    let ghost ov = crate::model::props_view(other@);
    let n = other.len();
    let mut j: usize = 0;
    while j < n
        invariant
            j <= n,
            n == other@.len(),
            ov == crate::model::props_view(other@),
            crate::model::props_view(ps@) == crate::model::prop_merge_absent(
                crate::model::props_view(old(ps)@),
                ov.take(j as int),
            ),
        decreases n - j,
    {
        proof {
            assert(ov.take(j + 1).drop_last() =~= ov.take(j as int));
            assert(ov.take(j + 1).last() == ov[j as int]);
            assert(ov[j as int] == (other@[j as int].0@, other@[j as int].1@));
        }
        let name = other[j].0.clone();
        let value = other[j].1.clone();
        prop_push_absent(ps, name, value);
        j = j + 1;
    }
    proof {
        assert(ov.take(n as int) =~= ov);
    }
}

/// The view of a property-set table map held in vectors.
pub open spec fn pset_map_view(s: Seq<(u64, Vec<(String, String)>)>) -> Seq<
    (u64, Seq<(Seq<char>, Seq<char>)>),
> {
    crate::model::prop_map_view(s)
}

/// Binds a property-set id to its table, replacing in place.
fn pset_put(m: &mut Vec<(u64, Vec<(String, String)>)>, k: u64, v: Vec<(String, String)>)
    ensures
        pset_map_view(final(m)@) == alist_set(pset_map_view(old(m)@), k, crate::model::props_view(v@)),
{
    let ghost mv = pset_map_view(m@);
    let n = m.len();
    let mut j: usize = 0;
    while j < n
        invariant
            j <= n,
            n == m@.len(),
            m@ == old(m)@,
            mv == pset_map_view(m@),
            forall|t: int| 0 <= t < j ==> (#[trigger] mv[t]).0 != k,
        decreases n - j,
    {
        proof {
            assert(mv[j as int].0 == m@[j as int].0);
        }
        if m[j].0 == k {
            proof {
                lemma_alist_index_at(mv, k, j as int);
            }
            m.remove(j);
            m.insert(j, (k, v));
            proof {
                assert(pset_map_view(m@) =~= alist_set(mv, k, crate::model::props_view(v@)));
            }
            return ;
        }
        j = j + 1;
    }
    proof {
        lemma_alist_index_none(mv, k);
    }
    m.push((k, v));
    proof {
        assert(pset_map_view(m@) =~= alist_set(mv, k, crate::model::props_view(v@)));
    }
}

/// One target object accumulates a resolved table.
fn ep_accumulate(
    ep: &mut Vec<(u64, Vec<(String, String)>)>,
    id: u64,
    props: &Vec<(String, String)>,
)
    ensures
        crate::model::prop_map_view(final(ep)@) == spec_assign_id(
            crate::model::prop_map_view(old(ep)@),
            id,
            crate::model::props_view(props@),
        ),
{
    let ghost mv = crate::model::prop_map_view(ep@);
    let n = ep.len();
    let mut j: usize = 0;
    while j < n
        invariant
            j <= n,
            n == ep@.len(),
            ep@ == old(ep)@,
            mv == crate::model::prop_map_view(ep@),
            forall|t: int| 0 <= t < j ==> (#[trigger] mv[t]).0 != id,
        decreases n - j,
    {
        proof {
            assert(mv[j as int].0 == ep@[j as int].0);
        }
        if ep[j].0 == id {
            proof {
                lemma_alist_index_at(mv, id, j as int);
            }
            let mut entry = ep.remove(j);
            prop_merge(&mut entry.1, props);
            ep.insert(j, entry);
            proof {
                assert(crate::model::prop_map_view(ep@) =~= spec_assign_id(
                    mv,
                    id,
                    crate::model::props_view(props@),
                ));
            }
            return ;
        }
        j = j + 1;
    }
    proof {
        lemma_alist_index_none(mv, id);
    }
    let mut fresh: Vec<(String, String)> = Vec::new();
    proof {
        assert(crate::model::props_view(fresh@) =~= Seq::<(Seq<char>, Seq<char>)>::empty());
    }
    prop_merge(&mut fresh, props);
    ep.push((id, fresh));
    proof {
        assert(crate::model::prop_map_view(ep@) =~= spec_assign_id(
            mv,
            id,
            crate::model::props_view(props@),
        ));
    }
}

/// Resolves property-set records and assigns their tables to the
/// related objects, first-write-wins per property name.
#[verifier::rlimit(60)]
pub fn extract_property_sets(step_file: &StepFile) -> (r: Vec<(u64, Vec<(String, String)>)>)
    ensures
        crate::model::prop_map_view(r@) == spec_element_properties(step_file@.records),
{
    let ghost rs = step_file@.records;
    // resolve each property set into its table
    let psets = step_file.get_entities_by_type("IFCPROPERTYSET");
    let ghost pv = spec_by_kind(rs, "IFCPROPERTYSET"@);
    let n = psets.len();
    let mut pset_props: Vec<(u64, Vec<(String, String)>)> = Vec::new();
    let mut i: usize = 0;
    proof {
        assert(pset_map_view(pset_props@) =~= spec_psets_fold(rs, pv.take(0)));
    }
    while i < n
        invariant
            i <= n,
            n == psets@.len(),
            rs == step_file@.records,
            entity_ref_views(psets@) == pv,
            pset_map_view(pset_props@) == spec_psets_fold(rs, pv.take(i as int)),
        decreases n - i,
    {
        proof {
            assert(pv.take(i + 1).drop_last() =~= pv.take(i as int));
            assert(pv.take(i + 1).last() == pv[i as int]);
            assert(pv[i as int] == psets@[i as int]@);
        }
        let pset = psets[i];
        let member_ids = pset.ref_ids_at(4);
        let k = member_ids.len();
        let mut props: Vec<(String, String)> = Vec::new();
        let mut j: usize = 0;
        proof {
            assert(crate::model::props_view(props@) =~= spec_pset_members(
                rs,
                member_ids@.take(0),
            ));
        }
        while j < k
            invariant
                j <= k,
                k == member_ids@.len(),
                rs == step_file@.records,
                crate::model::props_view(props@) == spec_pset_members(
                    rs,
                    member_ids@.take(j as int),
                ),
            decreases k - j,
        {
            proof {
                assert(member_ids@.take(j + 1).drop_last() =~= member_ids@.take(j as int));
                assert(member_ids@.take(j + 1).last() == member_ids@[j as int]);
            }
            let pid = member_ids[j];
            match step_file.get_entity(pid) {
                Some(prop) => {
                    if crate::text::str_eq(prop.entity_type.as_str(), "IFCPROPERTYSINGLEVALUE") {
                        let name: String = match prop.string_at(0) {
                            Some(sref) => sref.clone(),
                            None => String::new(),
                        };
                        let value: String = if prop.values.len() > 2 {
                            proof {
                                assert(prop@.attrs[2] == crate::value::value_view(
                                    prop.values@[2],
                                ));
                            }
                            format_step_value(&prop.values[2])
                        } else {
                            String::new()
                        };
                        if !name.as_str().is_empty() {
                            prop_put(&mut props, name, value);
                        }
                    }
                },
                None => {
                },
            }
            j = j + 1;
        }
        proof {
            assert(member_ids@.take(k as int) =~= member_ids@);
            assert(member_ids@ == spec_list_refs(pv[i as int], 4));
        }
        pset_put(&mut pset_props, pset.id, props);
        i = i + 1;
    }
    proof {
        assert(pv.take(n as int) =~= pv);
    }
    let ghost pstab = spec_psets(rs);
    // assign each resolved table to the related objects
    let rels = step_file.get_entities_by_type("IFCRELDEFINESBYPROPERTIES");
    let ghost rv = spec_by_kind(rs, "IFCRELDEFINESBYPROPERTIES"@);
    let rn = rels.len();
    let mut ep: Vec<(u64, Vec<(String, String)>)> = Vec::new();
    let mut i2: usize = 0;
    proof {
        assert(crate::model::prop_map_view(ep@) =~= spec_assign_fold(pstab, rv.take(0)));
    }
    while i2 < rn
        invariant
            i2 <= rn,
            rn == rels@.len(),
            rs == step_file@.records,
            entity_ref_views(rels@) == rv,
            pstab == spec_psets(rs),
            pset_map_view(pset_props@) == pstab,
            crate::model::prop_map_view(ep@) == spec_assign_fold(pstab, rv.take(i2 as int)),
        decreases rn - i2,
    {
        proof {
            assert(rv.take(i2 + 1).drop_last() =~= rv.take(i2 as int));
            assert(rv.take(i2 + 1).last() == rv[i2 as int]);
            assert(rv[i2 as int] == rels@[i2 as int]@);
        }
        let rel = rels[i2];
        let targets = rel.ref_ids_at(4);
        match rel.ref_at(5) {
            Some(pid) => {
                match alist_find(&pset_props, pid) {
                    Some(pj) => {
                        proof {
                            assert(alist_index(pstab, pid) == Some(pj as int)) by {
                                lemma_alist_index_keys(pset_props@, pid, pj as int);
                            }
                            assert(alist_get(pstab, pid) == Some(
                                crate::model::props_view(pset_props@[pj as int].1@),
                            ));
                        }
                        let tn = targets.len();
                        let mut t: usize = 0;
                        proof {
                            assert(targets@.take(0).len() == 0);
                        }
                        while t < tn
                            invariant
                                t <= tn,
                                tn == targets@.len(),
                                pj < pset_props@.len(),
                                pstab == spec_psets(rs),
                                pset_map_view(pset_props@) == pstab,
                                targets@ == spec_list_refs(rv[i2 as int], 4),
                                alist_get(pstab, spec_ref_at(rv[i2 as int], 5)->0)
                                    == Some(crate::model::props_view(pset_props@[pj as int].1@)),
                                spec_ref_at(rv[i2 as int], 5) == Some(pj_key(pset_props@, pj as int)),
                                crate::model::prop_map_view(ep@) == spec_assign_ids(
                                    spec_assign_fold(pstab, rv.take(i2 as int)),
                                    targets@.take(t as int),
                                    crate::model::props_view(pset_props@[pj as int].1@),
                                ),
                            decreases tn - t,
                        {
                            proof {
                                assert(targets@.take(t + 1).drop_last() =~= targets@.take(
                                    t as int,
                                ));
                                assert(targets@.take(t + 1).last() == targets@[t as int]);
                            }
                            let props_ref = &pset_props[pj].1;
                            ep_accumulate(&mut ep, targets[t], props_ref);
                            t = t + 1;
                        }
                        proof {
                            assert(targets@.take(tn as int) =~= targets@);
                        }
                    },
                    None => {
                        proof {
                            lemma_alist_index_none_keys(pset_props@, pid);
                        }
                    },
                }
            },
            None => {
            },
        }
        i2 = i2 + 1;
    }
    proof {
        assert(rv.take(rn as int) =~= rv);
    }
    ep
}

/// The key at a position of a property-set table map.
pub open spec fn pj_key(s: Seq<(u64, Vec<(String, String)>)>, j: int) -> u64 {
    s[j].0
}

proof fn lemma_alist_index_keys(s: Seq<(u64, Vec<(String, String)>)>, k: u64, j: int)
    requires
        alist_index(s, k) == Some(j),
        0 <= j < s.len(),
    ensures
        alist_index(pset_map_view(s), k) == Some(j),
    decreases s.len(),
{
    if j > 0 {
        lemma_alist_index_keys(s.skip(1), k, j - 1);
        assert(pset_map_view(s).skip(1) =~= pset_map_view(s.skip(1)));
    } else {
        assert(s[0].0 == k) by {
            crate::model::lemma_alist_index_bounds(s, k);
        }
    }
}

proof fn lemma_alist_index_none_keys(s: Seq<(u64, Vec<(String, String)>)>, k: u64)
    requires
        alist_index(s, k) is None,
    ensures
        alist_index(pset_map_view(s), k) is None,
    decreases s.len(),
{
    if s.len() > 0 {
        lemma_alist_index_none_keys(s.skip(1), k);
        assert(pset_map_view(s).skip(1) =~= pset_map_view(s.skip(1)));
    }
}

} // verus!

//! The record extractor: raw exchange-structure text into a flat table
//! of numbered entity records and the declared schema name.
//!
//! A two-state line scanner toggles on the exact `DATA;` / `ENDSEC;`
//! marker lines; a line whose prefix is the schema declaration keyword
//! is read in any state, its first single-quoted token becoming the
//! schema; a data-section line beginning with the record-id sigil is
//! matched against `#<digits>=<KIND>(<attributes>);`, and silently
//! dropped when it does not match.

use vstd::prelude::*;
use vstd::string::StringExecFns;

verus! {

use crate::error::ParseError;
use crate::fixpoint::find_char2;
use crate::fixpoint::first_index_of;
use crate::numbers::spec_parse_u64;
use crate::numbers::parse_u64;
use crate::text::chars_at_is_str;
use crate::text::chars_eq_str;
use crate::text::chars_of_str;
use crate::text::chars_to_string;
use crate::text::spec_trim;
use crate::text::str_eq;
use crate::text::subvec;
use crate::text::trimmed_subvec;
use crate::value::RecordV;
use crate::value::StepEntity;
use crate::value::entity_views;
use crate::value::lemma_first_index_bounds;
use crate::value::parse_values;
use crate::value::spec_parse_values;

/// The mathematical form of a parsed file: the declared schema and the
/// record table in input order, ids unique by construction.
#[verifier::ext_equal]
pub struct FileV {
    pub schema: Seq<char>,
    pub records: Seq<RecordV>,
}

/// A parsed exchange-structure file.
#[derive(Debug)]
pub struct StepFile {
    pub entities: Vec<StepEntity>,
    pub schema: String,
}

impl View for StepFile {
    type V = FileV;

    open spec fn view(&self) -> FileV {
        FileV { schema: self.schema@, records: entity_views(self.entities@) }
    }
}

/// The position of the first record with the given id.
pub open spec fn first_id_index(rs: Seq<RecordV>, id: u64) -> Option<int>
    decreases rs.len(),
{
    if rs.len() == 0 {
        None
    } else if rs[0].id == id {
        Some(0int)
    } else {
        match first_id_index(rs.skip(1), id) {
            Some(i) => Some(i + 1),
            None => None,
        }
    }
}

/// The first matching position is exactly the first index whose id
/// matches.
pub proof fn lemma_first_id_index_at(rs: Seq<RecordV>, id: u64, j: int)
    requires
        0 <= j < rs.len(),
        rs[j].id == id,
        forall|t: int| 0 <= t < j ==> rs[t].id != id,
    ensures
        first_id_index(rs, id) == Some(j),
    decreases rs.len(),
{
    if j > 0 {
        lemma_first_id_index_at(rs.skip(1), id, j - 1);
        assert(forall|t: int| 0 <= t < j - 1 ==> rs.skip(1)[t] == rs[t + 1]);
    }
}

pub proof fn lemma_first_id_index_none(rs: Seq<RecordV>, id: u64)
    requires
        forall|t: int| 0 <= t < rs.len() ==> (#[trigger] rs[t]).id != id,
    ensures
        first_id_index(rs, id) is None,
    decreases rs.len(),
{
    if rs.len() > 0 {
        lemma_first_id_index_none(rs.skip(1), id);
    }
}

/// Inserting a record: a record with the same id is replaced in place,
/// otherwise the record is appended.
pub open spec fn spec_insert_record(rs: Seq<RecordV>, r: RecordV) -> Seq<RecordV> {
    match first_id_index(rs, r.id) {
        Some(j) => rs.update(j, r),
        None => rs.push(r),
    }
}

/// The record with the given id, when the table holds one.
pub open spec fn spec_find_record(rs: Seq<RecordV>, id: u64) -> Option<RecordV> {
    match first_id_index(rs, id) {
        Some(j) => Some(rs[j]),
        None => None,
    }
}

/// The records of the given kind, in table order.
pub open spec fn spec_by_kind(rs: Seq<RecordV>, kind: Seq<char>) -> Seq<RecordV>
    decreases rs.len(),
{
    if rs.len() == 0 {
        Seq::<RecordV>::empty()
    } else {
        let rest = spec_by_kind(rs.drop_last(), kind);
        if rs.last().kind == kind {
            rest.push(rs.last())
        } else {
            rest
        }
    }
}

/// `l` with every trailing semicolon removed.
pub open spec fn spec_strip_semis(l: Seq<char>) -> Seq<char>
    decreases l.len(),
{
    if l.len() > 0 && l.last() == ';' {
        spec_strip_semis(l.drop_last())
    } else {
        l
    }
}

/// The record denoted by a data-section line, already trimmed, or
/// nothing when the line does not match the record grammar.
pub open spec fn spec_parse_entity_line(l: Seq<char>) -> Option<RecordV> {
    let l0 = spec_strip_semis(l);
    match first_index_of(l0, '=', '=') {
        None => None,
        Some(eq) => if eq < 1 {
            None
        } else {
            match spec_parse_u64(l0.subrange(1, eq)) {
            None => None,
            Some(id) => {
                let rest = l0.skip(eq + 1);
                match first_index_of(rest, '(', '(') {
                    None => None,
                    Some(p) => if rest.len() >= 1 && rest.last() == ')' {
                        Some(
                            RecordV {
                                id: id,
                                kind: rest.take(p),
                                attrs: spec_parse_values(rest.subrange(p + 1, rest.len() - 1)),
                            },
                        )
                    } else {
                        None
                    },
                }
            },
        }
        },
    }
}

/// The first position where a parenthesis-quote pair opens.
pub open spec fn first_open_quote(s: Seq<char>) -> Option<int>
    decreases s.len(),
{
    if s.len() < 2 {
        None
    } else if s[0] == '(' && s[1] == '\'' {
        Some(0int)
    } else {
        match first_open_quote(s.skip(1)) {
            Some(i) => Some(i + 1),
            None => None,
        }
    }
}

/// The schema name declared by a schema line: the span between the
/// first parenthesis-quote pair and the next quote.
pub open spec fn spec_line_schema(l: Seq<char>) -> Option<Seq<char>> {
    match first_open_quote(l) {
        Some(i) => match first_index_of(l.skip(i + 2), '\'', '\'') {
            Some(e) => Some(l.subrange(i + 2, i + 2 + e)),
            None => None,
        },
        None => None,
    }
}

/// The scanner state and table after one trimmed line.
pub open spec fn spec_line_effect(
    l: Seq<char>,
    acc: Seq<RecordV>,
    sch: Seq<char>,
    ind: bool,
) -> (Seq<RecordV>, Seq<char>, bool) {
    if l.len() >= 11 && l.take(11) == "FILE_SCHEMA"@ {
        match spec_line_schema(l) {
            Some(x) => (acc, x, ind),
            None => (acc, sch, ind),
        }
    } else if l == "DATA;"@ {
        (acc, sch, true)
    } else if l == "ENDSEC;"@ {
        (acc, sch, false)
    } else if ind && l.len() > 0 && l[0] == '#' {
        match spec_parse_entity_line(l) {
            Some(r) => (spec_insert_record(acc, r), sch, ind),
            None => (acc, sch, ind),
        }
    } else {
        (acc, sch, ind)
    }
}

/// The scanner over the remaining text, line by line.
pub open spec fn spec_scan(
    s: Seq<char>,
    ind: bool,
    acc: Seq<RecordV>,
    sch: Seq<char>,
) -> (Seq<RecordV>, Seq<char>)
    decreases s.len(),
    via spec_scan_decreases
{
    match first_index_of(s, '\n', '\n') {
        Some(i) => {
            let eff = spec_line_effect(spec_trim(s.take(i)), acc, sch, ind);
            spec_scan(s.skip(i + 1), eff.2, eff.0, eff.1)
        },
        None => {
            let eff = spec_line_effect(spec_trim(s), acc, sch, ind);
            (eff.0, eff.1)
        },
    }
}

#[via_fn]
proof fn spec_scan_decreases(s: Seq<char>, ind: bool, acc: Seq<RecordV>, sch: Seq<char>) {
    crate::value::lemma_first_index_bounds(s, '\n', '\n');
}

/// The parsed form of a whole source text.
pub open spec fn spec_parse_file(s: Seq<char>) -> FileV {
    let r = spec_scan(s, false, Seq::<RecordV>::empty(), Seq::<char>::empty());
    FileV { schema: r.1, records: r.0 }
}

/// Replaces the record with the entity's id, or appends the entity.
fn insert_entity(entities: &mut Vec<StepEntity>, ent: StepEntity)
    ensures
        entity_views(final(entities)@) == spec_insert_record(entity_views(old(entities)@), ent@),
{
    let ghost rs = entity_views(old(entities)@);
    let n = entities.len();
    let mut j: usize = 0;
    while j < n
        invariant
            j <= n,
            n == entities@.len(),
            entities@ == old(entities)@,
            rs == entity_views(old(entities)@),
            forall|t: int| 0 <= t < j ==> (#[trigger] rs[t]).id != ent@.id,
        decreases n - j,
    {
        if entities[j].id == ent.id {
            proof {
                assert(rs[j as int].id == ent@.id);
                lemma_first_id_index_at(rs, ent@.id, j as int);
            }
            entities.remove(j);
            entities.insert(j, ent);
            proof {
                assert(entity_views(entities@) =~= rs.update(j as int, ent@));
            }
            return ;
        }
        proof {
            assert(rs[j as int].id == entities@[j as int]@.id);
        }
        j = j + 1;
    }
    proof {
        lemma_first_id_index_none(rs, ent@.id);
    }
    entities.push(ent);
    proof {
        assert(entity_views(entities@) =~= rs.push(ent@));
    }
}

/// Parses one trimmed data-section line against the record grammar.
#[verifier::rlimit(60)]
fn parse_entity_line(lt: &Vec<char>) -> (r: Option<StepEntity>)
    ensures
        match r {
            Some(e) => spec_parse_entity_line(lt@) == Some(e@),
            None => spec_parse_entity_line(lt@) is None,
        },
{
    // strip every trailing terminator
    let mut e: usize = lt.len();
    proof {
        assert(lt@.take(e as int) =~= lt@);
    }
    while e > 0 && lt[e - 1] == ';'
        invariant
            e <= lt@.len(),
            spec_strip_semis(lt@) == spec_strip_semis(lt@.take(e as int)),
        decreases e,
    {
        proof {
            assert(lt@.take(e as int).last() == lt@[e - 1]);
            assert(lt@.take(e as int).drop_last() =~= lt@.take(e - 1));
        }
        e = e - 1;
    }
    proof {
        if e > 0 {
            assert(lt@.take(e as int).last() == lt@[e - 1]);
        }
        assert(spec_strip_semis(lt@) == lt@.take(e as int));
    }
    let ghost l0 = spec_strip_semis(lt@);
    let eq: usize;
    match find_char2(lt, 0, e, '=', '=') {
        Some(i) => {
            eq = i;
        },
        None => {
            proof {
                assert(lt@.subrange(0, e as int) =~= l0);
            }
            return None;
        },
    }
    proof {
        assert(lt@.subrange(0, e as int) =~= l0);
        assert(first_index_of(l0, '=', '=') == Some(eq as int));
    }
    if eq < 1 {
        return None;
    }
    let id: u64;
    match parse_u64(lt, 1, eq) {
        Some(v) => {
            id = v;
            proof {
                assert(lt@.subrange(1, eq as int) =~= l0.subrange(1, eq as int));
            }
        },
        None => {
            proof {
                assert(lt@.subrange(1, eq as int) =~= l0.subrange(1, eq as int));
            }
            return None;
        },
    }
    let ghost rest = l0.skip(eq + 1);
    proof {
        assert(rest =~= lt@.subrange(eq + 1, e as int));
    }
    let p: usize;
    match find_char2(lt, eq + 1, e, '(', '(') {
        Some(i) => {
            p = i;
        },
        None => {
            return None;
        },
    }
    proof {
        assert(first_index_of(rest, '(', '(') == Some(p - (eq + 1)));
    }
    if e == eq + 1 || lt[e - 1] != ')' {
        proof {
            if e > eq + 1 {
                assert(rest.last() == lt@[e - 1]);
            }
        }
        return None;
    }
    proof {
        assert(rest.last() == lt@[e - 1]);
        lemma_first_index_bounds(rest, '(', '(');
        assert(rest[p - (eq + 1)] == '(');
        assert(p + 1 <= e - 1);
    }
    let kind_chars = subvec(lt, eq + 1, p);
    let vals_chars = subvec(lt, p + 1, e - 1);
    let values = parse_values(&vals_chars);
    let ent = StepEntity {
        id: id,
        entity_type: chars_to_string(&kind_chars),
        values: values,
    };
    proof {
        assert(kind_chars@ =~= rest.take(p - (eq + 1)));
        assert(vals_chars@ =~= rest.subrange(p - (eq + 1) + 1, rest.len() as int - 1));
        assert(ent@.attrs == spec_parse_values(rest.subrange(
            p - (eq + 1) + 1,
            rest.len() as int - 1,
        )));
    }
    Some(ent)
}

/// Applies one trimmed line to the scanner state.
#[verifier::rlimit(60)]
fn scan_line(
    cs: &Vec<char>,
    a: usize,
    b: usize,
    entities: &mut Vec<StepEntity>,
    schema: &mut String,
    in_data: &mut bool,
)
    requires
        a <= b <= cs@.len(),
    ensures
        ({
            let eff = spec_line_effect(
                spec_trim(cs@.subrange(a as int, b as int)),
                entity_views(old(entities)@),
                old(schema)@,
                *old(in_data),
            );
            entity_views(final(entities)@) == eff.0 && final(schema)@ == eff.1 && *final(in_data)
                == eff.2
        }),
{
    let lt = trimmed_subvec(cs, a, b);
    let ghost l = spec_trim(cs@.subrange(a as int, b as int));
    let n = lt.len();
    proof {
        reveal_strlit("FILE_SCHEMA");
    }
    if chars_at_is_str(&lt, 0, "FILE_SCHEMA") {
        proof {
            assert(lt@.subrange(0, 11) =~= l.take(11));
            assert(lt@.subrange(0, n as int) =~= lt@);
        }
        match find_open_quote(&lt, 0, n) {
            Some(i) => {
                match find_char2(&lt, i + 2, n, '\'', '\'') {
                    Some(qe) => {
                        proof {
                            assert(lt@.subrange(i + 2, n as int) =~= l.skip(i + 2));
                            assert(first_index_of(l.skip(i + 2), '\'', '\'') == Some(
                                qe - (i + 2),
                            ));
                        }
                        let sv = subvec(&lt, i + 2, qe);
                        *schema = chars_to_string(&sv);
                        proof {
                            assert(sv@ =~= l.subrange(i + 2, i + 2 + (qe - (i + 2))));
                        }
                    },
                    None => {
                        proof {
                            assert(lt@.subrange(i + 2, n as int) =~= l.skip(i + 2));
                        }
                    },
                }
            },
            None => {
            },
        }
    } else {
        proof {
            if l.len() >= 11 {
                assert(lt@.subrange(0, 11) =~= l.take(11));
            }
        }
        if chars_eq_str(&lt, "DATA;") {
            *in_data = true;
        } else if chars_eq_str(&lt, "ENDSEC;") {
            *in_data = false;
        } else if *in_data && n > 0 && lt[0] == '#' {
            match parse_entity_line(&lt) {
                Some(ent) => {
                    insert_entity(entities, ent);
                },
                None => {
                },
            }
        }
    }
}

/// Finds the first parenthesis-quote pair in `s[from..to]`.
fn find_open_quote(s: &Vec<char>, from: usize, to: usize) -> (r: Option<usize>)
    requires
        from <= to <= s@.len(),
    ensures
        match r {
            Some(i) => from <= i && i + 1 < to && first_open_quote(
                s@.subrange(from as int, to as int),
            ) == Some(i - from),
            None => first_open_quote(s@.subrange(from as int, to as int)) is None,
        },
{
    let ghost whole = s@.subrange(from as int, to as int);
    let mut i: usize = from;
    while i < to
        invariant
            from <= i <= to <= s@.len(),
            whole == s@.subrange(from as int, to as int),
            match first_open_quote(s@.subrange(i as int, to as int)) {
                Some(k) => first_open_quote(whole) == Some(i - from + k),
                None => first_open_quote(whole) is None,
            },
        decreases to - i,
    {
        proof {
            assert(s@.subrange(i as int, to as int)[0] == s@[i as int]);
            if i + 1 < to {
                assert(s@.subrange(i as int, to as int)[1] == s@[i + 1]);
            }
            assert(s@.subrange(i as int, to as int).skip(1) =~= s@.subrange(i + 1, to as int));
        }
        if s[i] == '(' && i + 1 < to && s[i + 1] == '\'' {
            return Some(i);
        }
        i = i + 1;
    }
    proof {
        assert(s@.subrange(to as int, to as int).len() == 0);
    }
    None
}

impl StepFile {
    /// Parses raw exchange-structure text into the record table and
    /// the declared schema.
    pub fn parse(content: &str) -> (r: Result<StepFile, ParseError>)
        ensures
            r matches Ok(f) && f@ == spec_parse_file(content@),
    {
        let cs = chars_of_str(content);
        let n = cs.len();
        let mut entities: Vec<StepEntity> = Vec::new();
        let mut schema: String = String::new();
        let mut in_data: bool = false;
        let mut pos: usize = 0;
        proof {
            assert(cs@.skip(0) =~= cs@);
            assert(entity_views(entities@) =~= Seq::<RecordV>::empty());
        }
        loop
            invariant
                pos <= n,
                n == cs@.len(),
                cs@ == content@,
                spec_scan(content@, false, Seq::<RecordV>::empty(), Seq::<char>::empty())
                    == spec_scan(
                    cs@.skip(pos as int),
                    in_data,
                    entity_views(entities@),
                    schema@,
                ),
            decreases n - pos,
        {
            let ghost rem = cs@.skip(pos as int);
            match find_char2(&cs, pos, n, '\n', '\n') {
                Some(i) => {
                    proof {
                        assert(rem.take(i - pos) =~= cs@.subrange(pos as int, i as int));
                        assert(rem.skip(i - pos + 1) =~= cs@.skip(i + 1));
                    }
                    scan_line(&cs, pos, i, &mut entities, &mut schema, &mut in_data);
                    pos = i + 1;
                },
                None => {
                    proof {
                        assert(rem =~= cs@.subrange(pos as int, n as int));
                    }
                    scan_line(&cs, pos, n, &mut entities, &mut schema, &mut in_data);
                    return Ok(StepFile { entities, schema });
                },
            }
        }
    }

    /// The record with the given id, when the table holds one.
    #[must_use]
    pub fn get_entity(&self, id: u64) -> (r: Option<&StepEntity>)
        ensures
            match r {
                Some(e) => spec_find_record(self@.records, id) == Some(e@),
                None => spec_find_record(self@.records, id) is None,
            },
    {
        let ghost rs = self@.records;
        let n = self.entities.len();
        let mut j: usize = 0;
        while j < n
            invariant
                j <= n,
                n == self.entities@.len(),
                rs == self@.records,
                forall|t: int| 0 <= t < j ==> (#[trigger] rs[t]).id != id,
            decreases n - j,
        {
            if self.entities[j].id == id {
                proof {
                    assert(rs[j as int].id == id);
                    lemma_first_id_index_at(rs, id, j as int);
                }
                return Some(&self.entities[j]);
            }
            proof {
                assert(rs[j as int].id == self.entities@[j as int]@.id);
            }
            j = j + 1;
        }
        proof {
            lemma_first_id_index_none(rs, id);
        }
        None
    }

    /// All records of the given kind, in table order.
    #[must_use]
    pub fn get_entities_by_type(&self, entity_type: &str) -> (r: Vec<&StepEntity>)
        ensures
            crate::value::entity_ref_views(r@) == spec_by_kind(self@.records, entity_type@),
    {
        let ghost rs = self@.records;
        let n = self.entities.len();
        let mut out: Vec<&StepEntity> = Vec::new();
        let mut j: usize = 0;
        proof {
            assert(crate::value::entity_ref_views(out@) =~= spec_by_kind(rs.take(0), entity_type@));
        }
        while j < n
            invariant
                j <= n,
                n == self.entities@.len(),
                rs == self@.records,
                crate::value::entity_ref_views(out@) == spec_by_kind(
                    rs.take(j as int),
                    entity_type@,
                ),
            decreases n - j,
        {
            let e = &self.entities[j];
            proof {
                assert(rs.take(j + 1).drop_last() =~= rs.take(j as int));
                assert(rs.take(j + 1).last() == rs[j as int]);
                assert(rs[j as int] == self.entities@[j as int]@);
            }
            let ghost prev = out@;
            if str_eq(e.entity_type.as_str(), entity_type) {
                out.push(e);
                proof {
                    assert(out@.drop_last() =~= prev);
                    assert(crate::value::entity_ref_views(out@) =~= crate::value::entity_ref_views(
                        prev,
                    ).push(rs[j as int]));
                }
            }
            j = j + 1;
        }
        proof {
            assert(rs.take(n as int) =~= rs);
        }
        out
    }
}

} // verus!

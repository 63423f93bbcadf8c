//! Attribute values: the closed tagged union a record's attribute
//! parses into, and the parser that splits one attribute span into a
//! sequence of typed values.
//!
//! Splitting respects quoting and parenthesis depth.  Each trimmed
//! token is classified, in order: the null token `$`; the derived
//! token `*`; a `#`-prefixed reference; quoted text (decoded); a
//! dot-wrapped boolean or enumeration literal; a parenthesized list; an
//! integer literal; a real literal; a typed wrapper, whose inner span
//! is parsed in its place; otherwise verbatim text.

use vstd::prelude::*;

verus! {

broadcast use {vstd::std_specs::vec::group_vec_axioms, vstd::seq::group_seq_axioms};

use crate::decode::decode_step_chars;
use crate::decode::spec_decode;
use crate::fixpoint::first_index_of;
use crate::fixpoint::parse_i64;
use crate::fixpoint::parse_real;
use crate::fixpoint::spec_parse_i64;
use crate::fixpoint::spec_parse_real;
use crate::numbers::parse_u64;
use crate::numbers::spec_parse_u64;
use crate::text::chars_to_string;
use crate::text::spec_trim;
use crate::text::lemma_trim_bounds;
use crate::text::subvec;
use crate::text::trimmed_subvec;

/// The mathematical form of an attribute value.
pub enum ValueV {
    Text(Seq<char>),
    Real(i64),
    Integer(i64),
    Boolean(bool),
    Enum(Seq<char>),
    Reference(u64),
    List(Seq<ValueV>),
    Null,
    Derived,
}

/// An attribute value.  Real values are held in fixed-point
/// micro-units.
#[derive(Debug, PartialEq)]
pub enum StepValue {
    Text(String),
    Real(i64),
    Integer(i64),
    Boolean(bool),
    Enum(String),
    Reference(u64),
    List(Vec<StepValue>),
    Null,
    Derived,
}

pub open spec fn value_view(v: StepValue) -> ValueV
    decreases v, 0nat,
    via value_view_decreases
{
    match v {
        StepValue::Text(s) => ValueV::Text(s@),
        StepValue::Real(r) => ValueV::Real(r),
        StepValue::Integer(i) => ValueV::Integer(i),
        StepValue::Boolean(b) => ValueV::Boolean(b),
        StepValue::Enum(s) => ValueV::Enum(s@),
        StepValue::Reference(id) => ValueV::Reference(id),
        StepValue::List(l) => ValueV::List(seq_value_views(l@)),
        StepValue::Null => ValueV::Null,
        StepValue::Derived => ValueV::Derived,
    }
}

#[via_fn]
proof fn value_view_decreases(v: StepValue) {
    match v {
        StepValue::List(l) => {
            assert(decreases_to!(l => l@));
        },
        _ => {
        },
    }
}

pub open spec fn seq_value_views(s: Seq<StepValue>) -> Seq<ValueV>
    decreases s, 1nat,
    via seq_value_views_decreases
{
    if s.len() == 0 {
        Seq::<ValueV>::empty()
    } else {
        seq_value_views(s.drop_last()).push(value_view(s.last()))
    }
}

#[via_fn]
proof fn seq_value_views_decreases(s: Seq<StepValue>) {
    if s.len() > 0 {
        assert(decreases_to!(s => s[s.len() - 1]));
        assert(decreases_to!(s => s.drop_last()));
    }
}

impl View for StepValue {
    type V = ValueV;

    open spec fn view(&self) -> ValueV {
        value_view(*self)
    }
}

/// The views of a sequence of values.
pub open spec fn views_of(s: Seq<StepValue>) -> Seq<ValueV> {
    Seq::new(s.len(), |i: int| value_view(s[i]))
}

/// The two forms of a value sequence's view agree.
pub proof fn lemma_seq_value_views(s: Seq<StepValue>)
    ensures
        seq_value_views(s) == views_of(s),
    decreases s.len(),
{
    if s.len() > 0 {
        lemma_seq_value_views(s.drop_last());
        assert(seq_value_views(s) =~= views_of(s));
    } else {
        assert(seq_value_views(s) =~= views_of(s));
    }
}

/// The mathematical form of a record: its id, kind name, and parsed
/// attribute values.
#[verifier::ext_equal]
pub struct RecordV {
    pub id: u64,
    pub kind: Seq<char>,
    pub attrs: Seq<ValueV>,
}

/// One numbered entity record: its id, kind name, and parsed
/// attribute values.
#[derive(Debug)]
pub struct StepEntity {
    pub id: u64,
    pub entity_type: String,
    pub values: Vec<StepValue>,
}

impl View for StepEntity {
    type V = RecordV;

    open spec fn view(&self) -> RecordV {
        RecordV { id: self.id, kind: self.entity_type@, attrs: views_of(self.values@) }
    }
}

/// The views of a sequence of records.
pub open spec fn entity_views(s: Seq<StepEntity>) -> Seq<RecordV> {
    Seq::new(s.len(), |i: int| s[i]@)
}

/// The views of a sequence of borrowed records.
pub open spec fn entity_ref_views(s: Seq<&StepEntity>) -> Seq<RecordV> {
    Seq::new(s.len(), |i: int| s[i]@)
}

/// The token scanner's state: inside quoted text, and the parenthesis
/// nesting depth.
pub open spec fn scan_step(st: (bool, int), c: char) -> (bool, int) {
    if st.0 {
        if c == '\'' {
            (false, st.1)
        } else {
            st
        }
    } else {
        if c == '\'' {
            (true, st.1)
        } else if c == '(' {
            (st.0, st.1 + 1)
        } else if c == ')' {
            (st.0, st.1 - 1)
        } else {
            st
        }
    }
}

pub open spec fn init_scan() -> (bool, int) {
    (false, 0int)
}

/// The first top-level separator comma, scanning from state `st`.
pub open spec fn first_sep_from(s: Seq<char>, st: (bool, int)) -> Option<int>
    decreases s.len(),
{
    if s.len() == 0 {
        None
    } else if !st.0 && st.1 == 0 && s[0] == ',' {
        Some(0int)
    } else {
        match first_sep_from(s.skip(1), scan_step(st, s[0])) {
            Some(i) => Some(i + 1),
            None => None,
        }
    }
}

pub proof fn lemma_first_sep_bounds(s: Seq<char>, st: (bool, int))
    ensures
        first_sep_from(s, st) matches Some(i) ==> 0 <= i < s.len(),
    decreases s.len(),
{
    if s.len() > 0 {
        lemma_first_sep_bounds(s.skip(1), scan_step(st, s[0]));
    }
}

pub proof fn lemma_first_index_bounds(s: Seq<char>, c1: char, c2: char)
    ensures
        first_index_of(s, c1, c2) matches Some(i) ==> 0 <= i < s.len() && (s[i] == c1 || s[i]
            == c2),
    decreases s.len(),
{
    if s.len() > 0 && !(s[0] == c1 || s[0] == c2) {
        lemma_first_index_bounds(s.skip(1), c1, c2);
    }
}

/// The parsed values of one comma-separated attribute span.
pub open spec fn spec_parse_values(s: Seq<char>) -> Seq<ValueV>
    decreases s.len(), 1nat,
    via spec_parse_values_decreases
{
    match first_sep_from(s, init_scan()) {
        Some(i) => seq![spec_parse_single(s.take(i))] + spec_parse_values(s.skip(i + 1)),
        None => if s.len() == 0 {
            Seq::<ValueV>::empty()
        } else {
            seq![spec_parse_single(s)]
        },
    }
}

#[via_fn]
proof fn spec_parse_values_decreases(s: Seq<char>) {
    lemma_first_sep_bounds(s, init_scan());
}

/// The parsed value of one token, trimmed first.
pub open spec fn spec_parse_single(t: Seq<char>) -> ValueV
    decreases t.len(), 0nat,
    via spec_parse_single_decreases
{
    let s = spec_trim(t);
    let n = s.len() as int;
    if n == 1 && s[0] == '$' {
        ValueV::Null
    } else if n == 1 && s[0] == '*' {
        ValueV::Derived
    } else if n >= 2 && s[0] == '#' && spec_parse_u64(s.skip(1)) is Some {
        ValueV::Reference(spec_parse_u64(s.skip(1))->0)
    } else if n >= 2 && s[0] == '\'' && s[n - 1] == '\'' {
        ValueV::Text(spec_decode(s.subrange(1, n - 1)))
    } else if n >= 2 && s[0] == '.' && s[n - 1] == '.' {
        if n == 3 && s[1] == 'T' {
            ValueV::Boolean(true)
        } else if n == 3 && s[1] == 'F' {
            ValueV::Boolean(false)
        } else {
            ValueV::Enum(s.subrange(1, n - 1))
        }
    } else if n >= 2 && s[0] == '(' && s[n - 1] == ')' {
        ValueV::List(spec_parse_values(s.subrange(1, n - 1)))
    } else if spec_parse_i64(s) is Some {
        ValueV::Integer(spec_parse_i64(s)->0)
    } else if spec_parse_real(s) is Some {
        ValueV::Real(spec_parse_real(s)->0)
    } else if first_index_of(s, '(', '(') is Some && s[n - 1] == ')' {
        spec_parse_single(s.subrange(first_index_of(s, '(', '(')->0 + 1, n - 1))
    } else {
        ValueV::Text(s)
    }
}

#[via_fn]
proof fn spec_parse_single_decreases(t: Seq<char>) {
    lemma_trim_bounds(t);
    let s = spec_trim(t);
    lemma_first_index_bounds(s, '(', '(');
}

/// Finds the first top-level separator comma at or after `start`.
fn find_top_sep(s: &Vec<char>, start: usize) -> (r: Option<usize>)
    requires
        start <= s@.len(),
    ensures
        match r {
            Some(j) => start <= j < s@.len() && first_sep_from(
                s@.skip(start as int),
                init_scan(),
            ) == Some(j - start),
            None => first_sep_from(s@.skip(start as int), init_scan()) is None,
        },
{
    let n = s.len();
    let mut in_str: bool = false;
    let mut depth: i128 = 0;
    let mut i: usize = start;
    while i < n
        invariant
            start <= i <= n,
            n == s@.len(),
            -(i as int) <= depth <= i as int,
            match first_sep_from(s@.skip(i as int), (in_str, depth as int)) {
                Some(k) => first_sep_from(s@.skip(start as int), init_scan()) == Some(
                    i - start + k,
                ),
                None => first_sep_from(s@.skip(start as int), init_scan()) is None,
            },
        decreases n - i,
    {
        let c = s[i];
        proof {
            assert(s@.skip(i as int)[0] == c);
            assert(s@.skip(i as int).skip(1) =~= s@.skip(i + 1));
        }
        if !in_str && depth == 0 && c == ',' {
            return Some(i);
        }
        if in_str {
            if c == '\'' {
                in_str = false;
            }
        } else {
            if c == '\'' {
                in_str = true;
            } else if c == '(' {
                depth = depth + 1;
            } else if c == ')' {
                depth = depth - 1;
            }
        }
        i = i + 1;
    }
    proof {
        assert(s@.skip(n as int).len() == 0);
    }
    None
}

/// Parses one comma-separated attribute span into its values.
pub fn parse_values(s: &Vec<char>) -> (vs: Vec<StepValue>)
    ensures
        views_of(vs@) == spec_parse_values(s@),
    decreases s@.len(), 1nat,
{
    let n = s.len();
    let mut out: Vec<StepValue> = Vec::new();
    let mut start: usize = 0;
    proof {
        assert(s@.skip(0) =~= s@);
        assert(views_of(out@) =~= Seq::<ValueV>::empty());
    }
    loop
        invariant
            start <= n,
            n == s@.len(),
            spec_parse_values(s@) =~= views_of(out@) + spec_parse_values(s@.skip(start as int)),
        decreases n - start,
    {
        match find_top_sep(s, start) {
            Some(j) => {
                let tok = subvec(s, start, j);
                proof {
                    assert(tok@ =~= s@.skip(start as int).take(j - start));
                    assert(s@.skip(start as int).skip(j - start + 1) =~= s@.skip(j + 1));
                }
                let v = parse_single_value(&tok);
                let ghost prev = out@;
                out.push(v);
                proof {
                    assert(out@.drop_last() =~= prev);
                    assert(views_of(out@) =~= views_of(prev) + seq![v@]);
                }
                start = j + 1;
                proof {
                    assert(spec_parse_values(s@) =~= views_of(out@) + spec_parse_values(
                        s@.skip(start as int),
                    ));
                }
            },
            None => {
                if start < n {
                    let tok = subvec(s, start, n);
                    proof {
                        assert(tok@ =~= s@.skip(start as int));
                    }
                    let v = parse_single_value(&tok);
                    let ghost prev = out@;
                    out.push(v);
                    proof {
                        assert(out@.drop_last() =~= prev);
                        assert(views_of(out@) =~= views_of(prev) + seq![v@]);
                        assert(views_of(out@) =~= spec_parse_values(s@));
                    }
                } else {
                    proof {
                        assert(s@.skip(start as int).len() == 0);
                        assert(views_of(out@) =~= spec_parse_values(s@));
                    }
                }
                return out;
            },
        }
    }
}

/// Parses one token into its value.
#[verifier::rlimit(60)]
pub fn parse_single_value(t: &Vec<char>) -> (v: StepValue)
    ensures
        v@ == spec_parse_single(t@),
    decreases t@.len(), 0nat,
{
    proof {
        lemma_trim_bounds(t@);
        assert(t@.subrange(0, t@.len() as int) =~= t@);
    }
    let s = trimmed_subvec(t, 0, t.len());
    let ghost sv = spec_trim(t@);
    let n = s.len();
    if n == 1 && s[0] == '$' {
        return StepValue::Null;
    }
    if n == 1 && s[0] == '*' {
        return StepValue::Derived;
    }
    if n >= 2 && s[0] == '#' {
        proof {
            assert(sv.skip(1) =~= s@.subrange(1, n as int));
        }
        match parse_u64(&s, 1, n) {
            Some(id) => {
                return StepValue::Reference(id);
            },
            None => {
            },
        }
    }
    if n >= 2 && s[0] == '\'' && s[n - 1] == '\'' {
        let inner = subvec(&s, 1, n - 1);
        let decoded = decode_step_chars(&inner);
        return StepValue::Text(chars_to_string(&decoded));
    }
    if n >= 2 && s[0] == '.' && s[n - 1] == '.' {
        if n == 3 && s[1] == 'T' {
            return StepValue::Boolean(true);
        }
        if n == 3 && s[1] == 'F' {
            return StepValue::Boolean(false);
        }
        let inner = subvec(&s, 1, n - 1);
        return StepValue::Enum(chars_to_string(&inner));
    }
    if n >= 2 && s[0] == '(' && s[n - 1] == ')' {
        let inner = subvec(&s, 1, n - 1);
        let vs = parse_values(&inner);
        let r = StepValue::List(vs);
        proof {
            lemma_seq_value_views(vs@);
        }
        return r;
    }
    proof {
        assert(s@.subrange(0, n as int) =~= sv);
    }
    match parse_i64(&s, 0, n) {
        Some(i) => {
            return StepValue::Integer(i);
        },
        None => {
        },
    }
    match parse_real(&s, 0, n) {
        Some(r) => {
            return StepValue::Real(r);
        },
        None => {
        },
    }
    match crate::fixpoint::find_char2(&s, 0, n, '(', '(') {
        Some(p) => {
            if n >= 1 && s[n - 1] == ')' {
                proof {
                    lemma_first_index_bounds(sv, '(', '(');
                    assert(sv[p as int] == '(');
                    assert(p + 1 <= n - 1);
                    assert(sv.subrange(p + 1, n - 1) =~= s@.subrange(p + 1, n - 1));
                }
                let inner = subvec(&s, p + 1, n - 1);
                let v = parse_single_value(&inner);
                return v;
            }
        },
        None => {
        },
    }
    StepValue::Text(chars_to_string(&s))
}

/// The attribute at a position, when the record has one.
pub open spec fn spec_attr(r: RecordV, i: int) -> Option<ValueV> {
    if 0 <= i < r.attrs.len() {
        Some(r.attrs[i])
    } else {
        None
    }
}

/// The text attribute at a position.
pub open spec fn spec_string_at(r: RecordV, i: int) -> Option<Seq<char>> {
    match spec_attr(r, i) {
        Some(ValueV::Text(s)) => Some(s),
        _ => None,
    }
}

/// The reference attribute at a position.
pub open spec fn spec_ref_at(r: RecordV, i: int) -> Option<u64> {
    match spec_attr(r, i) {
        Some(ValueV::Reference(id)) => Some(id),
        _ => None,
    }
}

/// The real attribute at a position, in micro-units.
pub open spec fn spec_real_at(r: RecordV, i: int) -> Option<i64> {
    match spec_attr(r, i) {
        Some(ValueV::Real(m)) => Some(m),
        _ => None,
    }
}

/// The list attribute at a position.
pub open spec fn spec_list_at(r: RecordV, i: int) -> Option<Seq<ValueV>> {
    match spec_attr(r, i) {
        Some(ValueV::List(l)) => Some(l),
        _ => None,
    }
}

/// The reference ids among a list's items, in order.
pub open spec fn spec_ref_ids(l: Seq<ValueV>) -> Seq<u64>
    decreases l.len(),
{
    if l.len() == 0 {
        Seq::<u64>::empty()
    } else {
        let rest = spec_ref_ids(l.drop_last());
        match l.last() {
            ValueV::Reference(id) => rest.push(id),
            _ => rest,
        }
    }
}

/// The reference ids of the list attribute at a position, or nothing
/// for a missing or wrong-shaped attribute.
pub open spec fn spec_list_refs(r: RecordV, i: int) -> Seq<u64> {
    match spec_list_at(r, i) {
        Some(l) => spec_ref_ids(l),
        None => Seq::<u64>::empty(),
    }
}

impl StepEntity {
    /// The text attribute at a position.
    pub fn string_at(&self, i: usize) -> (r: Option<&String>)
        ensures
            match r {
                Some(s) => spec_string_at(self@, i as int) == Some(s@),
                None => spec_string_at(self@, i as int) is None,
            },
    {
        if i < self.values.len() {
            proof {
                assert(self@.attrs[i as int] == value_view(self.values@[i as int]));
            }
            match &self.values[i] {
                StepValue::Text(s) => Some(s),
                _ => None,
            }
        } else {
            None
        }
    }

    /// The reference attribute at a position.
    pub fn ref_at(&self, i: usize) -> (r: Option<u64>)
        ensures
            r == spec_ref_at(self@, i as int),
    {
        if i < self.values.len() {
            proof {
                assert(self@.attrs[i as int] == value_view(self.values@[i as int]));
            }
            match &self.values[i] {
                StepValue::Reference(id) => Some(*id),
                _ => None,
            }
        } else {
            None
        }
    }

    /// The real attribute at a position, in micro-units.
    pub fn real_at(&self, i: usize) -> (r: Option<i64>)
        ensures
            r == spec_real_at(self@, i as int),
    {
        if i < self.values.len() {
            proof {
                assert(self@.attrs[i as int] == value_view(self.values@[i as int]));
            }
            match &self.values[i] {
                StepValue::Real(m) => Some(*m),
                _ => None,
            }
        } else {
            None
        }
    }

    /// The reference ids of the list attribute at a position.
    pub fn ref_ids_at(&self, i: usize) -> (r: Vec<u64>)
        ensures
            r@ == spec_list_refs(self@, i as int),
    {
        let mut out: Vec<u64> = Vec::new();
        if i >= self.values.len() {
            proof {
                assert(out@ =~= spec_list_refs(self@, i as int));
            }
            return out;
        }
        proof {
            assert(self@.attrs[i as int] == value_view(self.values@[i as int]));
        }
        match &self.values[i] {
            StepValue::List(l) => {
                let ghost lv = seq_value_views(l@);
                proof {
                    lemma_seq_value_views(l@);
                    assert(spec_list_at(self@, i as int) == Some(views_of(l@)));
                }
                let n = l.len();
                let mut j: usize = 0;
                while j < n
                    invariant
                        j <= n,
                        n == l@.len(),
                        out@ == spec_ref_ids(views_of(l@).take(j as int)),
                    decreases n - j,
                {
                    proof {
                        assert(views_of(l@).take(j + 1).drop_last() =~= views_of(l@).take(
                            j as int,
                        ));
                        assert(views_of(l@).take(j + 1).last() == value_view(l@[j as int]));
                    }
                    match &l[j] {
                        StepValue::Reference(id) => {
                            out.push(*id);
                        },
                        _ => {
                        },
                    }
                    j = j + 1;
                }
                proof {
                    assert(views_of(l@).take(n as int) =~= views_of(l@));
                }
                out
            },
            _ => {
                proof {
                    assert(out@ =~= spec_list_refs(self@, i as int));
                }
                out
            },
        }
    }
}

} // verus!

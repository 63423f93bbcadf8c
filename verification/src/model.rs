//! The domain model: element types grouped into categories, building
//! storeys, and the assembled immutable project.
//!
//! Identifier-keyed maps are association vectors in first-insertion
//! order, so every derived table is a deterministic function of the
//! source text.  Property tables are name/value pairs in
//! first-insertion order.

use vstd::prelude::*;

verus! {

/// A building element instance.
#[derive(Debug)]
pub struct Element {
    pub id: u64,
    pub global_id: String,
    pub name: String,
    pub tag: Option<String>,
    pub type_id: Option<u64>,
    pub storey_id: Option<u64>,
    pub properties: Vec<(String, String)>,
}

/// An element type: a family of instances with shared properties.
#[derive(Debug)]
pub struct ElementType {
    pub id: u64,
    pub global_id: String,
    pub name: String,
    pub category: String,
    pub instance_count: usize,
    pub instance_ids: Vec<u64>,
    pub properties: Vec<(String, String)>,
}

/// A category of element types.
#[derive(Debug)]
pub struct Category {
    pub name: String,
    pub is_priority: bool,
    pub types: Vec<ElementType>,
    pub total_count: usize,
}

/// A building storey.  The elevation is a fixed-point micro-unit
/// value.
#[derive(Debug)]
pub struct Storey {
    pub id: u64,
    pub name: String,
    pub elevation: i64,
    pub element_count: usize,
}

/// The assembled project model.
#[derive(Debug)]
pub struct IfcProject {
    pub name: String,
    pub schema: String,
    pub file_path: String,
    pub categories: Vec<Category>,
    pub storeys: Vec<Storey>,
    pub elements: Vec<(u64, Element)>,
    pub element_to_storey: Vec<(u64, u64)>,
    pub element_properties: Vec<(u64, Vec<(String, String)>)>,
    pub instance_global_ids: Vec<(u64, String)>,
}

/// The view of a property table: name/value pairs in order.
pub open spec fn props_view(s: Seq<(String, String)>) -> Seq<(Seq<char>, Seq<char>)> {
    Seq::new(s.len(), |i: int| (s[i].0@, s[i].1@))
}

#[verifier::ext_equal]
pub struct ElementTypeV {
    pub id: u64,
    pub global_id: Seq<char>,
    pub name: Seq<char>,
    pub category: Seq<char>,
    pub instance_count: int,
    pub instance_ids: Seq<u64>,
    pub properties: Seq<(Seq<char>, Seq<char>)>,
}

impl View for ElementType {
    type V = ElementTypeV;

    open spec fn view(&self) -> ElementTypeV {
        ElementTypeV {
            id: self.id,
            global_id: self.global_id@,
            name: self.name@,
            category: self.category@,
            instance_count: self.instance_count as int,
            instance_ids: self.instance_ids@,
            properties: props_view(self.properties@),
        }
    }
}

#[verifier::ext_equal]
pub struct CategoryV {
    pub name: Seq<char>,
    pub is_priority: bool,
    pub types: Seq<ElementTypeV>,
    pub total_count: int,
}

pub open spec fn type_views(s: Seq<ElementType>) -> Seq<ElementTypeV> {
    Seq::new(s.len(), |i: int| s[i]@)
}

impl View for Category {
    type V = CategoryV;

    open spec fn view(&self) -> CategoryV {
        CategoryV {
            name: self.name@,
            is_priority: self.is_priority,
            types: type_views(self.types@),
            total_count: self.total_count as int,
        }
    }
}

#[verifier::ext_equal]
pub struct StoreyV {
    pub id: u64,
    pub name: Seq<char>,
    pub elevation: i64,
    pub element_count: int,
}

impl View for Storey {
    type V = StoreyV;

    open spec fn view(&self) -> StoreyV {
        StoreyV {
            id: self.id,
            name: self.name@,
            elevation: self.elevation,
            element_count: self.element_count as int,
        }
    }
}

pub open spec fn storey_views(s: Seq<Storey>) -> Seq<StoreyV> {
    Seq::new(s.len(), |i: int| s[i]@)
}

pub open spec fn cat_views(s: Seq<Category>) -> Seq<CategoryV> {
    Seq::new(s.len(), |i: int| s[i]@)
}

/// The view of an instance-properties map.
pub open spec fn prop_map_view(s: Seq<(u64, Vec<(String, String)>)>) -> Seq<
    (u64, Seq<(Seq<char>, Seq<char>)>),
> {
    Seq::new(s.len(), |i: int| (s[i].0, props_view(s[i].1@)))
}

/// The view of an id-to-name map.
pub open spec fn gid_map_view(s: Seq<(u64, String)>) -> Seq<(u64, Seq<char>)> {
    Seq::new(s.len(), |i: int| (s[i].0, s[i].1@))
}

#[verifier::ext_equal]
pub struct ProjectV {
    pub name: Seq<char>,
    pub schema: Seq<char>,
    pub file_path: Seq<char>,
    pub categories: Seq<CategoryV>,
    pub storeys: Seq<StoreyV>,
    pub element_to_storey: Seq<(u64, u64)>,
    pub element_properties: Seq<(u64, Seq<(Seq<char>, Seq<char>)>)>,
    pub instance_global_ids: Seq<(u64, Seq<char>)>,
}

impl View for IfcProject {
    type V = ProjectV;

    open spec fn view(&self) -> ProjectV {
        ProjectV {
            name: self.name@,
            schema: self.schema@,
            file_path: self.file_path@,
            categories: cat_views(self.categories@),
            storeys: storey_views(self.storeys@),
            element_to_storey: self.element_to_storey@,
            element_properties: prop_map_view(self.element_properties@),
            instance_global_ids: gid_map_view(self.instance_global_ids@),
        }
    }
}

/// The position of the first entry with the given key.
pub open spec fn alist_index<V>(m: Seq<(u64, V)>, k: u64) -> Option<int>
    decreases m.len(),
{
    if m.len() == 0 {
        None
    } else if m[0].0 == k {
        Some(0int)
    } else {
        match alist_index(m.skip(1), k) {
            Some(i) => Some(i + 1),
            None => None,
        }
    }
}

/// The value at the given key, when one is present.
pub open spec fn alist_get<V>(m: Seq<(u64, V)>, k: u64) -> Option<V> {
    match alist_index(m, k) {
        Some(i) => Some(m[i].1),
        None => None,
    }
}

/// Binding a key: an existing entry's value is replaced in place, a
/// new key is appended.
pub open spec fn alist_set<V>(m: Seq<(u64, V)>, k: u64, v: V) -> Seq<(u64, V)> {
    match alist_index(m, k) {
        Some(i) => m.update(i, (k, v)),
        None => m.push((k, v)),
    }
}

pub proof fn lemma_alist_index_bounds<V>(m: Seq<(u64, V)>, k: u64)
    ensures
        alist_index(m, k) matches Some(i) ==> 0 <= i < m.len() && m[i].0 == k,
    decreases m.len(),
{
    if m.len() > 0 && m[0].0 != k {
        lemma_alist_index_bounds(m.skip(1), k);
    }
}

pub proof fn lemma_alist_index_at<V>(m: Seq<(u64, V)>, k: u64, j: int)
    requires
        0 <= j < m.len(),
        m[j].0 == k,
        forall|t: int| 0 <= t < j ==> (#[trigger] m[t]).0 != k,
    ensures
        alist_index(m, k) == Some(j),
    decreases m.len(),
{
    if j > 0 {
        lemma_alist_index_at(m.skip(1), k, j - 1);
        assert(forall|t: int| 0 <= t < j - 1 ==> m.skip(1)[t] == m[t + 1]);
    }
}

pub proof fn lemma_alist_index_none<V>(m: Seq<(u64, V)>, k: u64)
    requires
        forall|t: int| 0 <= t < m.len() ==> (#[trigger] m[t]).0 != k,
    ensures
        alist_index(m, k) is None,
    decreases m.len(),
{
    if m.len() > 0 {
        lemma_alist_index_none(m.skip(1), k);
    }
}

/// The position of the first property with the given name.
pub open spec fn prop_index(ps: Seq<(Seq<char>, Seq<char>)>, name: Seq<char>) -> Option<int>
    decreases ps.len(),
{
    if ps.len() == 0 {
        None
    } else if ps[0].0 == name {
        Some(0int)
    } else {
        match prop_index(ps.skip(1), name) {
            Some(i) => Some(i + 1),
            None => None,
        }
    }
}

/// Binding a property name, replacing an existing value in place.
pub open spec fn prop_set(
    ps: Seq<(Seq<char>, Seq<char>)>,
    name: Seq<char>,
    value: Seq<char>,
) -> Seq<(Seq<char>, Seq<char>)> {
    match prop_index(ps, name) {
        Some(i) => ps.update(i, (name, value)),
        None => ps.push((name, value)),
    }
}

/// Adding a property only when the name is not yet bound: the
/// earlier-seen value wins.
pub open spec fn prop_add_if_absent(
    ps: Seq<(Seq<char>, Seq<char>)>,
    name: Seq<char>,
    value: Seq<char>,
) -> Seq<(Seq<char>, Seq<char>)> {
    if prop_index(ps, name) is Some {
        ps
    } else {
        ps.push((name, value))
    }
}

/// Merging a second table into the first, first-write-wins per name.
pub open spec fn prop_merge_absent(
    ps: Seq<(Seq<char>, Seq<char>)>,
    other: Seq<(Seq<char>, Seq<char>)>,
) -> Seq<(Seq<char>, Seq<char>)>
    decreases other.len(),
{
    if other.len() == 0 {
        ps
    } else {
        prop_add_if_absent(
            prop_merge_absent(ps, other.drop_last()),
            other.last().0,
            other.last().1,
        )
    }
}

/// A found name lies in range and matches.
pub proof fn lemma_prop_index_at_bounds(ps: Seq<(Seq<char>, Seq<char>)>, name: Seq<char>)
    ensures
        prop_index(ps, name) matches Some(i) ==> 0 <= i < ps.len() && ps[i].0 == name,
    decreases ps.len(),
{
    if ps.len() > 0 && ps[0].0 != name {
        lemma_prop_index_at_bounds(ps.skip(1), name);
    }
}

pub proof fn lemma_prop_index_at(ps: Seq<(Seq<char>, Seq<char>)>, name: Seq<char>, j: int)
    requires
        0 <= j < ps.len(),
        ps[j].0 == name,
        forall|t: int| 0 <= t < j ==> (#[trigger] ps[t]).0 != name,
    ensures
        prop_index(ps, name) == Some(j),
    decreases ps.len(),
{
    if j > 0 {
        lemma_prop_index_at(ps.skip(1), name, j - 1);
        assert(forall|t: int| 0 <= t < j - 1 ==> ps.skip(1)[t] == ps[t + 1]);
    }
}

pub proof fn lemma_prop_index_none(ps: Seq<(Seq<char>, Seq<char>)>, name: Seq<char>)
    requires
        forall|t: int| 0 <= t < ps.len() ==> (#[trigger] ps[t]).0 != name,
    ensures
        prop_index(ps, name) is None,
    decreases ps.len(),
{
    if ps.len() > 0 {
        lemma_prop_index_none(ps.skip(1), name);
    }
}

/// A sum capped at the machine word's range.
pub open spec fn sat_add_usize(a: int, b: int) -> int {
    if a + b > usize::MAX {
        usize::MAX as int
    } else {
        a + b
    }
}

impl IfcProject {
    /// An empty project with the given identity.
    #[must_use]
    pub fn new(name: String, schema: String, file_path: String) -> (p: IfcProject)
        ensures
            p@.name == name@,
            p@.schema == schema@,
            p@.file_path == file_path@,
            p@.categories.len() == 0,
            p@.storeys.len() == 0,
            p@.element_to_storey.len() == 0,
            p@.element_properties.len() == 0,
            p@.instance_global_ids.len() == 0,
            p.elements@.len() == 0,
    {
        IfcProject {
            name,
            schema,
            file_path,
            categories: Vec::new(),
            storeys: Vec::new(),
            elements: Vec::new(),
            element_to_storey: Vec::new(),
            element_properties: Vec::new(),
            instance_global_ids: Vec::new(),
        }
    }

    /// The number of element instances over all categories, saturating
    /// at the machine word's range.
    #[must_use]
    pub fn total_elements(&self) -> (r: usize)
        ensures
            r == spec_total_elements(self@.categories),
    {
        let n = self.categories.len();
        let mut sum: usize = 0;
        let mut i: usize = 0;
        while i < n
            invariant
                i <= n,
                n == self.categories@.len(),
                sum == spec_total_elements(self@.categories.take(i as int)),
            decreases n - i,
        {
            proof {
                assert(self@.categories.take(i + 1).drop_last() =~= self@.categories.take(i as int));
                assert(self@.categories.take(i + 1).last() == self@.categories[i as int]);
            }
            let c = self.categories[i].total_count;
            if sum > usize::MAX - c {
                sum = usize::MAX;
            } else {
                sum = sum + c;
            }
            i = i + 1;
        }
        proof {
            assert(self@.categories.take(n as int) =~= self@.categories);
        }
        sum
    }

    /// The number of element types over all categories, saturating at
    /// the machine word's range.
    #[must_use]
    pub fn total_types(&self) -> (r: usize)
        ensures
            r == spec_total_types(self@.categories),
    {
        let n = self.categories.len();
        let mut sum: usize = 0;
        let mut i: usize = 0;
        while i < n
            invariant
                i <= n,
                n == self.categories@.len(),
                sum == spec_total_types(self@.categories.take(i as int)),
            decreases n - i,
        {
            proof {
                assert(self@.categories.take(i + 1).drop_last() =~= self@.categories.take(i as int));
                assert(self@.categories.take(i + 1).last() == self@.categories[i as int]);
            }
            let c = self.categories[i].types.len();
            if sum > usize::MAX - c {
                sum = usize::MAX;
            } else {
                sum = sum + c;
            }
            i = i + 1;
        }
        proof {
            assert(self@.categories.take(n as int) =~= self@.categories);
        }
        sum
    }
}

/// The saturating sum of the categories' element counts.
pub open spec fn spec_total_elements(cats: Seq<CategoryV>) -> int
    decreases cats.len(),
{
    if cats.len() == 0 {
        0
    } else {
        sat_add_usize(spec_total_elements(cats.drop_last()), cats.last().total_count)
    }
}

/// The saturating sum of the categories' type counts.
pub open spec fn spec_total_types(cats: Seq<CategoryV>) -> int
    decreases cats.len(),
{
    if cats.len() == 0 {
        0
    } else {
        sat_add_usize(spec_total_types(cats.drop_last()), cats.last().types.len() as int)
    }
}

} // verus!

//! The presentation layer's state and its read-only queries over the
//! assembled project: view and focus selection, level filtering, and
//! the per-level type and instance counts.  Drawing and terminal
//! events stay outside; the state machine here takes abstract keys.

use vstd::prelude::*;
use vstd::string::StringExecFns;

verus! {

broadcast use {vstd::std_specs::vec::group_vec_axioms, vstd::seq::group_seq_axioms};

use crate::ifc::alist_find;
use crate::model::Category;
use crate::model::ElementTypeV;
use crate::model::ElementType;
use crate::model::IfcProject;
use crate::model::ProjectV;
use crate::model::alist_get;
use crate::model::lemma_alist_index_bounds;
use crate::model::type_views;
use crate::step::StepFile;

/// Which screen is showing.
#[derive(Debug, Clone, Copy, PartialEq)]
pub enum ViewMode {
    Dashboard,
    TypeDetail,
    InstanceBrowser,
}

/// Which dashboard panel holds the focus.
#[derive(Debug, Clone, Copy, PartialEq)]
pub enum FocusPanel {
    Levels,
    Categories,
    Types,
}

/// An abstract input key, as the event loop hands it over.
#[derive(Debug, Clone, Copy, PartialEq)]
pub enum Key {
    Up,
    Down,
    Left,
    Right,
    Enter,
    Escape,
    Backspace,
    Quit,
    Other,
}

/// The inspector's state: the immutable project and the transient
/// selection.
#[derive(Debug)]
pub struct App {
    pub project: IfcProject,
    pub step_file: Option<StepFile>,
    pub view: ViewMode,
    pub focus_panel: FocusPanel,
    pub selected_category: usize,
    pub selected_type: usize,
    pub selected_instance: usize,
    pub selected_level: usize,
    pub types_scroll_offset: usize,
    pub property_scroll_offset: usize,
    pub instances_scroll_offset: usize,
    pub should_quit: bool,
}

/// The storey id selected by a level index: zero selects all levels.
pub open spec fn spec_selected_storey(p: ProjectV, level: int) -> Option<u64> {
    if level == 0 {
        None
    } else if level - 1 < p.storeys.len() {
        Some(p.storeys[level - 1].id)
    } else {
        None
    }
}

/// Whether a type has an instance contained in the given storey.
pub open spec fn type_on_storey(e2s: Seq<(u64, u64)>, t: ElementTypeV, sid: u64) -> bool {
    exists|i: int|
        0 <= i < t.instance_ids.len() && alist_get(e2s, #[trigger] t.instance_ids[i]) == Some(sid)
}

/// The types of a run with an instance in the given storey, in order.
pub open spec fn spec_filter_types(
    types: Seq<ElementTypeV>,
    e2s: Seq<(u64, u64)>,
    sid: u64,
) -> Seq<ElementTypeV>
    decreases types.len(),
{
    if types.len() == 0 {
        Seq::<ElementTypeV>::empty()
    } else {
        let rest = spec_filter_types(types.drop_last(), e2s, sid);
        if type_on_storey(e2s, types.last(), sid) {
            rest.push(types.last())
        } else {
            rest
        }
    }
}

/// The type list shown for the selected category and level.
pub open spec fn spec_filtered_types(p: ProjectV, sel_cat: int, level: int) -> Seq<ElementTypeV> {
    if 0 <= sel_cat < p.categories.len() {
        let cat = p.categories[sel_cat];
        match spec_selected_storey(p, level) {
            None => cat.types,
            Some(sid) => spec_filter_types(cat.types, p.element_to_storey, sid),
        }
    } else {
        Seq::<ElementTypeV>::empty()
    }
}

/// How many of a type's instances are contained in the given storey.
pub open spec fn spec_count_ids_on(ids: Seq<u64>, e2s: Seq<(u64, u64)>, sid: u64) -> int
    decreases ids.len(),
{
    if ids.len() == 0 {
        0
    } else {
        spec_count_ids_on(ids.drop_last(), e2s, sid) + if alist_get(e2s, ids.last()) == Some(sid) {
            1int
        } else {
            0int
        }
    }
}

/// A category's instance count on a storey, saturating.
pub open spec fn spec_cat_count_on(
    types: Seq<ElementTypeV>,
    e2s: Seq<(u64, u64)>,
    sid: u64,
) -> int
    decreases types.len(),
{
    if types.len() == 0 {
        0
    } else {
        crate::model::sat_add_usize(
            spec_cat_count_on(types.drop_last(), e2s, sid),
            spec_count_ids_on(types.last().instance_ids, e2s, sid),
        )
    }
}

/// The position of the first storey with the given id.
pub open spec fn first_storey_index(storeys: Seq<crate::model::StoreyV>, sid: u64) -> Option<int>
    decreases storeys.len(),
{
    if storeys.len() == 0 {
        None
    } else if storeys[0].id == sid {
        Some(0int)
    } else {
        match first_storey_index(storeys.skip(1), sid) {
            Some(i) => Some(i + 1),
            None => None,
        }
    }
}

proof fn lemma_first_storey_at(storeys: Seq<crate::model::StoreyV>, sid: u64, j: int)
    requires
        0 <= j < storeys.len(),
        storeys[j].id == sid,
        forall|t: int| 0 <= t < j ==> (#[trigger] storeys[t]).id != sid,
    ensures
        first_storey_index(storeys, sid) == Some(j),
    decreases storeys.len(),
{
    if j > 0 {
        lemma_first_storey_at(storeys.skip(1), sid, j - 1);
        assert(forall|t: int| 0 <= t < j - 1 ==> storeys.skip(1)[t] == storeys[t + 1]);
    }
}

proof fn lemma_first_storey_none(storeys: Seq<crate::model::StoreyV>, sid: u64)
    requires
        forall|t: int| 0 <= t < storeys.len() ==> (#[trigger] storeys[t]).id != sid,
    ensures
        first_storey_index(storeys, sid) is None,
    decreases storeys.len(),
{
    if storeys.len() > 0 {
        lemma_first_storey_none(storeys.skip(1), sid);
    }
}

/// The name of the storey containing an instance, or a dash.
pub open spec fn spec_storey_name_for(p: ProjectV, instance_id: u64) -> Seq<char> {
    match alist_get(p.element_to_storey, instance_id) {
        Some(sid) => match first_storey_index(p.storeys, sid) {
            Some(k) => p.storeys[k].name,
            None => "-"@,
        },
        None => "-"@,
    }
}

/// The identifying code of an instance, or a dash.
pub open spec fn spec_instance_gid(p: ProjectV, instance_id: u64) -> Seq<char> {
    match alist_get(p.instance_global_ids, instance_id) {
        Some(g) => g,
        None => "-"@,
    }
}

/// Whether a type of the project's selected-level filter shows.
fn type_matches_storey(t: &ElementType, e2s: &Vec<(u64, u64)>, sid: u64) -> (r: bool)
    ensures
        r == type_on_storey(e2s@, t@, sid),
{
    let n = t.instance_ids.len();
    let mut i: usize = 0;
    while i < n
        invariant
            i <= n,
            n == t.instance_ids@.len(),
            forall|k: int| 0 <= k < i ==> alist_get(e2s@, #[trigger] t.instance_ids@[k]) != Some(
                sid,
            ),
        decreases n - i,
    {
        match alist_find(e2s, t.instance_ids[i]) {
            Some(j) => {
                proof {
                    lemma_alist_index_bounds(e2s@, t.instance_ids@[i as int]);
                }
                if e2s[j].1 == sid {
                    proof {
                        assert(alist_get(e2s@, t@.instance_ids[i as int]) == Some(sid));
                    }
                    return true;
                }
            },
            None => {
            },
        }
        i = i + 1;
    }
    proof {
        assert(!type_on_storey(e2s@, t@, sid)) by {
            if type_on_storey(e2s@, t@, sid) {
                let w = choose|w: int|
                    0 <= w < t@.instance_ids.len() && alist_get(
                        e2s@,
                        #[trigger] t@.instance_ids[w],
                    ) == Some(sid);
                assert(alist_get(e2s@, t.instance_ids@[w]) != Some(sid));
            }
        }
    }
    false
}

/// Counts a type's instances contained in the given storey.
fn count_ids_on(ids: &Vec<u64>, e2s: &Vec<(u64, u64)>, sid: u64) -> (r: usize)
    ensures
        r == spec_count_ids_on(ids@, e2s@, sid),
        r <= ids@.len(),
{
    let n = ids.len();
    let mut c: usize = 0;
    let mut i: usize = 0;
    while i < n
        invariant
            i <= n,
            n == ids@.len(),
            c <= i,
            c == spec_count_ids_on(ids@.take(i as int), e2s@, sid),
        decreases n - i,
    {
        proof {
            assert(ids@.take(i + 1).drop_last() =~= ids@.take(i as int));
            assert(ids@.take(i + 1).last() == ids@[i as int]);
        }
        match alist_find(e2s, ids[i]) {
            Some(j) => {
                proof {
                    lemma_alist_index_bounds(e2s@, ids@[i as int]);
                }
                if e2s[j].1 == sid {
                    c = c + 1;
                }
            },
            None => {
            },
        }
        i = i + 1;
    }
    proof {
        assert(ids@.take(n as int) =~= ids@);
    }
    c
}

impl App {
    /// A fresh inspector over an assembled project: the dashboard with
    /// the categories panel focused and nothing selected.
    #[must_use]
    pub fn new(project: IfcProject) -> (a: App)
        ensures
            a.project == project,
            a.step_file is None,
            a.view == ViewMode::Dashboard,
            a.focus_panel == FocusPanel::Categories,
            a.selected_category == 0usize,
            a.selected_type == 0usize,
            a.selected_instance == 0usize,
            a.selected_level == 0usize,
            a.types_scroll_offset == 0usize,
            a.property_scroll_offset == 0usize,
            a.instances_scroll_offset == 0usize,
            !a.should_quit,
    {
        App {
            project,
            step_file: None,
            view: ViewMode::Dashboard,
            focus_panel: FocusPanel::Categories,
            selected_category: 0,
            selected_type: 0,
            selected_instance: 0,
            selected_level: 0,
            types_scroll_offset: 0,
            property_scroll_offset: 0,
            instances_scroll_offset: 0,
            should_quit: false,
        }
    }

    /// The same inspector keeping the parsed record table for
    /// instance-level drill-down.
    #[must_use]
    pub fn with_step_file(self, step_file: StepFile) -> (a: App)
        ensures
            a.step_file == Some(step_file),
            a.project == self.project,
            a.view == self.view,
    {
        App {
            project: self.project,
            step_file: Some(step_file),
            view: self.view,
            focus_panel: self.focus_panel,
            selected_category: self.selected_category,
            selected_type: self.selected_type,
            selected_instance: self.selected_instance,
            selected_level: self.selected_level,
            types_scroll_offset: self.types_scroll_offset,
            property_scroll_offset: self.property_scroll_offset,
            instances_scroll_offset: self.instances_scroll_offset,
            should_quit: self.should_quit,
        }
    }

    /// The type list shown for the selected category and level.
    #[must_use]
    pub fn get_filtered_types(&self) -> (r: Vec<&ElementType>)
        ensures
            crate::app::ref_type_views(r@) == spec_filtered_types(
                self.project@,
                self.selected_category as int,
                self.selected_level as int,
            ),
    {
        let mut out: Vec<&ElementType> = Vec::new();
        if self.selected_category >= self.project.categories.len() {
            proof {
                assert(ref_type_views(out@) =~= spec_filtered_types(
                    self.project@,
                    self.selected_category as int,
                    self.selected_level as int,
                ));
            }
            return out;
        }
        let cat = &self.project.categories[self.selected_category];
        let ghost tv = type_views(cat.types@);
        proof {
            assert(self.project@.categories[self.selected_category as int] == cat@);
        }
        let sid: u64;
        if self.selected_level == 0 {
            sid = 0;
        } else if self.selected_level - 1 < self.project.storeys.len() {
            sid = self.project.storeys[self.selected_level - 1].id;
            proof {
                assert(self.project@.storeys[self.selected_level - 1].id == sid);
            }
        } else {
            sid = 0;
        }
        if self.selected_level == 0 || self.selected_level - 1 >= self.project.storeys.len() {
            // all levels: the whole category
            let n = cat.types.len();
            let mut i: usize = 0;
            proof {
                assert(ref_type_views(out@) =~= tv.take(0));
            }
            while i < n
                invariant
                    i <= n,
                    n == cat.types@.len(),
                    tv == type_views(cat.types@),
                    ref_type_views(out@) == tv.take(i as int),
                decreases n - i,
            {
                let ghost prev = out@;
                out.push(&cat.types[i]);
                proof {
                    assert(ref_type_views(prev).len() == tv.take(i as int).len());
                    assert(prev.len() == i as int);
                    assert forall|k: int| 0 <= k < ref_type_views(out@).len() implies ref_type_views(
                        out@,
                    )[k] == tv.take(i + 1)[k] by {
                        if k < i {
                            assert(out@[k] == prev[k]);
                            assert(ref_type_views(prev)[k] == tv.take(i as int)[k]);
                        } else {
                            assert(ref_type_views(out@)[k] == cat.types@[i as int]@);
                        }
                    }
                    assert(ref_type_views(out@) =~= tv.take(i + 1));
                }
                i = i + 1;
            }
            proof {
                assert(tv.take(n as int) =~= tv);
                assert(spec_filtered_types(
                    self.project@,
                    self.selected_category as int,
                    self.selected_level as int,
                ) == tv);
            }
            out
        } else {
            // filter to the selected storey
            let n = cat.types.len();
            let mut i: usize = 0;
            proof {
                assert(ref_type_views(out@) =~= spec_filter_types(
                    tv.take(0),
                    self.project@.element_to_storey,
                    sid,
                ));
            }
            while i < n
                invariant
                    i <= n,
                    n == cat.types@.len(),
                    tv == type_views(cat.types@),
                    ref_type_views(out@) == spec_filter_types(
                        tv.take(i as int),
                        self.project@.element_to_storey,
                        sid,
                    ),
                decreases n - i,
            {
                proof {
                    assert(tv.take(i + 1).drop_last() =~= tv.take(i as int));
                    assert(tv.take(i + 1).last() == cat.types@[i as int]@);
                }
                let ghost prev = out@;
                if type_matches_storey(&cat.types[i], &self.project.element_to_storey, sid) {
                    out.push(&cat.types[i]);
                    proof {
                        assert(ref_type_views(prev).len() == prev.len());
                        assert forall|k: int|
                            0 <= k < ref_type_views(out@).len() implies ref_type_views(out@)[k]
                            == spec_filter_types(
                            tv.take(i + 1),
                            self.project@.element_to_storey,
                            sid,
                        )[k] by {
                            if k < ref_type_views(prev).len() {
                                assert(out@[k] == prev[k]);
                                assert(ref_type_views(prev)[k] == spec_filter_types(
                                    tv.take(i as int),
                                    self.project@.element_to_storey,
                                    sid,
                                )[k]);
                            } else {
                                assert(ref_type_views(out@)[k] == cat.types@[i as int]@);
                            }
                        }
                        assert(ref_type_views(out@) =~= spec_filter_types(
                            tv.take(i + 1),
                            self.project@.element_to_storey,
                            sid,
                        ));
                    }
                }
                i = i + 1;
            }
            proof {
                assert(tv.take(n as int) =~= tv);
                assert(spec_filtered_types(
                    self.project@,
                    self.selected_category as int,
                    self.selected_level as int,
                ) == spec_filter_types(tv, self.project@.element_to_storey, sid));
            }
            out
        }
    }

    /// The currently selected type, when the selection is in range.
    #[must_use]
    pub fn get_selected_type(&self) -> (r: Option<&ElementType>)
        ensures
            ({
                let ft = spec_filtered_types(
                    self.project@,
                    self.selected_category as int,
                    self.selected_level as int,
                );
                match r {
                    Some(t) => self.selected_type < ft.len() && t@ == ft[self.selected_type as int],
                    None => self.selected_type >= ft.len(),
                }
            }),
    {
        let filtered = self.get_filtered_types();
        if self.selected_type < filtered.len() {
            proof {
                assert(ref_type_views(filtered@)[self.selected_type as int] == filtered@[self.selected_type as int]@);
            }
            Some(filtered[self.selected_type])
        } else {
            None
        }
    }

    /// The selected storey's id, or nothing when every level shows.
    #[must_use]
    pub fn get_selected_storey_id(&self) -> (r: Option<u64>)
        ensures
            r == spec_selected_storey(self.project@, self.selected_level as int),
    {
        if self.selected_level == 0 {
            None
        } else if self.selected_level - 1 < self.project.storeys.len() {
            let sid = self.project.storeys[self.selected_level - 1].id;
            proof {
                assert(self.project@.storeys[self.selected_level - 1].id == sid);
            }
            Some(sid)
        } else {
            None
        }
    }

    /// A category's instance count under the selected level filter.
    #[must_use]
    pub fn get_filtered_category_count(&self, category: &Category) -> (r: usize)
        ensures
            ({
                match spec_selected_storey(self.project@, self.selected_level as int) {
                    None => r == category@.total_count,
                    Some(sid) => r == spec_cat_count_on(
                        category@.types,
                        self.project@.element_to_storey,
                        sid,
                    ),
                }
            }),
    {
        match self.get_selected_storey_id() {
            None => category.total_count,
            Some(sid) => {
                let ghost tv = type_views(category.types@);
                let n = category.types.len();
                let mut c: usize = 0;
                let mut i: usize = 0;
                proof {
                    assert(tv.take(0).len() == 0);
                }
                while i < n
                    invariant
                        i <= n,
                        n == category.types@.len(),
                        tv == type_views(category.types@),
                        c == spec_cat_count_on(
                            tv.take(i as int),
                            self.project@.element_to_storey,
                            sid,
                        ),
                    decreases n - i,
                {
                    proof {
                        assert(tv.take(i + 1).drop_last() =~= tv.take(i as int));
                        assert(tv.take(i + 1).last() == category.types@[i as int]@);
                    }
                    let k = count_ids_on(
                        &category.types[i].instance_ids,
                        &self.project.element_to_storey,
                        sid,
                    );
                    if c > usize::MAX - k {
                        c = usize::MAX;
                    } else {
                        c = c + k;
                    }
                    i = i + 1;
                }
                proof {
                    assert(tv.take(n as int) =~= tv);
                }
                c
            },
        }
    }

    /// A type's instance count under the selected level filter.
    #[must_use]
    pub fn get_filtered_instance_count(&self, element_type: &ElementType) -> (r: usize)
        ensures
            ({
                match spec_selected_storey(self.project@, self.selected_level as int) {
                    None => r == element_type@.instance_count,
                    Some(sid) => r == spec_count_ids_on(
                        element_type@.instance_ids,
                        self.project@.element_to_storey,
                        sid,
                    ),
                }
            }),
    {
        match self.get_selected_storey_id() {
            None => element_type.instance_count,
            Some(sid) => count_ids_on(
                &element_type.instance_ids,
                &self.project.element_to_storey,
                sid,
            ),
        }
    }

    /// The id of the currently selected instance.
    #[must_use]
    pub fn get_selected_instance_id(&self) -> (r: Option<u64>)
        ensures
            ({
                let ft = spec_filtered_types(
                    self.project@,
                    self.selected_category as int,
                    self.selected_level as int,
                );
                match r {
                    Some(id) => self.selected_type < ft.len() && self.selected_instance
                        < ft[self.selected_type as int].instance_ids.len() && id
                        == ft[self.selected_type as int].instance_ids[self.selected_instance as int],
                    None => self.selected_type >= ft.len() || (self.selected_instance
                        >= ft[self.selected_type as int].instance_ids.len()),
                }
            }),
    {
        match self.get_selected_type() {
            Some(t) => {
                if self.selected_instance < t.instance_ids.len() {
                    Some(t.instance_ids[self.selected_instance])
                } else {
                    None
                }
            },
            None => None,
        }
    }

    /// The name of the storey containing an instance, or a dash.
    #[must_use]
    pub fn get_storey_name_for_instance(&self, instance_id: u64) -> (r: String)
        ensures
            r@ == spec_storey_name_for(self.project@, instance_id),
    {
        let ghost sv = crate::model::storey_views(self.project.storeys@);
        match alist_find(&self.project.element_to_storey, instance_id) {
            Some(j) => {
                let sid = self.project.element_to_storey[j].1;
                proof {
                    lemma_alist_index_bounds(self.project@.element_to_storey, instance_id);
                    assert(alist_get(self.project@.element_to_storey, instance_id) == Some(sid));
                }
                let n = self.project.storeys.len();
                let mut k: usize = 0;
                while k < n
                    invariant
                        k <= n,
                        n == self.project.storeys@.len(),
                        sv == crate::model::storey_views(self.project.storeys@),
                        alist_get(self.project@.element_to_storey, instance_id) == Some(sid),
                        forall|t: int| 0 <= t < k ==> (#[trigger] sv[t]).id != sid,
                    decreases n - k,
                {
                    proof {
                        assert(sv[k as int] == self.project.storeys@[k as int]@);
                    }
                    if self.project.storeys[k].id == sid {
                        proof {
                            assert(sv[k as int].id == sid);
                            lemma_first_storey_at(sv, sid, k as int);
                            assert(sv[k as int].name == self.project.storeys@[k as int].name@);
                        }
                        return self.project.storeys[k].name.clone();
                    }
                    k = k + 1;
                }
                proof {
                    lemma_first_storey_none(sv, sid);
                }
                String::from_str("-")
            },
            None => String::from_str("-"),
        }
    }

    /// The identifying code of an instance, or a dash.
    #[must_use]
    pub fn get_instance_global_id(&self, instance_id: u64) -> (r: String)
        ensures
            r@ == spec_instance_gid(self.project@, instance_id),
    {
        let ghost gv = crate::model::gid_map_view(self.project.instance_global_ids@);
        let n = self.project.instance_global_ids.len();
        let mut j: usize = 0;
        while j < n
            invariant
                j <= n,
                n == self.project.instance_global_ids@.len(),
                gv == crate::model::gid_map_view(self.project.instance_global_ids@),
                forall|t: int| 0 <= t < j ==> (#[trigger] gv[t]).0 != instance_id,
            decreases n - j,
        {
            proof {
                assert(gv[j as int].0 == self.project.instance_global_ids@[j as int].0);
            }
            if self.project.instance_global_ids[j].0 == instance_id {
                proof {
                    crate::model::lemma_alist_index_at(gv, instance_id, j as int);
                }
                return self.project.instance_global_ids[j].1.clone();
            }
            j = j + 1;
        }
        proof {
            crate::model::lemma_alist_index_none(gv, instance_id);
        }
        String::from_str("-")
    }

    /// The selected level's display name.
    #[must_use]
    pub fn get_selected_level_name(&self) -> (r: String)
        ensures
            self.selected_level == 0 ==> r@ == "All"@,
            self.selected_level > 0 && self.selected_level - 1 < self.project@.storeys.len()
                ==> r@ == self.project@.storeys[self.selected_level - 1].name,
            self.selected_level > 0 && self.selected_level - 1 >= self.project@.storeys.len()
                ==> r@ == "-"@,
    {
        if self.selected_level == 0 {
            String::from_str("All")
        } else if self.selected_level - 1 < self.project.storeys.len() {
            proof {
                assert(self.project@.storeys[self.selected_level - 1]
                    == self.project.storeys@[self.selected_level - 1]@);
            }
            self.project.storeys[self.selected_level - 1].name.clone()
        } else {
            String::from_str("-")
        }
    }
}

/// The views of a sequence of borrowed types.
pub open spec fn ref_type_views(s: Seq<&ElementType>) -> Seq<ElementTypeV> {
    Seq::new(s.len(), |i: int| s[i]@)
}

/// The number of types shown under the current filter.
pub open spec fn spec_filtered_len(a: App) -> int {
    spec_filtered_types(a.project@, a.selected_category as int, a.selected_level as int).len() as int
}

/// Selecting the previous level resets the type selection.
pub open spec fn spec_previous_level(a: App) -> App {
    if a.selected_level > 0 {
        App {
            project: a.project,
            step_file: a.step_file,
            view: a.view,
            focus_panel: a.focus_panel,
            selected_category: a.selected_category,
            selected_type: 0usize,
            selected_instance: a.selected_instance,
            selected_level: (a.selected_level - 1) as usize,
            types_scroll_offset: 0usize,
            property_scroll_offset: a.property_scroll_offset,
            instances_scroll_offset: a.instances_scroll_offset,
            should_quit: a.should_quit,
        }
    } else {
        a
    }
}

/// Selecting the next level resets the type selection.
pub open spec fn spec_next_level(a: App) -> App {
    if (a.selected_level as int) < a.project@.storeys.len() {
        App {
            project: a.project,
            step_file: a.step_file,
            view: a.view,
            focus_panel: a.focus_panel,
            selected_category: a.selected_category,
            selected_type: 0usize,
            selected_instance: a.selected_instance,
            selected_level: (a.selected_level + 1) as usize,
            types_scroll_offset: 0usize,
            property_scroll_offset: a.property_scroll_offset,
            instances_scroll_offset: a.instances_scroll_offset,
            should_quit: a.should_quit,
        }
    } else {
        a
    }
}

/// Selecting the previous category resets the type selection.
pub open spec fn spec_previous_category(a: App) -> App {
    if a.selected_category > 0 {
        App {
            project: a.project,
            step_file: a.step_file,
            view: a.view,
            focus_panel: a.focus_panel,
            selected_category: (a.selected_category - 1) as usize,
            selected_type: 0usize,
            selected_instance: a.selected_instance,
            selected_level: a.selected_level,
            types_scroll_offset: 0usize,
            property_scroll_offset: a.property_scroll_offset,
            instances_scroll_offset: a.instances_scroll_offset,
            should_quit: a.should_quit,
        }
    } else {
        a
    }
}

/// Selecting the next category resets the type selection.
pub open spec fn spec_next_category(a: App) -> App {
    if a.project@.categories.len() > 0 && (a.selected_category as int) < a.project@.categories.len() - 1 {
        App {
            project: a.project,
            step_file: a.step_file,
            view: a.view,
            focus_panel: a.focus_panel,
            selected_category: (a.selected_category + 1) as usize,
            selected_type: 0usize,
            selected_instance: a.selected_instance,
            selected_level: a.selected_level,
            types_scroll_offset: 0usize,
            property_scroll_offset: a.property_scroll_offset,
            instances_scroll_offset: a.instances_scroll_offset,
            should_quit: a.should_quit,
        }
    } else {
        a
    }
}

/// Selecting the previous type, scrolling it into view.
pub open spec fn spec_previous_type(a: App) -> App {
    if a.selected_type > 0 {
        let nt = (a.selected_type - 1) as usize;
        App {
            project: a.project,
            step_file: a.step_file,
            view: a.view,
            focus_panel: a.focus_panel,
            selected_category: a.selected_category,
            selected_type: nt,
            selected_instance: a.selected_instance,
            selected_level: a.selected_level,
            types_scroll_offset: (if nt < a.types_scroll_offset { nt } else { a.types_scroll_offset }),
            property_scroll_offset: a.property_scroll_offset,
            instances_scroll_offset: a.instances_scroll_offset,
            should_quit: a.should_quit,
        }
    } else {
        a
    }
}

/// Selecting the next type within the filtered list.
pub open spec fn spec_next_type(a: App) -> App {
    if spec_filtered_len(a) > 0 && (a.selected_type as int) < spec_filtered_len(a) - 1 {
        App {
            project: a.project,
            step_file: a.step_file,
            view: a.view,
            focus_panel: a.focus_panel,
            selected_category: a.selected_category,
            selected_type: (a.selected_type + 1) as usize,
            selected_instance: a.selected_instance,
            selected_level: a.selected_level,
            types_scroll_offset: a.types_scroll_offset,
            property_scroll_offset: a.property_scroll_offset,
            instances_scroll_offset: a.instances_scroll_offset,
            should_quit: a.should_quit,
        }
    } else {
        a
    }
}

/// Focus moves one panel to the left.
pub open spec fn spec_navigate_left(a: App) -> App {
    if a.focus_panel == FocusPanel::Types {
        App {
            project: a.project,
            step_file: a.step_file,
            view: a.view,
            focus_panel: FocusPanel::Categories,
            selected_category: a.selected_category,
            selected_type: a.selected_type,
            selected_instance: a.selected_instance,
            selected_level: a.selected_level,
            types_scroll_offset: a.types_scroll_offset,
            property_scroll_offset: a.property_scroll_offset,
            instances_scroll_offset: a.instances_scroll_offset,
            should_quit: a.should_quit,
        }
    } else if a.focus_panel == FocusPanel::Categories {
        App {
            project: a.project,
            step_file: a.step_file,
            view: a.view,
            focus_panel: FocusPanel::Levels,
            selected_category: a.selected_category,
            selected_type: a.selected_type,
            selected_instance: a.selected_instance,
            selected_level: a.selected_level,
            types_scroll_offset: a.types_scroll_offset,
            property_scroll_offset: a.property_scroll_offset,
            instances_scroll_offset: a.instances_scroll_offset,
            should_quit: a.should_quit,
        }
    } else {
        a
    }
}

/// Focus moves one panel to the right.
pub open spec fn spec_navigate_right(a: App) -> App {
    if a.focus_panel == FocusPanel::Levels {
        App {
            project: a.project,
            step_file: a.step_file,
            view: a.view,
            focus_panel: FocusPanel::Categories,
            selected_category: a.selected_category,
            selected_type: a.selected_type,
            selected_instance: a.selected_instance,
            selected_level: a.selected_level,
            types_scroll_offset: a.types_scroll_offset,
            property_scroll_offset: a.property_scroll_offset,
            instances_scroll_offset: a.instances_scroll_offset,
            should_quit: a.should_quit,
        }
    } else if a.focus_panel == FocusPanel::Categories {
        App {
            project: a.project,
            step_file: a.step_file,
            view: a.view,
            focus_panel: FocusPanel::Types,
            selected_category: a.selected_category,
            selected_type: a.selected_type,
            selected_instance: a.selected_instance,
            selected_level: a.selected_level,
            types_scroll_offset: a.types_scroll_offset,
            property_scroll_offset: a.property_scroll_offset,
            instances_scroll_offset: a.instances_scroll_offset,
            should_quit: a.should_quit,
        }
    } else {
        a
    }
}

/// Moving up within the focused panel.
pub open spec fn spec_navigate_up(a: App) -> App {
    if a.focus_panel == FocusPanel::Levels {
        spec_previous_level(a)
    } else if a.focus_panel == FocusPanel::Categories {
        spec_previous_category(a)
    } else {
        spec_previous_type(a)
    }
}

/// Moving down within the focused panel.
pub open spec fn spec_navigate_down(a: App) -> App {
    if a.focus_panel == FocusPanel::Levels {
        spec_next_level(a)
    } else if a.focus_panel == FocusPanel::Categories {
        spec_next_category(a)
    } else {
        spec_next_type(a)
    }
}

/// Opening the detail view of the selected type.
pub open spec fn spec_enter_type_detail(a: App) -> App {
    if a.focus_panel == FocusPanel::Types && (a.selected_type as int) < spec_filtered_len(a) {
        App {
            project: a.project,
            step_file: a.step_file,
            view: ViewMode::TypeDetail,
            focus_panel: a.focus_panel,
            selected_category: a.selected_category,
            selected_type: a.selected_type,
            selected_instance: 0usize,
            selected_level: a.selected_level,
            types_scroll_offset: a.types_scroll_offset,
            property_scroll_offset: 0usize,
            instances_scroll_offset: a.instances_scroll_offset,
            should_quit: a.should_quit,
        }
    } else {
        a
    }
}

/// Opening the instance browser of the selected type.
pub open spec fn spec_enter_instance_browser(a: App) -> App {
    if (a.selected_type as int) < spec_filtered_len(a) {
        let cnt = spec_filtered_types(a.project@, a.selected_category as int, a.selected_level as int)[a.selected_type as int].instance_ids.len() as int;
        if cnt > 0 {
        App {
            project: a.project,
            step_file: a.step_file,
            view: ViewMode::InstanceBrowser,
            focus_panel: a.focus_panel,
            selected_category: a.selected_category,
            selected_type: a.selected_type,
            selected_instance: (if a.selected_instance as int >= cnt { 0usize } else { a.selected_instance }),
            selected_level: a.selected_level,
            types_scroll_offset: a.types_scroll_offset,
            property_scroll_offset: a.property_scroll_offset,
            instances_scroll_offset: 0usize,
            should_quit: a.should_quit,
        }
        } else {
            a
        }
    } else {
        a
    }
}

/// Scrolling the property panel up.
pub open spec fn spec_scroll_properties_up(a: App) -> App {
    if a.property_scroll_offset > 0 {
        App {
            project: a.project,
            step_file: a.step_file,
            view: a.view,
            focus_panel: a.focus_panel,
            selected_category: a.selected_category,
            selected_type: a.selected_type,
            selected_instance: a.selected_instance,
            selected_level: a.selected_level,
            types_scroll_offset: a.types_scroll_offset,
            property_scroll_offset: (a.property_scroll_offset - 1) as usize,
            instances_scroll_offset: a.instances_scroll_offset,
            should_quit: a.should_quit,
        }
    } else {
        a
    }
}

/// Selecting the previous instance, scrolling it into view.
pub open spec fn spec_previous_instance(a: App) -> App {
    if a.selected_instance > 0 {
        let ni = (a.selected_instance - 1) as usize;
        App {
            project: a.project,
            step_file: a.step_file,
            view: a.view,
            focus_panel: a.focus_panel,
            selected_category: a.selected_category,
            selected_type: a.selected_type,
            selected_instance: ni,
            selected_level: a.selected_level,
            types_scroll_offset: a.types_scroll_offset,
            property_scroll_offset: a.property_scroll_offset,
            instances_scroll_offset: (if ni < a.instances_scroll_offset { ni } else { a.instances_scroll_offset }),
            should_quit: a.should_quit,
        }
    } else {
        a
    }
}

/// Selecting the next instance of the selected type.
pub open spec fn spec_next_instance(a: App) -> App {
    if (a.selected_type as int) < spec_filtered_len(a) {
        let cnt = spec_filtered_types(a.project@, a.selected_category as int, a.selected_level as int)[a.selected_type as int].instance_ids.len() as int;
        if cnt > 0 && (a.selected_instance as int) < cnt - 1 {
        App {
            project: a.project,
            step_file: a.step_file,
            view: a.view,
            focus_panel: a.focus_panel,
            selected_category: a.selected_category,
            selected_type: a.selected_type,
            selected_instance: (a.selected_instance + 1) as usize,
            selected_level: a.selected_level,
            types_scroll_offset: a.types_scroll_offset,
            property_scroll_offset: a.property_scroll_offset,
            instances_scroll_offset: a.instances_scroll_offset,
            should_quit: a.should_quit,
        }
        } else {
            a
        }
    } else {
        a
    }
}

/// Stepping back through instances in the detail view, wrapping around.
pub open spec fn spec_previous_instance_in_detail(a: App) -> App {
    if (a.selected_type as int) < spec_filtered_len(a) {
        let cnt = spec_filtered_types(a.project@, a.selected_category as int, a.selected_level as int)[a.selected_type as int].instance_ids.len() as int;
        if cnt == 0 {
            a
        } else if a.selected_instance > 0 {
        App {
            project: a.project,
            step_file: a.step_file,
            view: a.view,
            focus_panel: a.focus_panel,
            selected_category: a.selected_category,
            selected_type: a.selected_type,
            selected_instance: (a.selected_instance - 1) as usize,
            selected_level: a.selected_level,
            types_scroll_offset: a.types_scroll_offset,
            property_scroll_offset: a.property_scroll_offset,
            instances_scroll_offset: a.instances_scroll_offset,
            should_quit: a.should_quit,
        }
        } else {
        App {
            project: a.project,
            step_file: a.step_file,
            view: a.view,
            focus_panel: a.focus_panel,
            selected_category: a.selected_category,
            selected_type: a.selected_type,
            selected_instance: (cnt - 1) as usize,
            selected_level: a.selected_level,
            types_scroll_offset: a.types_scroll_offset,
            property_scroll_offset: a.property_scroll_offset,
            instances_scroll_offset: a.instances_scroll_offset,
            should_quit: a.should_quit,
        }
        }
    } else {
        a
    }
}

/// Stepping forward through instances in the detail view, wrapping around.
pub open spec fn spec_next_instance_in_detail(a: App) -> App {
    if (a.selected_type as int) < spec_filtered_len(a) {
        let cnt = spec_filtered_types(a.project@, a.selected_category as int, a.selected_level as int)[a.selected_type as int].instance_ids.len() as int;
        if cnt == 0 {
            a
        } else if (a.selected_instance as int) < cnt - 1 {
        App {
            project: a.project,
            step_file: a.step_file,
            view: a.view,
            focus_panel: a.focus_panel,
            selected_category: a.selected_category,
            selected_type: a.selected_type,
            selected_instance: (a.selected_instance + 1) as usize,
            selected_level: a.selected_level,
            types_scroll_offset: a.types_scroll_offset,
            property_scroll_offset: a.property_scroll_offset,
            instances_scroll_offset: a.instances_scroll_offset,
            should_quit: a.should_quit,
        }
        } else {
        App {
            project: a.project,
            step_file: a.step_file,
            view: a.view,
            focus_panel: a.focus_panel,
            selected_category: a.selected_category,
            selected_type: a.selected_type,
            selected_instance: 0usize,
            selected_level: a.selected_level,
            types_scroll_offset: a.types_scroll_offset,
            property_scroll_offset: a.property_scroll_offset,
            instances_scroll_offset: a.instances_scroll_offset,
            should_quit: a.should_quit,
        }
        }
    } else {
        a
    }
}

/// Quitting the inspector.
pub open spec fn spec_quit(a: App) -> App {
        App {
            project: a.project,
            step_file: a.step_file,
            view: a.view,
            focus_panel: a.focus_panel,
            selected_category: a.selected_category,
            selected_type: a.selected_type,
            selected_instance: a.selected_instance,
            selected_level: a.selected_level,
            types_scroll_offset: a.types_scroll_offset,
            property_scroll_offset: a.property_scroll_offset,
            instances_scroll_offset: a.instances_scroll_offset,
            should_quit: true,
        }
}

/// Returning to the dashboard resets the property scroll.
pub open spec fn spec_to_dashboard(a: App) -> App {
        App {
            project: a.project,
            step_file: a.step_file,
            view: ViewMode::Dashboard,
            focus_panel: a.focus_panel,
            selected_category: a.selected_category,
            selected_type: a.selected_type,
            selected_instance: a.selected_instance,
            selected_level: a.selected_level,
            types_scroll_offset: a.types_scroll_offset,
            property_scroll_offset: 0usize,
            instances_scroll_offset: a.instances_scroll_offset,
            should_quit: a.should_quit,
        }
}

/// Returning to the type detail resets the instance scroll.
pub open spec fn spec_to_type_detail(a: App) -> App {
        App {
            project: a.project,
            step_file: a.step_file,
            view: ViewMode::TypeDetail,
            focus_panel: a.focus_panel,
            selected_category: a.selected_category,
            selected_type: a.selected_type,
            selected_instance: a.selected_instance,
            selected_level: a.selected_level,
            types_scroll_offset: a.types_scroll_offset,
            property_scroll_offset: a.property_scroll_offset,
            instances_scroll_offset: 0usize,
            should_quit: a.should_quit,
        }
}

/// Scrolling the property panel down, bounded by the property count
/// the caller displays.
pub open spec fn spec_scroll_properties_down(a: App, max_scroll: int) -> App {
    if (a.property_scroll_offset as int) < max_scroll {
        App {
            project: a.project,
            step_file: a.step_file,
            view: a.view,
            focus_panel: a.focus_panel,
            selected_category: a.selected_category,
            selected_type: a.selected_type,
            selected_instance: a.selected_instance,
            selected_level: a.selected_level,
            types_scroll_offset: a.types_scroll_offset,
            property_scroll_offset: (a.property_scroll_offset + 1) as usize,
            instances_scroll_offset: a.instances_scroll_offset,
            should_quit: a.should_quit,
        }
    } else {
        a
    }
}

/// The dashboard's key dispatch.
pub open spec fn spec_dashboard_key(a: App, key: Key) -> App {
    match key {
        Key::Quit => spec_quit(a),
        Key::Escape => spec_quit(a),
        Key::Up => spec_navigate_up(a),
        Key::Down => spec_navigate_down(a),
        Key::Left => spec_navigate_left(a),
        Key::Right => spec_navigate_right(a),
        Key::Enter => spec_enter_type_detail(a),
        _ => a,
    }
}

/// The detail view's key dispatch; scrolling down is bounded by the
/// property count the caller displays.
pub open spec fn spec_detail_key(a: App, key: Key, max_scroll: int) -> App {
    match key {
        Key::Quit => spec_quit(a),
        Key::Escape => spec_to_dashboard(a),
        Key::Backspace => spec_to_dashboard(a),
        Key::Up => spec_scroll_properties_up(a),
        Key::Down => spec_scroll_properties_down(a, max_scroll),
        Key::Left => spec_previous_instance_in_detail(a),
        Key::Right => spec_next_instance_in_detail(a),
        Key::Enter => spec_enter_instance_browser(a),
        _ => a,
    }
}

/// The instance browser's key dispatch.
pub open spec fn spec_instance_key(a: App, key: Key) -> App {
    match key {
        Key::Quit => spec_quit(a),
        Key::Escape => spec_to_type_detail(a),
        Key::Backspace => spec_to_type_detail(a),
        Key::Enter => spec_to_type_detail(a),
        Key::Up => spec_previous_instance(a),
        Key::Down => spec_next_instance(a),
        _ => a,
    }
}

impl App {
    /// Selects the previous level.
    pub fn previous_level(&mut self)
        ensures
            *final(self) == spec_previous_level(*old(self)),
    {
        if self.selected_level > 0 {
            self.selected_level = self.selected_level - 1;
            self.selected_type = 0;
            self.types_scroll_offset = 0;
        }
    }

    /// Selects the next level.
    pub fn next_level(&mut self)
        ensures
            *final(self) == spec_next_level(*old(self)),
    {
        proof {
            assert(self.project@.storeys.len() == self.project.storeys@.len());
        }
        if self.selected_level < self.project.storeys.len() {
            self.selected_level = self.selected_level + 1;
            self.selected_type = 0;
            self.types_scroll_offset = 0;
        }
    }

    /// Selects the previous category.
    pub fn previous_category(&mut self)
        ensures
            *final(self) == spec_previous_category(*old(self)),
    {
        if self.selected_category > 0 {
            self.selected_category = self.selected_category - 1;
            self.selected_type = 0;
            self.types_scroll_offset = 0;
        }
    }

    /// Selects the next category.
    pub fn next_category(&mut self)
        ensures
            *final(self) == spec_next_category(*old(self)),
    {
        proof {
            assert(self.project@.categories.len() == self.project.categories@.len());
        }
        let n = self.project.categories.len();
        if n > 0 && self.selected_category < n - 1 {
            self.selected_category = self.selected_category + 1;
            self.selected_type = 0;
            self.types_scroll_offset = 0;
        }
    }

    /// Selects the previous type, scrolling it into view.
    pub fn previous_type(&mut self)
        ensures
            *final(self) == spec_previous_type(*old(self)),
    {
        if self.selected_type > 0 {
            self.selected_type = self.selected_type - 1;
            if self.selected_type < self.types_scroll_offset {
                self.types_scroll_offset = self.selected_type;
            }
        }
    }

    /// Selects the next type within the filtered list.
    pub fn next_type(&mut self)
        ensures
            *final(self) == spec_next_type(*old(self)),
    {
        let filtered = self.get_filtered_types();
        let flen = filtered.len();
        proof {
            assert(flen as int == spec_filtered_len(*self));
        }
        if flen > 0 && self.selected_type < flen - 1 {
            self.selected_type = self.selected_type + 1;
        }
    }

    /// Moves focus one panel to the left.
    pub fn navigate_left(&mut self)
        ensures
            *final(self) == spec_navigate_left(*old(self)),
    {
        match self.focus_panel {
            FocusPanel::Types => {
                self.focus_panel = FocusPanel::Categories;
            },
            FocusPanel::Categories => {
                self.focus_panel = FocusPanel::Levels;
            },
            FocusPanel::Levels => {
            },
        }
    }

    /// Moves focus one panel to the right.
    pub fn navigate_right(&mut self)
        ensures
            *final(self) == spec_navigate_right(*old(self)),
    {
        match self.focus_panel {
            FocusPanel::Levels => {
                self.focus_panel = FocusPanel::Categories;
            },
            FocusPanel::Categories => {
                self.focus_panel = FocusPanel::Types;
            },
            FocusPanel::Types => {
            },
        }
    }

    /// Moves up within the focused panel.
    pub fn navigate_up(&mut self)
        ensures
            *final(self) == spec_navigate_up(*old(self)),
    {
        match self.focus_panel {
            FocusPanel::Levels => self.previous_level(),
            FocusPanel::Categories => self.previous_category(),
            FocusPanel::Types => self.previous_type(),
        }
    }

    /// Moves down within the focused panel.
    pub fn navigate_down(&mut self)
        ensures
            *final(self) == spec_navigate_down(*old(self)),
    {
        match self.focus_panel {
            FocusPanel::Levels => self.next_level(),
            FocusPanel::Categories => self.next_category(),
            FocusPanel::Types => self.next_type(),
        }
    }

    /// Opens the detail view of the selected type.
    pub fn enter_type_detail(&mut self)
        ensures
            *final(self) == spec_enter_type_detail(*old(self)),
    {
        let in_types = match self.focus_panel {
            FocusPanel::Types => true,
            _ => false,
        };
        let has_type = match self.get_selected_type() {
            Some(_) => true,
            None => false,
        };
        if in_types && has_type {
            self.view = ViewMode::TypeDetail;
            self.property_scroll_offset = 0;
            self.selected_instance = 0;
        }
    }

    /// Opens the instance browser of the selected type.
    pub fn enter_instance_browser(&mut self)
        ensures
            *final(self) == spec_enter_instance_browser(*old(self)),
    {
        let count: usize = match self.get_selected_type() {
            Some(t) => t.instance_ids.len(),
            None => 0,
        };
        if count > 0 {
            self.view = ViewMode::InstanceBrowser;
            if self.selected_instance >= count {
                self.selected_instance = 0;
            }
            self.instances_scroll_offset = 0;
        }
    }

    /// Scrolls the property panel up.
    pub fn scroll_properties_up(&mut self)
        ensures
            *final(self) == spec_scroll_properties_up(*old(self)),
    {
        if self.property_scroll_offset > 0 {
            self.property_scroll_offset = self.property_scroll_offset - 1;
        }
    }

    /// Scrolls the property panel down, bounded by the property count
    /// the caller displays.
    pub fn scroll_properties_down(&mut self, max_scroll: usize)
        ensures
            *final(self) == spec_scroll_properties_down(*old(self), max_scroll as int),
    {
        if self.property_scroll_offset < max_scroll {
            self.property_scroll_offset = self.property_scroll_offset + 1;
        }
    }

    /// Selects the previous instance, scrolling it into view.
    pub fn previous_instance(&mut self)
        ensures
            *final(self) == spec_previous_instance(*old(self)),
    {
        if self.selected_instance > 0 {
            self.selected_instance = self.selected_instance - 1;
            if self.selected_instance < self.instances_scroll_offset {
                self.instances_scroll_offset = self.selected_instance;
            }
        }
    }

    /// Selects the next instance of the selected type.
    pub fn next_instance(&mut self)
        ensures
            *final(self) == spec_next_instance(*old(self)),
    {
        let count: usize = match self.get_selected_type() {
            Some(t) => t.instance_ids.len(),
            None => {
                return ;
            },
        };
        if count > 0 && self.selected_instance < count - 1 {
            self.selected_instance = self.selected_instance + 1;
        }
    }

    /// Steps back through instances in the detail view, wrapping
    /// around.
    pub fn previous_instance_in_detail(&mut self)
        ensures
            *final(self) == spec_previous_instance_in_detail(*old(self)),
    {
        let count: usize = match self.get_selected_type() {
            Some(t) => t.instance_ids.len(),
            None => {
                return ;
            },
        };
        if count == 0 {
            return ;
        }
        if self.selected_instance > 0 {
            self.selected_instance = self.selected_instance - 1;
        } else {
            self.selected_instance = count - 1;
        }
    }

    /// Steps forward through instances in the detail view, wrapping
    /// around.
    pub fn next_instance_in_detail(&mut self)
        ensures
            *final(self) == spec_next_instance_in_detail(*old(self)),
    {
        let count: usize = match self.get_selected_type() {
            Some(t) => t.instance_ids.len(),
            None => {
                return ;
            },
        };
        if count == 0 {
            return ;
        }
        if self.selected_instance < count - 1 {
            self.selected_instance = self.selected_instance + 1;
        } else {
            self.selected_instance = 0;
        }
    }

    /// Applies one key press on the dashboard.
    pub fn handle_dashboard_keys(&mut self, key: Key)
        ensures
            *final(self) == spec_dashboard_key(*old(self), key),
    {
        match key {
            Key::Quit => {
                self.should_quit = true;
            },
            Key::Escape => {
                self.should_quit = true;
            },
            Key::Up => self.navigate_up(),
            Key::Down => self.navigate_down(),
            Key::Left => self.navigate_left(),
            Key::Right => self.navigate_right(),
            Key::Enter => self.enter_type_detail(),
            _ => {
            },
        }
    }

    /// Applies one key press in the type detail view.
    pub fn handle_detail_keys(&mut self, key: Key, max_scroll: usize)
        ensures
            *final(self) == spec_detail_key(*old(self), key, max_scroll as int),
    {
        match key {
            Key::Quit => {
                self.should_quit = true;
            },
            Key::Escape => {
                self.view = ViewMode::Dashboard;
                self.property_scroll_offset = 0;
            },
            Key::Backspace => {
                self.view = ViewMode::Dashboard;
                self.property_scroll_offset = 0;
            },
            Key::Up => self.scroll_properties_up(),
            Key::Down => {
                if self.property_scroll_offset < max_scroll {
                    self.property_scroll_offset = self.property_scroll_offset + 1;
                }
            },
            Key::Left => self.previous_instance_in_detail(),
            Key::Right => self.next_instance_in_detail(),
            Key::Enter => self.enter_instance_browser(),
            _ => {
            },
        }
    }

    /// Applies one key press in the instance browser.
    pub fn handle_instance_keys(&mut self, key: Key)
        ensures
            *final(self) == spec_instance_key(*old(self), key),
    {
        match key {
            Key::Quit => {
                self.should_quit = true;
            },
            Key::Escape => {
                self.view = ViewMode::TypeDetail;
                self.instances_scroll_offset = 0;
            },
            Key::Backspace => {
                self.view = ViewMode::TypeDetail;
                self.instances_scroll_offset = 0;
            },
            Key::Enter => {
                self.view = ViewMode::TypeDetail;
                self.instances_scroll_offset = 0;
            },
            Key::Up => self.previous_instance(),
            Key::Down => self.next_instance(),
            _ => {
            },
        }
    }
}

} // verus!

//! The stateful, filterable, navigable list over the package catalog,
//! and the two-screen modal state machine that drives it: predicate
//! changes recompute the filtered view and reset the cursor; navigation
//! moves the cursor with wraparound; every operation keeps the cursor
//! inside the view.

use vstd::prelude::*;

use vstd::pervasive::VecAdditionalExecFns;

use crate::commands::{rec_views, PackageDetails, PackageType, PackageVersionInfo, RecordView};
use crate::strutil::{contains_sub, str_contains};

verus! {

/// The active filter rule: everything, one classification, or a
/// case-sensitive substring search on the name.
pub enum ListFilter {
    All,
    Explicit,
    Orphans,
    Foreign,
    Search(String),
}

/// The mathematical value of a `ListFilter`.
pub enum FilterView {
    All,
    Explicit,
    Orphans,
    Foreign,
    Search(Seq<char>),
}

impl View for ListFilter {
    type V = FilterView;

    open spec fn view(&self) -> FilterView {
        match self {
            ListFilter::All => FilterView::All,
            ListFilter::Explicit => FilterView::Explicit,
            ListFilter::Orphans => FilterView::Orphans,
            ListFilter::Foreign => FilterView::Foreign,
            ListFilter::Search(s) => FilterView::Search(s@),
        }
    }
}

impl Clone for ListFilter {
    fn clone(&self) -> (r: Self)
        ensures
            r@ == self@,
    {
        match self {
            ListFilter::All => ListFilter::All,
            ListFilter::Explicit => ListFilter::Explicit,
            ListFilter::Orphans => ListFilter::Orphans,
            ListFilter::Foreign => ListFilter::Foreign,
            ListFilter::Search(s) => ListFilter::Search(s.clone()),
        }
    }
}

/// Whether a record satisfies a filter. Classification filters test
/// the tag; a search matches names that contain the text as a
/// case-sensitive substring.
pub open spec fn rec_matches(r: RecordView, f: FilterView) -> bool {
    match f {
        FilterView::All => true,
        FilterView::Explicit => r.package_type == PackageType::Explicit,
        FilterView::Orphans => r.package_type == PackageType::Orphan,
        FilterView::Foreign => r.package_type == PackageType::Foreign,
        FilterView::Search(s) => contains_sub(r.name, s),
    }
}

/// The positions in `rs` of the records matching `f`, ascending.
pub open spec fn filter_indices(rs: Seq<RecordView>, f: FilterView) -> Seq<usize>
    decreases rs.len(),
{
    if rs.len() == 0 {
        Seq::empty()
    } else {
        let pre = filter_indices(rs.drop_last(), f);
        if rec_matches(rs.last(), f) {
            pre.push((rs.len() - 1) as usize)
        } else {
            pre
        }
    }
}

pub proof fn lemma_filter_indices_facts(rs: Seq<RecordView>, f: FilterView)
    requires
        rs.len() <= usize::MAX,
    ensures
        forall|k: int|
            0 <= k < filter_indices(rs, f).len() ==> (#[trigger] filter_indices(rs, f)[k]
                as int) < rs.len() && rec_matches(rs[filter_indices(rs, f)[k] as int], f),
    decreases rs.len(),
{
    if rs.len() > 0 {
        lemma_filter_indices_facts(rs.drop_last(), f);
        let pre = filter_indices(rs.drop_last(), f);
        let cur = filter_indices(rs, f);
        assert forall|k: int|
            0 <= k < cur.len() implies (#[trigger] cur[k] as int) < rs.len() && rec_matches(
            rs[cur[k] as int],
            f,
        ) by {
            if k < pre.len() {
                assert(cur[k] == pre[k]);
                assert((pre[k] as int) < rs.drop_last().len());
                assert(rs.drop_last()[pre[k] as int] == rs[pre[k] as int]);
            } else {
                assert(rec_matches(rs.last(), f));
                assert(cur[k] == (rs.len() - 1) as usize);
            }
        }
    }
}

/// Two catalogs that agree on every name and classification filter
/// alike: the filled-in detail of a record never changes the view.
pub proof fn lemma_filter_indices_ignore_details(
    rs1: Seq<RecordView>,
    rs2: Seq<RecordView>,
    f: FilterView,
)
    requires
        rs1.len() == rs2.len(),
        forall|k: int|
            0 <= k < rs1.len() ==> (#[trigger] rs1[k]).name == rs2[k].name
                && rs1[k].package_type == rs2[k].package_type,
    ensures
        filter_indices(rs1, f) == filter_indices(rs2, f),
    decreases rs1.len(),
{
    if rs1.len() > 0 {
        let t1 = rs1.drop_last();
        let t2 = rs2.drop_last();
        assert(forall|k: int|
            0 <= k < t1.len() ==> (#[trigger] t1[k]).name == t2[k].name && t1[k].package_type
                == t2[k].package_type);
        lemma_filter_indices_ignore_details(t1, t2, f);
        assert(rec_matches(rs1.last(), f) == rec_matches(rs2.last(), f));
    }
}

/// Whether a record satisfies a filter.
fn record_matches(p: &PackageVersionInfo, f: &ListFilter) -> (r: bool)
    ensures
        r == rec_matches(p@, f@),
{
    match f {
        ListFilter::All => true,
        ListFilter::Explicit => p.package_type == PackageType::Explicit,
        ListFilter::Orphans => p.package_type == PackageType::Orphan,
        ListFilter::Foreign => p.package_type == PackageType::Foreign,
        ListFilter::Search(s) => str_contains(p.name.as_str(), s.as_str()),
    }
}

/// The positions of the catalog records matching the filter.
fn compute_filter_indices(items: &Vec<PackageVersionInfo>, f: &ListFilter) -> (r: Vec<usize>)
    ensures
        r@ == filter_indices(rec_views(items@), f@),
{
    let ghost iv = rec_views(items@);
    let mut out: Vec<usize> = Vec::new();
    let mut i: usize = 0;
    proof {
        assert(out@ =~= filter_indices(iv.subrange(0, 0), f@));
    }
    while i < items.len()
        invariant
            i <= items@.len(),
            iv == rec_views(items@),
            out@ == filter_indices(iv.subrange(0, i as int), f@),
        decreases items@.len() - i,
    {
        proof {
            assert(iv.subrange(0, i + 1 as int).drop_last() =~= iv.subrange(0, i as int));
            assert(iv.subrange(0, i + 1 as int).last() == iv[i as int]);
        }
        if record_matches(&items[i], f) {
            out.push(i);
        }
        i = i + 1;
    }
    proof {
        assert(iv.subrange(0, iv.len() as int) =~= iv);
    }
    out
}

/// The owner of the catalog, the active filter, the derived filtered
/// view (as positions into the catalog, so that lazily fetched detail
/// is cached on the one canonical record) and the cursor.
pub struct StatefulList {
    pub items: Vec<PackageVersionInfo>,
    pub filtered_items: Vec<usize>,
    pub selected: Option<usize>,
    pub last_selected: Option<usize>,
    pub list_filter: ListFilter,
}

impl StatefulList {
    /// The catalog as record values.
    pub open spec fn catalog(self) -> Seq<RecordView> {
        rec_views(self.items@)
    }

    /// The filtered view as record values, in catalog order.
    pub open spec fn view_records(self) -> Seq<RecordView> {
        self.filtered_items@.map_values(|i: usize| rec_views(self.items@)[i as int])
    }

    /// Well-formedness: the filtered view is exactly what the filter
    /// selects from the catalog, and the cursor sits inside the view
    /// whenever the view is non-empty, and nowhere when it is empty.
    pub open spec fn wf(self) -> bool {
        &&& self.filtered_items@ == filter_indices(rec_views(self.items@), self.list_filter@)
        &&& match self.selected {
            Some(i) => self.filtered_items@.len() > 0 && (i as int) < self.filtered_items@.len(),
            None => self.filtered_items@.len() == 0,
        }
    }

    /// Takes ownership of the catalog; the initial filter shows
    /// everything and the cursor starts on the first record, if any.
    pub fn new(packages: Vec<PackageVersionInfo>) -> (r: StatefulList)
        ensures
            r.wf(),
            r.items == packages,
            r.list_filter@ == FilterView::All,
            r.filtered_items@.len() == packages@.len(),
            r.selected == (if packages@.len() > 0 {
                Some(0usize)
            } else {
                None::<usize>
            }),
            r.last_selected is None,
    {
        let filter = ListFilter::All;
        let filtered = compute_filter_indices(&packages, &filter);
        proof {
            lemma_filter_indices_all_len(rec_views(packages@));
        }
        let selected: Option<usize> = if filtered.len() > 0 {
            Some(0)
        } else {
            None
        };
        StatefulList {
            items: packages,
            filtered_items: filtered,
            selected,
            last_selected: None,
            list_filter: filter,
        }
    }
}

/// Under the all-pass filter the view has one position per record.
pub proof fn lemma_filter_indices_all_len(rs: Seq<RecordView>)
    ensures
        filter_indices(rs, FilterView::All).len() == rs.len(),
    decreases rs.len(),
{
    if rs.len() > 0 {
        lemma_filter_indices_all_len(rs.drop_last());
    }
}

/// Where the cursor lands after one step forward in a view of length
/// `n`: past the last position it wraps to the first.
pub open spec fn advance(i: int, n: int) -> int {
    if i + 1 >= n {
        0
    } else {
        i + 1
    }
}

/// Where the cursor lands after one step backward in a view of length
/// `n`: before the first position it wraps to the last.
pub open spec fn retreat(i: int, n: int) -> int {
    if i == 0 {
        n - 1
    } else {
        i - 1
    }
}

/// The cursor position reached from `i` by `k` forward steps.
pub open spec fn advance_times(i: int, n: int, k: nat) -> int
    decreases k,
{
    if k == 0 {
        i
    } else {
        advance(advance_times(i, n, (k - 1) as nat), n)
    }
}

proof fn lemma_advance_times_upto(n: int, k: nat)
    requires
        n > 0,
        k <= n,
    ensures
        advance_times(0, n, k) == (if k < n {
            k as int
        } else {
            0
        }),
    decreases k,
{
    if k > 0 {
        lemma_advance_times_upto(n, (k - 1) as nat);
    }
}

/// Navigation wraparound: in a view of length `n`, `n` forward steps
/// from the first position lead back to the first position, and one
/// backward step from the first position lands on the last.
pub proof fn lemma_navigation_wraparound(n: int)
    requires
        n > 0,
    ensures
        advance_times(0, n, n as nat) == 0,
        retreat(0, n) == n - 1,
{
    lemma_advance_times_upto(n, n as nat);
}

/// What navigation leaves untouched: everything but the cursor.
pub open spec fn nav_unchanged(a: StatefulList, b: StatefulList) -> bool {
    &&& b.items == a.items
    &&& b.filtered_items == a.filtered_items
    &&& b.list_filter == a.list_filter
    &&& b.last_selected == a.last_selected
}

/// What a filter change does: the view is recomputed from the
/// unchanged catalog, the cursor is reset to the top of the new view
/// (or cleared when it is empty), and the cursor position before the
/// change is remembered.
pub open spec fn refilter_effect(a: StatefulList, b: StatefulList, f: FilterView) -> bool {
    &&& b.items == a.items
    &&& b.list_filter@ == f
    &&& b.filtered_items@ == filter_indices(rec_views(a.items@), f)
    &&& b.selected == (if b.filtered_items@.len() > 0 {
        Some(0usize)
    } else {
        None::<usize>
    })
    &&& b.last_selected == (match a.selected {
        Some(i) => Some(i),
        None => a.last_selected,
    })
}

/// One step forward with wraparound.
pub open spec fn next_effect(a: StatefulList, b: StatefulList) -> bool {
    &&& nav_unchanged(a, b)
    &&& a.filtered_items@.len() == 0 ==> b.selected == a.selected
    &&& (a.filtered_items@.len() > 0 && a.selected is Some) ==> b.selected == Some(
        advance(a.selected->0 as int, a.filtered_items@.len() as int) as usize,
    )
}

/// One step backward with wraparound.
pub open spec fn previous_effect(a: StatefulList, b: StatefulList) -> bool {
    &&& nav_unchanged(a, b)
    &&& a.filtered_items@.len() == 0 ==> b.selected == a.selected
    &&& (a.filtered_items@.len() > 0 && a.selected is Some) ==> b.selected == Some(
        retreat(a.selected->0 as int, a.filtered_items@.len() as int) as usize,
    )
}

/// A jump to the top of the view.
pub open spec fn go_top_effect(a: StatefulList, b: StatefulList) -> bool {
    &&& nav_unchanged(a, b)
    &&& b.selected == (if a.filtered_items@.len() > 0 {
        Some(0usize)
    } else {
        a.selected
    })
}

/// A jump to the bottom of the view.
pub open spec fn go_bottom_effect(a: StatefulList, b: StatefulList) -> bool {
    &&& nav_unchanged(a, b)
    &&& b.selected == (if a.filtered_items@.len() > 0 {
        Some((a.filtered_items@.len() - 1) as usize)
    } else {
        a.selected
    })
}

impl StatefulList {
    /// Installs a new filter: recomputes the view from the catalog,
    /// remembers the old cursor, and resets the cursor to the top of
    /// the new view, or to nothing when the new view is empty.
    pub fn change_filter(&mut self, filter: ListFilter)
        ensures
            final(self).wf(),
            refilter_effect(*old(self), *final(self), filter@),
            final(self).list_filter == filter,
    {
        match self.selected {
            Some(i) => {
                self.last_selected = Some(i);
            },
            None => {},
        }
        self.list_filter = filter;
        self.filtered_items = compute_filter_indices(&self.items, &self.list_filter);
        self.selected = if self.filtered_items.len() > 0 {
            Some(0)
        } else {
            None
        };
    }

    /// Moves the cursor one position down, wrapping past the last
    /// position to the first; on an empty view this does nothing.
    pub fn next(&mut self)
        requires
            old(self).wf(),
        ensures
            final(self).wf(),
            next_effect(*old(self), *final(self)),
    {
        let n = self.filtered_items.len();
        if n == 0 {
            return ;
        }
        let i: usize = match self.selected {
            Some(i) => if i + 1 >= n {
                0
            } else {
                i + 1
            },
            None => {
                // without a selection, resume from the remembered
                // position; a well-formed non-empty view always has a
                // selection, so this arm is a safety net only
                match self.last_selected {
                    Some(j) => if j < n {
                        j
                    } else {
                        0
                    },
                    None => 0,
                }
            },
        };
        self.selected = Some(i);
    }

    /// Moves the cursor one position up, wrapping before the first
    /// position to the last; on an empty view this does nothing.
    pub fn previous(&mut self)
        requires
            old(self).wf(),
        ensures
            final(self).wf(),
            previous_effect(*old(self), *final(self)),
    {
        let n = self.filtered_items.len();
        if n == 0 {
            return ;
        }
        let i: usize = match self.selected {
            Some(i) => if i == 0 {
                n - 1
            } else {
                i - 1
            },
            None => {
                // resume path, as in `next`
                match self.last_selected {
                    Some(j) => if j < n {
                        j
                    } else {
                        0
                    },
                    None => 0,
                }
            },
        };
        self.selected = Some(i);
    }

    /// Jumps to the first position of the view; on an empty view this
    /// does nothing.
    pub fn go_top(&mut self)
        requires
            old(self).wf(),
        ensures
            final(self).wf(),
            go_top_effect(*old(self), *final(self)),
    {
        if self.filtered_items.len() > 0 {
            self.selected = Some(0);
        }
    }

    /// Jumps to the last position of the view. On an empty view this
    /// does nothing and the cursor stays cleared: the guard closes the
    /// index underflow that an unguarded jump would hit there.
    pub fn go_bottom(&mut self)
        requires
            old(self).wf(),
        ensures
            final(self).wf(),
            go_bottom_effect(*old(self), *final(self)),
    {
        let n = self.filtered_items.len();
        if n > 0 {
            self.selected = Some(n - 1);
        }
    }

    /// The record under the cursor, if any: the only read path for
    /// showing detail.
    pub fn selected(&self) -> (r: Option<&PackageVersionInfo>)
        requires
            self.wf(),
        ensures
            match r {
                Some(p) => self.selected is Some && p@ == self.view_records()[
                    self.selected->0 as int],
                None => self.filtered_items@.len() == 0,
            },
    {
        match self.selected {
            Some(i) => {
                proof {
                    vstd::std_specs::vec::axiom_spec_len(&self.items);
                    lemma_filter_indices_facts(rec_views(self.items@), self.list_filter@);
                }
                let idx = self.filtered_items[i];
                Some(&self.items[idx])
            },
            None => None,
        }
    }
}

/// Pointwise: `b` is the catalog `a` with at most the detail field of
/// one record filled in; names, versions and classifications agree.
pub open spec fn same_identities(a: Seq<RecordView>, b: Seq<RecordView>) -> bool {
    &&& a.len() == b.len()
    &&& forall|k: int|
        0 <= k < a.len() ==> (#[trigger] a[k]).name == b[k].name && a[k].version == b[k].version
            && a[k].package_type == b[k].package_type
}

impl StatefulList {
    /// Fills in the detail record of the record under the cursor, the
    /// compute-if-absent way: on a cache miss the caller's freshly
    /// fetched record is stored; on a hit the cached one is returned
    /// and the argument is ignored. Without a cursor nothing happens.
    pub fn fill_selected_details(&mut self, fetched: PackageDetails) -> (r: Option<
        PackageDetails,
    >)
        requires
            old(self).wf(),
        ensures
            final(self).wf(),
            final(self).filtered_items == old(self).filtered_items,
            final(self).selected == old(self).selected,
            final(self).last_selected == old(self).last_selected,
            final(self).list_filter == old(self).list_filter,
            same_identities(old(self).catalog(), final(self).catalog()),
            match old(self).selected {
                None => r is None && final(self).items == old(self).items,
                Some(i) => {
                    let idx = old(self).filtered_items@[i as int] as int;
                    &&& forall|k: int|
                        0 <= k < old(self).items@.len() && k != idx ==> final(self).items@[k]
                            == old(self).items@[k]
                    &&& match old(self).catalog()[idx].details {
                        Some(d) => (match r {
                            Some(rd) => rd@ == d,
                            None => false,
                        }) && final(self).catalog() == old(self).catalog(),
                        None => (match r {
                            Some(rd) => rd@ == fetched@,
                            None => false,
                        }) && final(self).catalog()[idx].details == Some(fetched@),
                    }
                },
            },
    {
        let ghost old_catalog = rec_views(self.items@);
        match self.selected {
            None => None,
            Some(i) => {
                proof {
                    vstd::std_specs::vec::axiom_spec_len(&self.items);
                    lemma_filter_indices_facts(rec_views(self.items@), self.list_filter@);
                }
                let idx = self.filtered_items[i];
                let mut slot = PackageVersionInfo {
                    name: String::new(),
                    version: String::new(),
                    details: None,
                    package_type: PackageType::Explicit,
                };
                self.items.set_and_swap(idx, &mut slot);
                let d = slot.get_details(fetched);
                self.items.set_and_swap(idx, &mut slot);
                proof {
                    let new_catalog = rec_views(self.items@);
                    assert(same_identities(old_catalog, new_catalog));
                    lemma_filter_indices_ignore_details(old_catalog, new_catalog,
                        self.list_filter@);
                    if old_catalog[idx as int].details is Some {
                        assert(new_catalog =~= old_catalog);
                    }
                }
                Some(d)
            },
        }
    }
}

/// The two screens of the modal interface: the listing with its
/// details pane, and the free-text filter entry popup.
#[derive(Clone, Copy, PartialEq, Eq, Structural, Debug)]
pub enum Screens {
    DetailsList,
    FilterInput,
}

/// A key event as the interaction loop reports it to the state
/// machine.
#[derive(Clone, Copy, PartialEq, Eq, Structural, Debug)]
pub enum Key {
    Up,
    Down,
    Enter,
    Esc,
    Char(char),
    Other,
}

/// What the surrounding loop must do after a key was handled: nothing
/// more, quit the session, hand the key to the text-entry buffer, or
/// clear that buffer.
#[derive(Clone, Copy, PartialEq, Eq, Structural, Debug)]
pub enum Action {
    Nothing,
    Quit,
    EditInput,
    ResetInput,
}

/// One entry of the key table: the operation a key maps to on the
/// current screen.
pub enum UiCommand {
    Nothing,
    Quit,
    MoveNext,
    MovePrevious,
    GoTop,
    GoBottom,
    SetFilter(ListFilter),
    OpenFilterInput,
    ConfirmFilter,
    CancelFilter,
    EditInput,
}

/// The allowed-transition table of the two-screen state machine: which
/// operation each key denotes on each screen.
pub open spec fn dispatch_spec(screen: Screens, key: Key) -> UiCommand {
    match screen {
        Screens::DetailsList => match key {
            Key::Up => UiCommand::MovePrevious,
            Key::Down => UiCommand::MoveNext,
            Key::Char(c) => {
                if c == 'q' {
                    UiCommand::Quit
                } else if c == 'k' {
                    UiCommand::MovePrevious
                } else if c == 'j' {
                    UiCommand::MoveNext
                } else if c == 'g' {
                    UiCommand::GoTop
                } else if c == 'G' {
                    UiCommand::GoBottom
                } else if c == 'a' {
                    UiCommand::SetFilter(ListFilter::All)
                } else if c == 'e' {
                    UiCommand::SetFilter(ListFilter::Explicit)
                } else if c == 'o' {
                    UiCommand::SetFilter(ListFilter::Orphans)
                } else if c == 'f' {
                    UiCommand::SetFilter(ListFilter::Foreign)
                } else if c == 's' {
                    UiCommand::OpenFilterInput
                } else {
                    UiCommand::Nothing
                }
            },
            _ => UiCommand::Nothing,
        },
        Screens::FilterInput => match key {
            Key::Enter => UiCommand::ConfirmFilter,
            Key::Esc => UiCommand::CancelFilter,
            _ => UiCommand::EditInput,
        },
    }
}

/// The key table, executable: see `dispatch_spec`.
pub fn dispatch_key(screen: Screens, key: Key) -> (c: UiCommand)
    ensures
        c == dispatch_spec(screen, key),
{
    match screen {
        Screens::DetailsList => match key {
            Key::Up => UiCommand::MovePrevious,
            Key::Down => UiCommand::MoveNext,
            Key::Char(c) => {
                if c == 'q' {
                    UiCommand::Quit
                } else if c == 'k' {
                    UiCommand::MovePrevious
                } else if c == 'j' {
                    UiCommand::MoveNext
                } else if c == 'g' {
                    UiCommand::GoTop
                } else if c == 'G' {
                    UiCommand::GoBottom
                } else if c == 'a' {
                    UiCommand::SetFilter(ListFilter::All)
                } else if c == 'e' {
                    UiCommand::SetFilter(ListFilter::Explicit)
                } else if c == 'o' {
                    UiCommand::SetFilter(ListFilter::Orphans)
                } else if c == 'f' {
                    UiCommand::SetFilter(ListFilter::Foreign)
                } else if c == 's' {
                    UiCommand::OpenFilterInput
                } else {
                    UiCommand::Nothing
                }
            },
            _ => UiCommand::Nothing,
        },
        Screens::FilterInput => match key {
            Key::Enter => UiCommand::ConfirmFilter,
            Key::Esc => UiCommand::CancelFilter,
            _ => UiCommand::EditInput,
        },
    }
}

/// The application core: the filterable package list and the screen
/// the interaction currently shows.
pub struct App {
    pub packages_list: StatefulList,
    pub current_screen: Screens,
}

impl App {
    /// Takes ownership of the catalog; the session starts on the
    /// listing screen with the all-pass filter.
    pub fn new(packages: Vec<PackageVersionInfo>) -> (r: App)
        ensures
            r.packages_list.wf(),
            r.packages_list.items == packages,
            r.packages_list.list_filter@ == FilterView::All,
            r.packages_list.filtered_items@.len() == packages@.len(),
            r.current_screen == Screens::DetailsList,
    {
        App { packages_list: StatefulList::new(packages), current_screen: Screens::DetailsList }
    }

    /// Handles one key event: looks the key up in the transition table
    /// for the current screen, applies the operation, and reports what
    /// the surrounding loop still has to do. `filter_text` is the
    /// text-entry buffer's content, used when the entry is confirmed.
    pub fn handle_key(&mut self, key: Key, filter_text: &str) -> (act: Action)
        requires
            old(self).packages_list.wf(),
        ensures
            final(self).packages_list.wf(),
            match dispatch_spec(old(self).current_screen, key) {
                UiCommand::Nothing => *final(self) == *old(self) && act == Action::Nothing,
                UiCommand::Quit => *final(self) == *old(self) && act == Action::Quit,
                UiCommand::MoveNext => next_effect(old(self).packages_list,
                    final(self).packages_list) && final(self).current_screen == old(self).current_screen && act == Action::Nothing,
                UiCommand::MovePrevious => previous_effect(old(self).packages_list,
                    final(self).packages_list) && final(self).current_screen == old(self).current_screen && act == Action::Nothing,
                UiCommand::GoTop => go_top_effect(old(self).packages_list,
                    final(self).packages_list) && final(self).current_screen == old(self).current_screen && act == Action::Nothing,
                UiCommand::GoBottom => go_bottom_effect(old(self).packages_list,
                    final(self).packages_list) && final(self).current_screen == old(self).current_screen && act == Action::Nothing,
                UiCommand::SetFilter(f) => refilter_effect(old(self).packages_list,
                    final(self).packages_list, f@) && final(self).current_screen == old(self).current_screen && act == Action::Nothing,
                UiCommand::OpenFilterInput => final(self).packages_list == old(self).packages_list
                    && final(self).current_screen == Screens::FilterInput && act
                    == Action::Nothing,
                UiCommand::ConfirmFilter => refilter_effect(old(self).packages_list,
                    final(self).packages_list, FilterView::Search(filter_text@)) && final(self).current_screen == Screens::DetailsList && act == Action::ResetInput,
                UiCommand::CancelFilter => final(self).packages_list == old(self).packages_list
                    && final(self).current_screen == Screens::DetailsList && act
                    == Action::ResetInput,
                UiCommand::EditInput => *final(self) == *old(self) && act == Action::EditInput,
            },
    {
        match dispatch_key(self.current_screen, key) {
            UiCommand::Nothing => Action::Nothing,
            UiCommand::Quit => Action::Quit,
            UiCommand::MoveNext => {
                self.packages_list.next();
                Action::Nothing
            },
            UiCommand::MovePrevious => {
                self.packages_list.previous();
                Action::Nothing
            },
            UiCommand::GoTop => {
                self.packages_list.go_top();
                Action::Nothing
            },
            UiCommand::GoBottom => {
                self.packages_list.go_bottom();
                Action::Nothing
            },
            UiCommand::SetFilter(f) => {
                self.packages_list.change_filter(f);
                Action::Nothing
            },
            UiCommand::OpenFilterInput => {
                self.current_screen = Screens::FilterInput;
                Action::Nothing
            },
            UiCommand::ConfirmFilter => {
                self.packages_list.change_filter(ListFilter::Search(filter_text.to_owned()));
                self.current_screen = Screens::DetailsList;
                Action::ResetInput
            },
            UiCommand::CancelFilter => {
                self.current_screen = Screens::DetailsList;
                Action::ResetInput
            },
            UiCommand::EditInput => Action::EditInput,
        }
    }
}

} // verus!

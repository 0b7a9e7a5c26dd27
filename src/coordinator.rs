//! The view coordinator: the catalog, its category index, the active view,
//! the selection, the busy flag, the status line and the action log, and the
//! transitions between them.

use vstd::prelude::*;
use crate::catalog::{ProgramEntry, ProgramRow, SoftwareCatalog};
use crate::category::{build_category_index, is_category_index, label_of, lemma_empty_catalog_index, CategoryGroup};
use crate::filter::{filter_programs, lemma_shown_prefix, shown, ViewSelector};
use crate::selection::{checked_count, SelectionTracker};
use crate::navigation::{all_label, separator_label, stealth_label, tree_labels};
use crate::text::{decimal, decimal_of, same_text};

verus! {

/// An action that works on the checked programs.
#[derive(Clone, Copy, Debug, PartialEq, Eq, Structural)]
pub enum ActionKind {
    Install,
    Download,
}

/// What became of an action request.
#[derive(Clone, Copy, Debug, PartialEq, Eq, Structural)]
pub enum ActionOutcome {
    /// No visible program was checked: nothing changed.
    NoSelection,
    /// The action started on this many checked programs.
    Started(usize),
}

/// `prefix`, the decimal notation of `n`, then `suffix`.
pub open spec fn count_text(prefix: Seq<char>, n: nat, suffix: Seq<char>) -> Seq<char> {
    prefix + decimal_of(n) + suffix
}

/// `prefix`, the decimal notation of `n`, then `suffix`.
pub fn count_message(prefix: &str, n: usize, suffix: &str) -> (r: String)
    ensures
        r@ == count_text(prefix@, n as nat, suffix@),
{
    let mut s = prefix.to_owned();
    let digits = decimal(n);
    s.append(digits.as_str());
    s.append(suffix);
    s
}

/// The status line for a view that shows `n` programs.
pub open spec fn view_status(sel: ViewSelector, n: nat) -> Seq<char> {
    match sel {
        ViewSelector::All => count_text("Showing "@, n, " programs"@),
        ViewSelector::Category(k) => count_text("Showing "@, n, " programs in "@) + k@,
        ViewSelector::Stealth => count_text("Showing "@, n, " stealth/privacy programs"@),
    }
}

/// The status line for a view that shows `n` programs.
pub fn view_status_text(sel: &ViewSelector, n: usize) -> (r: String)
    ensures
        r@ == view_status(*sel, n as nat),
{
    match sel {
        ViewSelector::All => count_message("Showing ", n, " programs"),
        ViewSelector::Category(k) => {
            let mut s = count_message("Showing ", n, " programs in ");
            s.append(k.as_str());
            s
        },
        ViewSelector::Stealth => count_message("Showing ", n, " stealth/privacy programs"),
    }
}

/// The log line that starts an action on `n` programs.
pub open spec fn action_log(kind: ActionKind, n: nat) -> Seq<char> {
    match kind {
        ActionKind::Install => count_text("Starting installation of "@, n, " programs..."@),
        ActionKind::Download => count_text("Starting download of "@, n, " programs..."@),
    }
}

/// The notice shown when an action is asked for with nothing checked.
pub open spec fn no_selection_notice(kind: ActionKind) -> Seq<char> {
    match kind {
        ActionKind::Install => "Please select programs to install"@,
        ActionKind::Download => "Please select programs to download"@,
    }
}

/// The notice shown when an action is asked for with nothing checked.
pub fn no_selection_text(kind: ActionKind) -> (r: &'static str)
    ensures
        r@ == no_selection_notice(kind),
{
    match kind {
        ActionKind::Install => "Please select programs to install",
        ActionKind::Download => "Please select programs to download",
    }
}

/// A log entry as displayed: the time in brackets, a space, the text.
pub open spec fn stamped(time: Seq<char>, text: Seq<char>) -> Seq<char> {
    "["@ + time + "] "@ + text
}

/// A log entry as displayed: the time in brackets, a space, the text.
pub fn stamp(time: &str, text: &str) -> (r: String)
    ensures
        r@ == stamped(time@, text@),
{
    let mut s = "[".to_owned();
    s.append(time);
    s.append("] ");
    s.append(text);
    s
}

/// The state of the coordinator as values.
pub ghost struct CoordinatorView {
    /// A catalog has been loaded.
    pub ready: bool,
    pub catalog: Seq<ProgramEntry>,
    pub groups: Seq<CategoryGroup>,
    pub selector: ViewSelector,
    /// Catalog positions of the rows on display, in order.
    pub visible: Seq<usize>,
    /// Names of the checked programs.
    pub checked: Set<Seq<char>>,
    /// An install or download is under way.
    pub busy: bool,
    pub status: Seq<char>,
    pub log: Seq<Seq<char>>,
}

impl CoordinatorView {
    /// The index belongs to the catalog and the rows on display are those
    /// the active view selects.
    pub open spec fn wf(self) -> bool {
        &&& self.catalog.len() <= usize::MAX
        &&& is_category_index(self.catalog, self.groups)
        &&& self.visible == shown(self.selector, self.catalog)
    }

    /// Some record of the catalog has this name.
    pub open spec fn has_program(self, id: Seq<char>) -> bool {
        exists|j: int| 0 <= j < self.catalog.len() && (#[trigger] self.catalog[j]).name@ == id
    }

    /// The names of the rows on display, in order.
    pub open spec fn visible_names(self) -> Seq<String> {
        Seq::new(self.visible.len(), |i: int| self.catalog[self.visible[i] as int].name)
    }

    /// How many rows on display are checked.
    pub open spec fn checked_visible(self) -> nat {
        checked_count(self.checked, self.visible_names())
    }

    /// After switching to view `sel`: the selection stays as it was.
    pub open spec fn navigated(self, sel: ViewSelector) -> CoordinatorView {
        let rows = shown(sel, self.catalog);
        CoordinatorView {
            selector: sel,
            visible: rows,
            status: view_status(sel, rows.len()),
            ..self
        }
    }

    /// After setting the checked state of a program. A name that the catalog
    /// does not hold changes nothing.
    pub open spec fn with_checked(self, id: Seq<char>, on: bool) -> CoordinatorView {
        if self.has_program(id) {
            let checked = if on {
                self.checked.insert(id)
            } else {
                self.checked.remove(id)
            };
            let after = CoordinatorView { checked, ..self };
            CoordinatorView {
                status: count_text("Selected "@, after.checked_visible(), " items"@),
                ..after
            }
        } else {
            self
        }
    }

    /// After checking or unchecking every row on display.
    pub open spec fn bulk_selected(self, on: bool) -> CoordinatorView {
        let names = Set::new(
            |n: Seq<char>| exists|i: int| 0 <= i < self.visible.len() && n == (#[trigger] self.catalog[self.visible[i] as int]).name@,
        );
        CoordinatorView {
            checked: if on {
                self.checked.union(names)
            } else {
                self.checked.difference(names)
            },
            status: count_text(
                if on {
                    "Selected "@
                } else {
                    "Deselected "@
                },
                self.visible.len(),
                " items"@,
            ),
            log: self.log.push(
                if on {
                    "All items selected"@
                } else {
                    "All items deselected"@
                },
            ),
            ..self
        }
    }

    /// What an action request returns.
    pub open spec fn action_outcome(self) -> ActionOutcome {
        if self.checked_visible() == 0 {
            ActionOutcome::NoSelection
        } else {
            ActionOutcome::Started(self.checked_visible() as usize)
        }
    }

    /// After an action request: with nothing checked on display nothing
    /// changes; otherwise the coordinator is busy and the start is logged.
    pub open spec fn after_action(self, kind: ActionKind) -> CoordinatorView {
        if self.checked_visible() == 0 {
            self
        } else {
            CoordinatorView {
                busy: true,
                log: self.log.push(action_log(kind, self.checked_visible())),
                ..self
            }
        }
    }

    /// After a line is added to the log.
    pub open spec fn noted(self, text: Seq<char>) -> CoordinatorView {
        CoordinatorView { log: self.log.push(text), ..self }
    }

    /// After a stop request.
    pub open spec fn stopped(self) -> CoordinatorView {
        CoordinatorView { busy: false, log: self.log.push("Operation cancelled by user"@), ..self }
    }
}

/// Owns the catalog, its category index, the active view, the selection and
/// what the user sees of them, and applies the user's events one at a time.
#[derive(Debug)]
pub struct Coordinator {
    ready: bool,
    catalog: Vec<ProgramEntry>,
    groups: Vec<CategoryGroup>,
    selector: ViewSelector,
    visible: Vec<usize>,
    selection: SelectionTracker,
    busy: bool,
    status: String,
    log: Vec<String>,
}

/// The texts of a list of strings.
pub open spec fn texts(v: Seq<String>) -> Seq<Seq<char>> {
    v.map_values(|s: String| s@)
}

impl View for Coordinator {
    type V = CoordinatorView;

    closed spec fn view(&self) -> CoordinatorView {
        CoordinatorView {
            ready: self.ready,
            catalog: self.catalog@,
            groups: self.groups@,
            selector: self.selector,
            visible: self.visible@,
            checked: self.selection@,
            busy: self.busy,
            status: self.status@,
            log: texts(self.log@),
        }
    }
}


impl Coordinator {
    /// A coordinator with no catalog loaded yet.
    pub fn new() -> (r: Coordinator)
        ensures
            r@.wf(),
            !r@.ready,
            r@.catalog.len() == 0,
            r@.groups.len() == 0,
            r@.selector is All,
            r@.checked == Set::<Seq<char>>::empty(),
            !r@.busy,
            r@.status == "Ready"@,
            r@.log.len() == 0,
    {
        let catalog: Vec<ProgramEntry> = Vec::new();
        let groups: Vec<CategoryGroup> = Vec::new();
        let visible = filter_programs(&ViewSelector::All, &catalog);
        proof {
            lemma_empty_catalog_index();
            assert(catalog@ =~= Seq::<ProgramEntry>::empty());
            assert(groups@ =~= Seq::<CategoryGroup>::empty());
        }
        let r = Coordinator {
            ready: false,
            catalog,
            groups,
            selector: ViewSelector::All,
            visible,
            selection: SelectionTracker::new(),
            busy: false,
            status: "Ready".to_owned(),
            log: Vec::new(),
        };
        assert(texts(r.log@) =~= Seq::<Seq<char>>::empty());
        r
    }

    fn push_log(&mut self, line: String)
        ensures
            final(self)@ == old(self)@.noted(line@),
    {
        self.log.push(line);
        assert(texts(self.log@) =~= texts(old(self).log@).push(line@));
    }

    /// Loads a catalog: builds its category index, shows the whole catalog,
    /// starts with nothing checked and not busy, and logs how many programs
    /// came.
    pub fn load_catalog(&mut self, catalog: SoftwareCatalog)
        ensures
            final(self)@.wf(),
            final(self)@.ready,
            final(self)@.catalog == catalog.software@,
            final(self)@.selector is All,
            final(self)@.visible == shown(ViewSelector::All, catalog.software@),
            final(self)@.checked == Set::<Seq<char>>::empty(),
            !final(self)@.busy,
            final(self)@.status == view_status(ViewSelector::All, catalog.software@.len()),
            final(self)@.log == old(self)@.log.push(
                count_text("Loaded "@, catalog.software@.len(), " programs from catalog"@),
            ),
    {
        let software = catalog.software;
        let n = software.len();
        self.groups = build_category_index(&software);
        self.visible = filter_programs(&ViewSelector::All, &software);
        self.status = view_status_text(&ViewSelector::All, n);
        self.catalog = software;
        self.selector = ViewSelector::All;
        self.selection = SelectionTracker::new();
        self.busy = false;
        self.ready = true;
        let line = count_message("Loaded ", n, " programs from catalog");
        self.push_log(line);
    }

    /// Switches to view `sel`. The selection is left as it was, also for
    /// programs the new view hides.
    pub fn navigate(&mut self, sel: ViewSelector)
        requires
            old(self)@.wf(),
        ensures
            final(self)@ == old(self)@.navigated(sel),
            final(self)@.wf(),
    {
        let rows = filter_programs(&sel, &self.catalog);
        self.status = view_status_text(&sel, rows.len());
        self.visible = rows;
        self.selector = sel;
    }

    /// Switches to the stealth view and logs it.
    pub fn activate_stealth(&mut self)
        requires
            old(self)@.wf(),
        ensures
            final(self)@ == old(self)@.navigated(ViewSelector::Stealth).noted(
                "Stealth mode activated - privacy tools selected"@,
            ),
            final(self)@.wf(),
    {
        self.navigate(ViewSelector::Stealth);
        self.push_log("Stealth mode activated - privacy tools selected".to_owned());
    }

    /// Whether some record of the catalog has this name.
    pub fn has_program(&self, id: &str) -> (r: bool)
        ensures
            r == self@.has_program(id@),
    {
        let mut j: usize = 0;
        while j < self.catalog.len()
            invariant
                j <= self.catalog@.len(),
                forall|t: int| 0 <= t < j ==> (#[trigger] self.catalog@[t]).name@ != id@,
            decreases self.catalog@.len() - j,
        {
            if same_text(self.catalog[j].name.as_str(), id) {
                return true;
            }
            j = j + 1;
        }
        false
    }

    /// The names of the rows on display, in order.
    pub fn visible_names(&self) -> (r: Vec<String>)
        requires
            self@.wf(),
        ensures
            r@ == self@.visible_names(),
    {
        proof {
            lemma_shown_prefix(self.selector, self.catalog@, self.catalog@.len() as int);
        }
        let mut r: Vec<String> = Vec::new();
        let mut i: usize = 0;
        while i < self.visible.len()
            invariant
                self@.wf(),
                i <= self.visible@.len(),
                r@ == self@.visible_names().take(i as int),
                forall|t: int|
                    0 <= t < self.visible@.len() ==> (#[trigger] self.visible@[t])
                        < self.catalog@.len(),
            decreases self.visible@.len() - i,
        {
            r.push(self.catalog[self.visible[i]].name.clone());
            i = i + 1;
            assert(r@ =~= self@.visible_names().take(i as int));
        }
        assert(r@ =~= self@.visible_names());
        r
    }

    /// How many rows on display are checked.
    pub fn count_checked_visible(&self) -> (r: usize)
        requires
            self@.wf(),
        ensures
            r == self@.checked_visible(),
    {
        let names = self.visible_names();
        self.selection.count_checked(&names)
    }

    /// Whether the named program is checked; `false` for unknown names.
    pub fn is_checked(&self, id: &str) -> (r: bool)
        ensures
            r == self@.checked.contains(id@),
    {
        self.selection.is_checked(id)
    }

    /// Checks or unchecks the named program and shows how many rows on
    /// display are checked. A name the catalog does not hold changes nothing.
    pub fn set_checked(&mut self, id: &str, on: bool)
        requires
            old(self)@.wf(),
        ensures
            final(self)@ == old(self)@.with_checked(id@, on),
            final(self)@.wf(),
    {
        if self.has_program(id) {
            self.selection.set_checked(id, on);
            let n = self.count_checked_visible();
            self.status = count_message("Selected ", n, " items");
        }
    }

    /// Flips the checked state of the named program. A name the catalog
    /// does not hold changes nothing.
    pub fn toggle_row(&mut self, id: &str)
        requires
            old(self)@.wf(),
        ensures
            final(self)@ == old(self)@.with_checked(id@, !old(self)@.checked.contains(id@)),
            final(self)@.wf(),
    {
        let on = !self.is_checked(id);
        self.set_checked(id, on);
    }

    /// Checks or unchecks every row on display; returns how many rows that
    /// is.
    pub fn bulk_select(&mut self, on: bool) -> (r: usize)
        requires
            old(self)@.wf(),
        ensures
            r == old(self)@.visible.len(),
            final(self)@ == old(self)@.bulk_selected(on),
            final(self)@.wf(),
    {
        let names = self.visible_names();
        let n = self.selection.select_all(&names, on);
        proof {
            let v = old(self)@;
            let set = Set::new(
                |m: Seq<char>| exists|i: int| 0 <= i < v.visible.len() && m == (#[trigger] v.catalog[v.visible[i] as int]).name@,
            );
            assert forall|m: Seq<char>| #[trigger] crate::selection::names_of(names@).contains(m)
                == set.contains(m) by {
                if set.contains(m) {
                    let i = choose|i: int| 0 <= i < v.visible.len() && m == (#[trigger] v.catalog[v.visible[i] as int]).name@;
                    assert(names@[i]@ == m);
                }
                if crate::selection::names_of(names@).contains(m) {
                    let i = choose|i: int| 0 <= i < names@.len() && (#[trigger] names@[i])@ == m;
                    assert(m == v.catalog[v.visible[i] as int].name@);
                }
            }
            assert(crate::selection::names_of(names@) =~= set);
        }
        let prefix = if on {
            "Selected "
        } else {
            "Deselected "
        };
        self.status = count_message(prefix, n, " items");
        let line = if on {
            "All items selected"
        } else {
            "All items deselected"
        };
        self.push_log(line.to_owned());
        n
    }

    /// Asks for an install or download of the checked rows on display. With
    /// none checked the request is refused and nothing changes; otherwise the
    /// coordinator turns busy and logs the start.
    pub fn request_action(&mut self, kind: ActionKind) -> (r: ActionOutcome)
        requires
            old(self)@.wf(),
        ensures
            r == old(self)@.action_outcome(),
            final(self)@ == old(self)@.after_action(kind),
            final(self)@.wf(),
    {
        let n = self.count_checked_visible();
        if n == 0 {
            return ActionOutcome::NoSelection;
        }
        let line = match kind {
            ActionKind::Install => count_message("Starting installation of ", n, " programs..."),
            ActionKind::Download => count_message("Starting download of ", n, " programs..."),
        };
        self.busy = true;
        self.push_log(line);
        ActionOutcome::Started(n)
    }

    /// Stops whatever runs: the coordinator is no longer busy, and the stop
    /// is logged.
    pub fn request_stop(&mut self)
        requires
            old(self)@.wf(),
        ensures
            final(self)@ == old(self)@.stopped(),
            final(self)@.wf(),
    {
        self.busy = false;
        self.push_log("Operation cancelled by user".to_owned());
    }

    /// Adds a line to the log.
    pub fn note(&mut self, text: &str)
        ensures
            final(self)@ == old(self)@.noted(text@),
    {
        self.push_log(text.to_owned());
    }
}


impl Coordinator {
    /// Whether a catalog has been loaded.
    pub fn is_ready(&self) -> (r: bool)
        ensures
            r == self@.ready,
    {
        self.ready
    }

    /// Whether an install or download is under way.
    pub fn is_busy(&self) -> (r: bool)
        ensures
            r == self@.busy,
    {
        self.busy
    }

    /// The catalog.
    pub fn catalog(&self) -> (r: &Vec<ProgramEntry>)
        ensures
            r@ == self@.catalog,
    {
        &self.catalog
    }

    /// The category index.
    pub fn groups(&self) -> (r: &Vec<CategoryGroup>)
        ensures
            r@ == self@.groups,
    {
        &self.groups
    }

    /// The active view.
    pub fn selector(&self) -> (r: &ViewSelector)
        ensures
            *r == self@.selector,
    {
        &self.selector
    }

    /// Catalog positions of the rows on display, in order.
    pub fn visible(&self) -> (r: &Vec<usize>)
        ensures
            r@ == self@.visible,
    {
        &self.visible
    }

    /// The status line.
    pub fn status(&self) -> (r: &str)
        ensures
            r@ == self@.status,
    {
        self.status.as_str()
    }

    /// The action log, oldest line first.
    pub fn log(&self) -> (r: &Vec<String>)
        ensures
            texts(r@) == self@.log,
    {
        &self.log
    }

    /// The labels of the category tree: one per group, then the separator,
    /// the stealth view and the whole-catalog view.
    pub fn tree_labels(&self) -> (r: Vec<String>)
        ensures
            r@.len() == self@.groups.len() + 3,
            forall|i: int|
                0 <= i < self@.groups.len() ==> (#[trigger] r@[i])@ == label_of(
                    self@.groups[i].icon@,
                    self@.groups[i].name@,
                    self@.groups[i].members@.len(),
                ),
            r@[self@.groups.len() as int]@ == separator_label(),
            r@[self@.groups.len() + 1int]@ == stealth_label(),
            r@[self@.groups.len() + 2int]@ == all_label(),
    {
        tree_labels(&self.groups)
    }

    /// The rows on display, in order.
    pub fn rows(&self) -> (r: Vec<ProgramRow>)
        requires
            self@.wf(),
        ensures
            r@.len() == self@.visible.len(),
            forall|i: int|
                0 <= i < r@.len() ==> (#[trigger] r@[i]).shows(
                    self@.catalog[self@.visible[i] as int],
                ),
    {
        proof {
            lemma_shown_prefix(self.selector, self.catalog@, self.catalog@.len() as int);
        }
        let mut r: Vec<ProgramRow> = Vec::new();
        let mut i: usize = 0;
        while i < self.visible.len()
            invariant
                i <= self.visible@.len(),
                r@.len() == i,
                forall|t: int|
                    0 <= t < self.visible@.len() ==> (#[trigger] self.visible@[t])
                        < self.catalog@.len(),
                forall|t: int|
                    0 <= t < i ==> (#[trigger] r@[t]).shows(self.catalog@[self.visible@[t] as int]),
            decreases self.visible@.len() - i,
        {
            r.push(self.catalog[self.visible[i]].row());
            i = i + 1;
        }
        r
    }
}

/// Checking a program of the catalog and then switching to any view leaves
/// it checked.
pub proof fn lemma_check_survives_navigation(v: CoordinatorView, id: Seq<char>, sel: ViewSelector)
    requires
        v.has_program(id),
    ensures
        v.with_checked(id, true).navigated(sel).checked.contains(id),
        v.with_checked(id, true).navigated(sel).checked == v.with_checked(id, true).checked,
{
}

/// An install or download asked for while no row on display is checked is
/// refused, changes nothing, and so never turns the coordinator busy.
pub proof fn lemma_no_selection_refused(v: CoordinatorView, kind: ActionKind)
    requires
        v.checked_visible() == 0,
    ensures
        v.action_outcome() == ActionOutcome::NoSelection,
        v.after_action(kind) == v,
        v.after_action(kind).busy == v.busy,
{
}

} // verus!

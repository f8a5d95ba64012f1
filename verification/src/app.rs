//! The picker's state machine: the workspace list, the filter, the selection,
//! the modes for naming a new workspace and confirming a forget, and the preview
//! cache. Every key press is one transition; side effects (running jj, writing
//! directive files) are left to the caller, which acts on the returned `Step`.

use vstd::prelude::*;
use crate::config::{Config, Theme};
use crate::fuzzy::{matches_view, rank, ranking, is_ranking, strings_view, Match};
use crate::jj::{Workspace, WorkspaceView, workspaces_view};
use crate::keymap::{has_flag, resolve_action, Action, KeyCode, KeyEvent};
use crate::text::{chars_of, is_blank, is_whitespace, replace, replace_chars, string_of};

verus! {

/// What the user chose; the caller maps it to directive-file writes.
#[derive(Debug, Clone, PartialEq, Eq)]
pub enum Outcome {
    Cd(String),
    Open { path: String, cmd: String },
    Abort,
}

/// The picker's input mode.
#[derive(Debug, Clone, Copy, PartialEq, Eq, Structural)]
pub enum Mode {
    Normal,
    NewName,
    ConfirmForget,
}

/// Result of handling one key; the caller performs any side effect.
#[derive(Debug, Clone, PartialEq, Eq)]
pub enum Step {
    /// State updated; redraw and keep looping.
    Continue,
    /// Terminal: cd, open, or abort.
    Done(Outcome),
    /// Run `jj workspace add`, then cd into `path`.
    Create { name: String, path: String },
    /// Run `jj workspace forget`, then refresh the list.
    Forget { name: String },
}

/// A step with its strings as sequences of characters.
pub enum StepView {
    Continue,
    Cd(Seq<char>),
    Open(Seq<char>, Seq<char>),
    Abort,
    Create(Seq<char>, Seq<char>),
    Forget(Seq<char>),
}

/// The view of a step.
pub open spec fn step_view(s: Step) -> StepView {
    match s {
        Step::Continue => StepView::Continue,
        Step::Done(Outcome::Cd(p)) => StepView::Cd(p@),
        Step::Done(Outcome::Open { path, cmd }) => StepView::Open(path@, cmd@),
        Step::Done(Outcome::Abort) => StepView::Abort,
        Step::Create { name, path } => StepView::Create(name@, path@),
        Step::Forget { name } => StepView::Forget(name@),
    }
}

/// The parent directory of a path as std computes it (`Path::parent`), if any.
pub uninterp spec fn path_parent(p: Seq<char>) -> Option<Seq<char>>;

/// The final component of a path as std computes it (`Path::file_name`), if any.
pub uninterp spec fn path_file_name(p: Seq<char>) -> Option<Seq<char>>;

/// `Path::new(p).parent()`, as a string. Claimed: the result is the named
/// `path_parent` of `p` (the path comes from a `str`, so the lossy conversion
/// loses nothing). Which parent std finds is not stated.
#[verifier::external_body]
fn parent_of(p: &str) -> (r: Option<String>)
    ensures
        match r {
            Some(x) => path_parent(p@) == Some(x@),
            None => path_parent(p@) is None,
        },
{
    match std::path::Path::new(p).parent() {
        Some(x) => Some(x.to_string_lossy().into_owned()),
        None => None,
    }
}

/// `Path::new(p).file_name()`, as a string. Claimed: the result is the named
/// `path_file_name` of `p`. Which component std finds is not stated.
#[verifier::external_body]
fn file_name_of(p: &str) -> (r: Option<String>)
    ensures
        match r {
            Some(x) => path_file_name(p@) == Some(x@),
            None => path_file_name(p@) is None,
        },
{
    match std::path::Path::new(p).file_name() {
        Some(x) => Some(x.to_string_lossy().into_owned()),
        None => None,
    }
}

/// The repo root named by the target of a secondary workspace's `.jj/repo`
/// link: the directory two levels above that `.jj/repo` path.
pub open spec fn root_of_store(store: Seq<char>) -> Option<Seq<char>> {
    match path_parent(store) {
        Some(dot_jj) => path_parent(dot_jj),
        None => None,
    }
}

/// The repo root for the `.jj/repo` path `store` (`<root>/.jj/repo`), if it has one.
pub fn repo_root_from_store(store: &str) -> (r: Option<String>)
    ensures
        match r {
            Some(x) => root_of_store(store@) == Some(x@),
            None => root_of_store(store@) is None,
        },
{
    match parent_of(store) {
        Some(dot_jj) => parent_of(dot_jj.as_str()),
        None => None,
    }
}

/// `tmpl` with `{parent}`, then `{repo}`, then `{name}` replaced.
pub open spec fn expand(tmpl: Seq<char>, parent: Seq<char>, repo: Seq<char>, name: Seq<char>) -> Seq<char> {
    replace(replace(replace(tmpl, "{parent}"@, parent), "{repo}"@, repo), "{name}"@, name)
}

/// Pure function: expand `{parent}`, `{repo}`, `{name}` in `tmpl`.
pub fn expand_path_template(tmpl: &str, parent: &str, repo: &str, name: &str) -> (r: String)
    ensures
        r@ == expand(tmpl@, parent@, repo@, name@),
{
    let t = chars_of(tmpl);
    let p1 = chars_of("{parent}");
    let p2 = chars_of("{repo}");
    let p3 = chars_of("{name}");
    proof {
        reveal_strlit("{parent}");
        reveal_strlit("{repo}");
        reveal_strlit("{name}");
    }
    let s1 = replace_chars(&t, &p1, &chars_of(parent));
    let s2 = replace_chars(&s1, &p2, &chars_of(repo));
    let s3 = replace_chars(&s2, &p3, &chars_of(name));
    string_of(s3.as_slice())
}

/// The Normal-mode keys that are always on, whatever the `[keys]` table binds:
/// the arrows, ctrl-c, Backspace, and a character typed without alt or ctrl.
pub open spec fn is_fixed_key(ev: KeyEvent) -> bool {
    let alt = has_flag(ev.modifiers.bits, 4);
    let ctrl = has_flag(ev.modifiers.bits, 2);
    match ev.code {
        KeyCode::Up => true,
        KeyCode::Down => true,
        KeyCode::Backspace => true,
        KeyCode::Char(c) => (c == 'c' && ctrl) || (!alt && !ctrl),
        _ => false,
    }
}

/// The path for a new workspace named `name`: `tmpl` expanded with the parent
/// directory of `repo_root`, its final component, and the name (a missing
/// parent or component expands to nothing).
pub open spec fn template_path(tmpl: Seq<char>, repo_root: Seq<char>, name: Seq<char>) -> Seq<char> {
    let parent = match path_parent(repo_root) {
        Some(p) => p,
        None => Seq::empty(),
    };
    let repo = match path_file_name(repo_root) {
        Some(f) => f,
        None => Seq::empty(),
    };
    expand(tmpl, parent, repo, name)
}

/// The path for a new workspace named `name` under the repo at `repo_root`.
pub fn new_workspace_path(tmpl: &str, repo_root: &str, name: &str) -> (r: String)
    ensures
        r@ == template_path(tmpl@, repo_root@, name@),
{
    let parent = match parent_of(repo_root) {
        Some(p) => p,
        None => String::new(),
    };
    let repo = match file_name_of(repo_root) {
        Some(f) => f,
        None => String::new(),
    };
    expand_path_template(tmpl, parent.as_str(), repo.as_str(), name)
}

/// The names of a list of workspaces.
pub open spec fn names(ws: Seq<WorkspaceView>) -> Seq<Seq<char>> {
    Seq::new(ws.len(), |i: int| ws[i].name)
}

/// `sel` kept inside a list of `len` entries (0 when the list is empty).
pub open spec fn clamp_selection(sel: int, len: int) -> int {
    if len <= 0 {
        0
    } else if sel >= len {
        len - 1
    } else {
        sel
    }
}

/// The picker's abstract state.
pub struct Picker {
    pub workspaces: Seq<WorkspaceView>,
    pub repo_root: Seq<char>,
    pub config: Config,
    pub filter: Seq<char>,
    pub selected: int,
    pub mode: Mode,
    pub input: Seq<char>,
}

impl Picker {
    /// The visible rows: the workspaces ranked against the filter.
    pub open spec fn matches(self) -> Seq<(usize, i64, Seq<usize>)> {
        ranking(names(self.workspaces), self.filter)
    }

    /// The selection points into the visible rows (or is 0 when there are none).
    pub open spec fn valid(self) -> bool {
        ||| self.matches().len() == 0 && self.selected == 0
        ||| 0 <= self.selected < self.matches().len()
    }

    /// The selected workspace, if any row is visible.
    pub open spec fn selected_ws(self) -> Option<WorkspaceView> {
        if 0 <= self.selected < self.matches().len() {
            Some(self.workspaces[self.matches()[self.selected].0 as int])
        } else {
            None
        }
    }

    /// The state with a new filter, the selection clamped to the new rows.
    pub open spec fn with_filter(self, f: Seq<char>) -> Picker {
        Picker {
            filter: f,
            selected: clamp_selection(self.selected, ranking(names(self.workspaces), f).len() as int),
            ..self
        }
    }

    /// The state with the selection moved by `delta` rows, clamped to the list.
    pub open spec fn moved(self, delta: int) -> Picker {
        let len = self.matches().len() as int;
        if len == 0 {
            self
        } else {
            let s = self.selected + delta;
            Picker { selected: if s < 0 { 0 } else if s > len - 1 { len - 1 } else { s }, ..self }
        }
    }

    /// The state in the given mode with an empty name buffer.
    pub open spec fn in_mode(self, m: Mode) -> Picker {
        Picker { mode: m, input: Seq::empty(), ..self }
    }

    /// The path for a new workspace: the template expanded with the repo root's
    /// parent directory, the repo root's final component, and the name.
    pub open spec fn new_path(self, name: Seq<char>) -> Seq<char> {
        template_path(self.config.path_template@, self.repo_root, name)
    }

    /// Row `k` is the first visible row that shows a workspace named `name`.
    pub open spec fn focus_row(self, name: Seq<char>, k: int) -> bool {
        &&& 0 <= k < self.matches().len()
        &&& self.workspaces[self.matches()[k].0 as int].name == name
        &&& forall|j: int| 0 <= j < k ==> self.workspaces[self.matches()[j].0 as int].name != name
    }

    /// The state with the first visible row named `name` selected (unchanged
    /// when no visible row has that name).
    pub open spec fn focused(self, name: Seq<char>) -> Picker {
        if exists|k: int| self.focus_row(name, k) {
            Picker { selected: choose|k: int| self.focus_row(name, k), ..self }
        } else {
            self
        }
    }

    /// A bound action. Actions that need a selection do nothing without one; the
    /// current workspace cannot be forgotten.
    pub open spec fn run_action(self, a: Action) -> (Picker, StepView) {
        match a {
            Action::Select => match self.selected_ws() {
                Some(w) => (self, StepView::Cd(w.path)),
                None => (self, StepView::Continue),
            },
            Action::Open => match self.selected_ws() {
                Some(w) => (self, StepView::Open(w.path, self.config.edit_cmd@)),
                None => (self, StepView::Continue),
            },
            Action::Agent => match self.selected_ws() {
                Some(w) => (self, StepView::Open(w.path, self.config.agent_cmd@)),
                None => (self, StepView::Continue),
            },
            Action::New => (self.in_mode(Mode::NewName), StepView::Continue),
            Action::Forget => match self.selected_ws() {
                Some(w) => if !w.is_current {
                    (Picker { mode: Mode::ConfirmForget, ..self }, StepView::Continue)
                } else {
                    (self, StepView::Continue)
                },
                None => (self, StepView::Continue),
            },
            Action::Up => (self.moved(-1), StepView::Continue),
            Action::Down => (self.moved(1), StepView::Continue),
            Action::Abort => (self, StepView::Abort),
        }
    }

    /// A key in Normal mode. The fixed keys come first and no `[keys]` table can
    /// take them: the arrows move, ctrl-c aborts, Backspace erases and a plain
    /// character (no alt, no ctrl) types into the filter. Any other key runs the
    /// action whose chord it matches, if any.
    pub open spec fn normal_key(self, ev: KeyEvent) -> (Picker, StepView) {
        let alt = has_flag(ev.modifiers.bits, 4);
        let ctrl = has_flag(ev.modifiers.bits, 2);
        if is_fixed_key(ev) {
            match ev.code {
                KeyCode::Up => (self.moved(-1), StepView::Continue),
                KeyCode::Down => (self.moved(1), StepView::Continue),
                KeyCode::Char(c) => if c == 'c' && ctrl {
                    (self, StepView::Abort)
                } else {
                    (self.with_filter(self.filter.push(c)), StepView::Continue)
                },
                _ => (
                    self.with_filter(
                        if self.filter.len() > 0 {
                            self.filter.drop_last()
                        } else {
                            self.filter
                        },
                    ),
                    StepView::Continue,
                ),
            }
        } else {
            match resolve_action(self.config.keys, ev) {
                Some(a) => self.run_action(a),
                None => (self, StepView::Continue),
            }
        }
    }

    /// A key while naming a new workspace. Enter on a blank name is ignored.
    pub open spec fn new_name_key(self, ev: KeyEvent) -> (Picker, StepView) {
        let alt = has_flag(ev.modifiers.bits, 4);
        let ctrl = has_flag(ev.modifiers.bits, 2);
        match ev.code {
            KeyCode::Esc => (self.in_mode(Mode::Normal), StepView::Continue),
            KeyCode::Enter => if is_blank(self.input) {
                (self, StepView::Continue)
            } else {
                (
                    self.in_mode(Mode::Normal),
                    StepView::Create(self.input, self.new_path(self.input)),
                )
            },
            KeyCode::Backspace => (
                Picker {
                    input: if self.input.len() > 0 {
                        self.input.drop_last()
                    } else {
                        self.input
                    },
                    ..self
                },
                StepView::Continue,
            ),
            KeyCode::Char(c) => if !alt && !ctrl {
                (Picker { input: self.input.push(c), ..self }, StepView::Continue)
            } else {
                (self, StepView::Continue)
            },
            _ => (self, StepView::Continue),
        }
    }

    /// A key while confirming a forget: a plain `y` forgets the selected
    /// workspace unless it is current; any key returns to Normal mode.
    pub open spec fn confirm_key(self, ev: KeyEvent) -> (Picker, StepView) {
        let alt = has_flag(ev.modifiers.bits, 4);
        let ctrl = has_flag(ev.modifiers.bits, 2);
        let back = Picker { mode: Mode::Normal, ..self };
        if ev.code == KeyCode::Char('y') && !alt && !ctrl {
            match self.selected_ws() {
                Some(w) => if !w.is_current {
                    (back, StepView::Forget(w.name))
                } else {
                    (back, StepView::Continue)
                },
                None => (back, StepView::Continue),
            }
        } else {
            (back, StepView::Continue)
        }
    }

    /// One key press: the new state and what the caller should do.
    pub open spec fn next(self, ev: KeyEvent) -> (Picker, StepView) {
        match self.mode {
            Mode::Normal => self.normal_key(ev),
            Mode::NewName => self.new_name_key(ev),
            Mode::ConfirmForget => self.confirm_key(ev),
        }
    }
}

/// The value cached for `k`: the last entry with that key.
pub open spec fn lookup(entries: Seq<(Seq<char>, Seq<char>)>, k: Seq<char>) -> Option<Seq<char>>
    decreases entries.len(),
{
    if entries.len() == 0 {
        None
    } else if entries.last().0 == k {
        Some(entries.last().1)
    } else {
        lookup(entries.drop_last(), k)
    }
}

/// The picker.
pub struct App {
    workspaces: Vec<Workspace>,
    repo_root: String,
    config: Config,
    filter: String,
    /// The ranked rows; indices into `workspaces`.
    matches: Vec<Match>,
    /// Index into `matches`.
    selected: usize,
    mode: Mode,
    /// The new-workspace name being typed (NewName mode).
    input: String,
    /// Workspace name -> diff-stat body.
    preview: Vec<(String, String)>,
}

impl View for App {
    type V = Picker;

    open spec fn view(&self) -> Picker {
        self.picker()
    }
}

impl App {
    /// The abstract state.
    pub closed spec fn picker(&self) -> Picker {
        Picker {
            workspaces: workspaces_view(self.workspaces@),
            repo_root: self.repo_root@,
            config: self.config,
            filter: self.filter@,
            selected: self.selected as int,
            mode: self.mode,
            input: self.input@,
        }
    }

    /// The preview body cached for workspace `name`.
    pub closed spec fn cached(&self, name: Seq<char>) -> Option<Seq<char>> {
        lookup(Seq::new(self.preview@.len(), |i: int| (self.preview@[i].0@, self.preview@[i].1@)), name)
    }

    /// The stored rows are the ranking of the names against the filter and the
    /// selection is valid.
    pub closed spec fn wf(&self) -> bool {
        &&& matches_view(self.matches@) == ranking(names(workspaces_view(self.workspaces@)), self.filter@)
        &&& is_ranking(names(workspaces_view(self.workspaces@)), self.filter@, matches_view(self.matches@))
        &&& self.picker().valid()
    }

    /// Rank the names against the filter again and clamp the selection.
    fn recompute(&mut self)
        ensures
            final(self).wf(),
            final(self)@ == (Picker {
                selected: clamp_selection(
                    old(self).selected as int,
                    ranking(names(old(self)@.workspaces), old(self)@.filter).len() as int,
                ),
                ..old(self)@
            }),
            final(self).preview == old(self).preview,
    {
        let names = names_of(&self.workspaces);
        self.matches = rank(names.as_slice(), self.filter.as_str());
        if self.matches.len() == 0 {
            self.selected = 0;
        } else if self.selected >= self.matches.len() {
            self.selected = self.matches.len() - 1;
        }
        proof {
            assert(matches_view(self.matches@).len() == self.matches@.len());
        }
    }

    pub fn new(workspaces: Vec<Workspace>, repo_root: String, config: Config) -> (app: App)
        ensures
            app.wf(),
            app@ == (Picker {
                workspaces: workspaces_view(workspaces@),
                repo_root: repo_root@,
                config,
                filter: Seq::empty(),
                selected: 0,
                mode: Mode::Normal,
                input: Seq::empty(),
            }),
            forall|k: Seq<char>| app.cached(k) is None,
    {
        let mut app = App {
            workspaces,
            repo_root,
            config,
            filter: String::new(),
            matches: Vec::new(),
            selected: 0,
            mode: Mode::Normal,
            input: String::new(),
            preview: Vec::new(),
        };
        app.recompute();
        app
    }

    // --- Accessors ---
    pub fn filter(&self) -> (r: &str)
        ensures
            r@ == self@.filter,
    {
        self.filter.as_str()
    }

    pub fn mode(&self) -> (r: &Mode)
        ensures
            *r == self@.mode,
    {
        &self.mode
    }

    /// The active color theme.
    pub fn theme(&self) -> (r: &Theme)
        ensures
            *r == self@.config.theme,
    {
        &self.config.theme
    }

    pub fn input(&self) -> (r: &str)
        ensures
            r@ == self@.input,
    {
        self.input.as_str()
    }

    pub fn total_count(&self) -> (r: usize)
        ensures
            r == self@.workspaces.len(),
    {
        self.workspaces.len()
    }

    pub fn filtered_count(&self) -> (r: usize)
        requires
            self.wf(),
        ensures
            r == self@.matches().len(),
    {
        self.matches.len()
    }

    /// A well-formed picker's selection points into its visible rows: the
    /// selected index is below the number of rows and names a workspace, or
    /// there are no rows, the index is 0 and nothing is selected.
    pub proof fn lemma_selection_valid(&self)
        requires
            self.wf(),
        ensures
            self@.valid(),
            self@.matches().len() == 0 ==> self@.selected == 0 && self@.selected_ws() is None,
            self@.matches().len() > 0 ==> 0 <= self@.selected < self@.matches().len()
                && self@.selected_ws() is Some,
    {
    }

    /// Selected index into the current match list.
    pub fn selected_index(&self) -> (r: usize)
        ensures
            r == self@.selected,
    {
        self.selected
    }

    pub fn selected_workspace(&self) -> (r: Option<&Workspace>)
        requires
            self.wf(),
        ensures
            match r {
                Some(w) => self@.selected_ws() == Some(w@),
                None => self@.selected_ws() is None,
            },
    {
        if self.selected < self.matches.len() {
            let idx = self.matches[self.selected].index;
            proof {
                assert(matches_view(self.matches@)[self.selected as int] == self.matches@[self.selected as int]@);
            }
            Some(&self.workspaces[idx])
        } else {
            None
        }
    }

    /// The visible rows in ranked order: each workspace with the positions of its
    /// name's characters that matched the filter.
    pub fn visible_matches(&self) -> (r: Vec<(&Workspace, &[usize])>)
        requires
            self.wf(),
        ensures
            r@.len() == self@.matches().len(),
            forall|k: int|
                0 <= k < r@.len() ==> (#[trigger] r@[k]).0@ == self@.workspaces[self@.matches()[k].0 as int]
                    && r@[k].1@ == self@.matches()[k].2,
    {
        let mut r: Vec<(&Workspace, &[usize])> = Vec::new();
        let mut k: usize = 0;
        while k < self.matches.len()
            invariant
                self.wf(),
                k <= self.matches@.len(),
                r@.len() == k,
                forall|j: int|
                    0 <= j < k ==> (#[trigger] r@[j]).0@ == self@.workspaces[self@.matches()[j].0 as int]
                        && r@[j].1@ == self@.matches()[j].2,
            decreases self.matches.len() - k,
        {
            let m = &self.matches[k];
            proof {
                assert(matches_view(self.matches@)[k as int] == m@);
            }
            r.push((&self.workspaces[m.index], m.positions.as_slice()));
            k = k + 1;
        }
        r
    }

    /// Remember the preview body of workspace `name`.
    pub fn cache_preview(&mut self, name: &str, body: String)
        ensures
            final(self)@ == old(self)@,
            final(self).wf() == old(self).wf(),
            final(self).cached(name@) == Some(body@),
            forall|k: Seq<char>| k != name@ ==> final(self).cached(k) == old(self).cached(k),
    {
        let ghost ent0 = Seq::new(self.preview@.len(), |i: int| (self.preview@[i].0@, self.preview@[i].1@));
        let found = last_index_of(&self.preview, name);
        let ghost ent_of = |v: Seq<(String, String)>| Seq::new(v.len(), |i: int| (v[i].0@, v[i].1@));
        if found.is_none() {
            self.preview.push((crate::jj::owned(name), body));
            proof {
                let ent1 = ent_of(self.preview@);
                assert(ent1.drop_last() =~= ent0);
                assert forall|k: Seq<char>| k != name@ implies lookup(ent1, k) == lookup(ent0, k) by {}
            }
        } else {
            let j = found.unwrap();
            self.preview.set(j, (crate::jj::owned(name), body));
            proof {
                let ent1 = ent_of(self.preview@);
                lemma_lookup_set(ent0, ent1, j as int, name@);
            }
        }
    }

    /// The preview body cached for workspace `name`.
    pub fn cached_preview(&self, name: &str) -> (r: Option<&str>)
        ensures
            match r {
                Some(s) => self.cached(name@) == Some(s@),
                None => self.cached(name@) is None,
            },
    {
        let ghost ent = Seq::new(self.preview@.len(), |i: int| (self.preview@[i].0@, self.preview@[i].1@));
        let mut j: usize = self.preview.len();
        proof {
            assert(ent.take(j as int) =~= ent);
        }
        while j > 0
            invariant
                j <= self.preview@.len(),
                ent == Seq::new(self.preview@.len(), |i: int| (self.preview@[i].0@, self.preview@[i].1@)),
                lookup(ent, name@) == lookup(ent.take(j as int), name@),
            decreases j,
        {
            let ghost t = ent.take(j as int);
            proof {
                assert(t.drop_last() =~= ent.take(j - 1));
                assert(t.last() == ent[j - 1]);
            }
            if crate::keymap::eq_lit(chars_of(self.preview[j - 1].0.as_str()).as_slice(), name) {
                return Some(self.preview[j - 1].1.as_str());
            }
            j = j - 1;
        }
        None
    }

    /// The workspace whose preview should be loaded next: the selected one, when
    /// nothing is cached for it yet.
    pub fn preview_to_load(&self) -> (r: Option<String>)
        requires
            self.wf(),
        ensures
            match r {
                Some(n) => self@.selected_ws() matches Some(w) && w.name == n@ && self.cached(n@) is None,
                None => self@.selected_ws() is None || self.cached(self@.selected_ws()->0.name) is Some,
            },
    {
        match self.selected_workspace() {
            Some(w) => {
                if self.cached_preview(w.name.as_str()).is_none() {
                    Some(w.name.clone())
                } else {
                    None
                }
            },
            None => None,
        }
    }

    /// Replace the workspace list and recompute. Used after a forget.
    pub fn set_workspaces(&mut self, ws: Vec<Workspace>)
        requires
            old(self).wf(),
        ensures
            final(self).wf(),
            final(self)@ == (Picker { workspaces: workspaces_view(ws@), ..old(self)@ }).with_filter(
                old(self)@.filter,
            ),
            forall|k: Seq<char>| final(self).cached(k) == old(self).cached(k),
    {
        self.workspaces = ws;
        self.recompute();
    }

    /// Select the first visible row showing the workspace named `name` (after a
    /// create, so Enter goes into the new workspace); no change when none does.
    pub fn focus_workspace(&mut self, name: &str)
        requires
            old(self).wf(),
        ensures
            final(self).wf(),
            final(self)@ == old(self)@.focused(name@),
            forall|k: Seq<char>| final(self).cached(k) == old(self).cached(k),
    {
        match self.first_row_named(name) {
            Some(k) => {
                self.selected = k;
            },
            None => {},
        }
    }

    /// The first visible row showing a workspace named `name`.
    fn first_row_named(&self, name: &str) -> (r: Option<usize>)
        requires
            self.wf(),
        ensures
            match r {
                Some(k) => self@.focus_row(name@, k as int) && self@.focused(name@) == (Picker {
                    selected: k as int,
                    ..self@
                }),
                None => self@.focused(name@) == self@,
            },
    {
        let ghost s = self@;
        let mut k: usize = 0;
        while k < self.matches.len()
            invariant
                self.wf(),
                s == self@,
                k <= s.matches().len(),
                forall|j: int| 0 <= j < k ==> s.workspaces[s.matches()[j].0 as int].name != name@,
            decreases self.matches.len() - k,
        {
            let idx = self.matches[k].index;
            proof {
                assert(matches_view(self.matches@)[k as int] == self.matches@[k as int]@);
            }
            if crate::keymap::eq_lit(chars_of(self.workspaces[idx].name.as_str()).as_slice(), name) {
                proof {
                    assert(s.focus_row(name@, k as int));
                    let c = choose|c: int| s.focus_row(name@, c);
                    assert(s.focus_row(name@, c));
                    if c < k {
                        assert(s.workspaces[s.matches()[c].0 as int].name != name@);
                    }
                    if k < c {
                        assert(s.workspaces[s.matches()[k as int].0 as int].name != name@);
                    }
                }
                return Some(k);
            }
            k = k + 1;
        }
        proof {
            assert forall|c: int| !s.focus_row(name@, c) by {
                if s.focus_row(name@, c) {
                    assert(s.workspaces[s.matches()[c].0 as int].name != name@);
                }
            }
        }
        None
    }

    // --- Key handling ---
    pub fn on_key(&mut self, ev: KeyEvent) -> (r: Step)
        requires
            old(self).wf(),
        ensures
            final(self).wf(),
            (final(self)@, step_view(r)) == old(self)@.next(ev),
            forall|k: Seq<char>| final(self).cached(k) == old(self).cached(k),
    {
        match self.mode {
            Mode::Normal => self.on_key_normal(ev),
            Mode::NewName => self.on_key_newname(ev),
            Mode::ConfirmForget => self.on_key_confirm(ev),
        }
    }

    fn on_key_normal(&mut self, ev: KeyEvent) -> (r: Step)
        requires
            old(self).wf(),
        ensures
            final(self).wf(),
            (final(self)@, step_view(r)) == old(self)@.normal_key(ev),
            final(self).preview == old(self).preview,
    {
        // Fixed universal keys come first and are never rebindable, so a
        // misconfigured [keys] table can't lock you out of nav/quit/filtering.
        let alt = ev.modifiers.has_alt();
        let ctrl = ev.modifiers.has_control();
        match ev.code {
            KeyCode::Up => {
                self.move_up();
                return Step::Continue;
            },
            KeyCode::Down => {
                self.move_down();
                return Step::Continue;
            },
            KeyCode::Char(c) => {
                if c == 'c' && ctrl {
                    return Step::Done(Outcome::Abort);
                } else if !alt && !ctrl {
                    self.filter.push(c);
                    self.recompute();
                    return Step::Continue;
                }
            },
            KeyCode::Backspace => {
                self.filter.pop();
                self.recompute();
                return Step::Continue;
            },
            _ => {},
        }
        // Then the configurable action chords.
        match self.config.keys.resolve(&ev) {
            Some(action) => self.run_action(action),
            None => Step::Continue,
        }
    }

    /// Run a resolved keybinding action. Actions on an empty list (no selection)
    /// are no-ops that keep looping.
    fn run_action(&mut self, action: Action) -> (r: Step)
        requires
            old(self).wf(),
        ensures
            final(self).wf(),
            (final(self)@, step_view(r)) == old(self)@.run_action(action),
            final(self).preview == old(self).preview,
    {
        match action {
            Action::Select => {
                if let Some(w) = self.selected_workspace() {
                    return Step::Done(Outcome::Cd(w.path.clone()));
                }
            },
            Action::Open => {
                if let Some(w) = self.selected_workspace() {
                    return Step::Done(Outcome::Open { path: w.path.clone(), cmd: self.config.edit_cmd.clone() });
                }
            },
            Action::Agent => {
                if let Some(w) = self.selected_workspace() {
                    return Step::Done(Outcome::Open { path: w.path.clone(), cmd: self.config.agent_cmd.clone() });
                }
            },
            Action::New => {
                self.mode = Mode::NewName;
                self.input = String::new();
            },
            Action::Forget => {
                let forgettable = match self.selected_workspace() {
                    Some(w) => !w.is_current,
                    None => false,
                };
                if forgettable {
                    self.mode = Mode::ConfirmForget;
                }
            },
            Action::Up => self.move_up(),
            Action::Down => self.move_down(),
            Action::Abort => return Step::Done(Outcome::Abort),
        }
        Step::Continue
    }

    fn on_key_newname(&mut self, ev: KeyEvent) -> (r: Step)
        requires
            old(self).wf(),
            old(self)@.mode == Mode::NewName,
        ensures
            final(self).wf(),
            (final(self)@, step_view(r)) == old(self)@.new_name_key(ev),
            final(self).preview == old(self).preview,
    {
        let alt = ev.modifiers.has_alt();
        let ctrl = ev.modifiers.has_control();
        match ev.code {
            KeyCode::Esc => {
                self.mode = Mode::Normal;
                self.input = String::new();
            },
            KeyCode::Enter => {
                // Reject blank or whitespace-only names; stay in NewName mode.
                if blank_str(self.input.as_str()) {
                    return Step::Continue;
                }
                let name = self.input.clone();
                let path = self.new_workspace_path(name.as_str());
                self.mode = Mode::Normal;
                self.input = String::new();
                return Step::Create { name, path };
            },
            KeyCode::Backspace => {
                self.input.pop();
            },
            KeyCode::Char(c) => {
                if !alt && !ctrl {
                    self.input.push(c);
                }
            },
            _ => {},
        }
        Step::Continue
    }

    fn on_key_confirm(&mut self, ev: KeyEvent) -> (r: Step)
        requires
            old(self).wf(),
            old(self)@.mode == Mode::ConfirmForget,
        ensures
            final(self).wf(),
            (final(self)@, step_view(r)) == old(self)@.confirm_key(ev),
            final(self).preview == old(self).preview,
    {
        let alt = ev.modifiers.has_alt();
        let ctrl = ev.modifiers.has_control();
        if ev.code == KeyCode::Char('y') && !alt && !ctrl {
            // Re-check is_current at emission: defensive against a list refresh.
            let target = match self.selected_workspace() {
                Some(w) => if !w.is_current {
                    Some(w.name.clone())
                } else {
                    None
                },
                None => None,
            };
            self.mode = Mode::Normal;
            if let Some(name) = target {
                return Step::Forget { name };
            }
        } else {
            self.mode = Mode::Normal;
        }
        Step::Continue
    }

    fn move_up(&mut self)
        requires
            old(self).wf(),
        ensures
            final(self).wf(),
            final(self)@ == old(self)@.moved(-1),
            final(self).preview == old(self).preview,
    {
        if self.matches.len() > 0 && self.selected > 0 {
            self.selected = self.selected - 1;
        }
    }

    fn move_down(&mut self)
        requires
            old(self).wf(),
        ensures
            final(self).wf(),
            final(self)@ == old(self)@.moved(1),
            final(self).preview == old(self).preview,
    {
        if self.matches.len() > 0 && self.selected < self.matches.len() - 1 {
            self.selected = self.selected + 1;
        }
    }

    /// The path for a new workspace named `name`.
    fn new_workspace_path(&self, name: &str) -> (r: String)
        ensures
            r@ == self@.new_path(name@),
    {
        new_workspace_path(self.config.path_template.as_str(), self.repo_root.as_str(), name)
    }
}

/// Every key press keeps the selection inside the visible rows.
pub proof fn law_selection_stays_valid(s: Picker, ev: KeyEvent)
    requires
        s.valid(),
    ensures
        s.next(ev).0.valid(),
{
}

/// A forget is only ever emitted from the confirmation mode, and only for the
/// selected workspace when it is not the current one.
pub proof fn law_forget_only_non_current(s: Picker, ev: KeyEvent, n: Seq<char>)
    requires
        s.next(ev).1 == StepView::Forget(n),
    ensures
        s.mode == Mode::ConfirmForget,
        s.selected_ws() matches Some(w) && w.name == n && !w.is_current,
{
    if s.mode == Mode::Normal {
        match resolve_action(s.config.keys, ev) {
            Some(a) => {
                assert(s.run_action(a).1 != StepView::Forget(n));
            },
            None => {},
        }
    }
}

/// The confirmation mode is entered only with a selected, non-current workspace.
pub proof fn law_confirm_only_for_non_current(s: Picker, ev: KeyEvent)
    requires
        s.mode != Mode::ConfirmForget,
        s.next(ev).0.mode == Mode::ConfirmForget,
    ensures
        s.selected_ws() matches Some(w) && !w.is_current,
{
}

/// Typing a plain character into the filter and then erasing it restores the
/// filter, and with it the visible rows, whatever the `[keys]` table binds.
pub proof fn law_type_then_erase_restores_filter(s: Picker, c: char)
    requires
        s.mode == Mode::Normal,
    ensures
        ({
            let typed = s.next(KeyEvent { code: KeyCode::Char(c), modifiers: crate::keymap::KeyModifiers { bits: 0 } }).0;
            let erased = typed.next(KeyEvent { code: KeyCode::Backspace, modifiers: crate::keymap::KeyModifiers { bits: 0 } }).0;
            &&& typed.filter == s.filter.push(c)
            &&& erased.filter == s.filter
            &&& erased.matches() == s.matches()
            &&& erased.mode == Mode::Normal
        }),
{
    let typed = s.next(KeyEvent { code: KeyCode::Char(c), modifiers: crate::keymap::KeyModifiers { bits: 0 } }).0;
    assert(typed.filter.drop_last() =~= s.filter);
}

/// Ctrl-c in Normal mode always aborts, whatever the `[keys]` table binds.
pub proof fn law_ctrl_c_aborts(s: Picker, ev: KeyEvent)
    requires
        s.mode == Mode::Normal,
        ev.code == KeyCode::Char('c'),
        has_flag(ev.modifiers.bits, 2),
    ensures
        s.next(ev).1 == StepView::Abort,
        s.next(ev).0 == s,
{
}

/// The select action (Enter by default) in Normal mode hands back the selected
/// workspace's path to cd into and leaves the state as it was (for any key
/// other than the fixed ones, which no binding can take).
pub proof fn law_select_cds_into_selection(s: Picker, ev: KeyEvent, w: WorkspaceView)
    requires
        s.mode == Mode::Normal,
        !is_fixed_key(ev),
        resolve_action(s.config.keys, ev) == Some(Action::Select),
        s.selected_ws() == Some(w),
    ensures
        s.next(ev) == (s, StepView::Cd(w.path)),
{
}

/// The Up arrow in Normal mode moves the selection one row up (it stays put on
/// the top row or an empty list) and changes nothing else, whatever the `[keys]`
/// table binds.
pub proof fn law_up_moves_selection_up(s: Picker, ev: KeyEvent)
    requires
        s.mode == Mode::Normal,
        s.valid(),
        ev.code == KeyCode::Up,
    ensures
        s.next(ev).1 == StepView::Continue,
        s.next(ev).0.selected == (if s.selected > 0 { s.selected - 1 } else { s.selected }),
        s.next(ev).0 == (Picker { selected: s.next(ev).0.selected, ..s }),
{
}

/// The Down arrow in Normal mode moves the selection one row down (it stays put
/// on the last row or an empty list) and changes nothing else.
pub proof fn law_down_moves_selection_down(s: Picker, ev: KeyEvent)
    requires
        s.mode == Mode::Normal,
        s.valid(),
        ev.code == KeyCode::Down,
    ensures
        s.next(ev).1 == StepView::Continue,
        s.next(ev).0.selected == (if s.selected + 1 < s.matches().len() {
            s.selected + 1
        } else {
            s.selected
        }),
        s.next(ev).0 == (Picker { selected: s.next(ev).0.selected, ..s }),
{
}

/// Down then Up returns to the starting state when there is a row below the
/// selection.
pub proof fn law_down_then_up_returns(s: Picker, d: KeyEvent, u: KeyEvent)
    requires
        s.mode == Mode::Normal,
        s.valid(),
        d.code == KeyCode::Down,
        u.code == KeyCode::Up,
        s.selected + 1 < s.matches().len(),
    ensures
        s.next(d).0.next(u).0 == s,
{
    let t = s.next(d).0;
    assert(t == (Picker { selected: s.selected + 1, ..s }));
    assert(t.matches() == s.matches());
    assert(t.next(u).0 == (Picker { selected: s.selected, ..s }));
}

/// Enter on a blank name neither creates a workspace nor leaves the naming mode.
pub proof fn law_blank_name_is_rejected(s: Picker, ev: KeyEvent)
    requires
        s.mode == Mode::NewName,
        ev.code == KeyCode::Enter,
        is_blank(s.input),
    ensures
        s.next(ev) == (s, StepView::Continue),
{
}

/// Enter on a non-blank name creates the workspace at the templated path and
/// returns to Normal mode with the name buffer cleared.
pub proof fn law_named_workspace_is_created_at_template_path(s: Picker, ev: KeyEvent)
    requires
        s.mode == Mode::NewName,
        ev.code == KeyCode::Enter,
        !is_blank(s.input),
    ensures
        s.next(ev).1 == StepView::Create(s.input, s.new_path(s.input)),
        s.next(ev).0.mode == Mode::Normal,
        s.next(ev).0.input.len() == 0,
{
}

/// Setting the entry that holds the last occurrence of `k` makes it the value
/// found for `k`, and leaves every other key's value alone.
proof fn lemma_lookup_set(
    e0: Seq<(Seq<char>, Seq<char>)>,
    e1: Seq<(Seq<char>, Seq<char>)>,
    j: int,
    k: Seq<char>,
)
    requires
        0 <= j < e0.len(),
        e1.len() == e0.len(),
        e0[j].0 == k,
        e1[j].0 == k,
        forall|i: int| 0 <= i < e0.len() && i != j ==> e1[i] == e0[i],
        forall|i: int| j < i < e0.len() ==> e0[i].0 != k,
    ensures
        lookup(e1, k) == Some(e1[j].1),
        forall|o: Seq<char>| o != k ==> lookup(e1, o) == lookup(e0, o),
    decreases e0.len(),
{
    if j < e0.len() - 1 {
        lemma_lookup_set(e0.drop_last(), e1.drop_last(), j, k);
    }
    assert forall|o: Seq<char>| o != k implies lookup(e1, o) == lookup(e0, o) by {
        lemma_lookup_same_except(e0, e1, j, k, o);
    }
}

proof fn lemma_lookup_same_except(
    e0: Seq<(Seq<char>, Seq<char>)>,
    e1: Seq<(Seq<char>, Seq<char>)>,
    j: int,
    k: Seq<char>,
    o: Seq<char>,
)
    requires
        0 <= j < e0.len(),
        e1.len() == e0.len(),
        e0[j].0 == k,
        e1[j].0 == k,
        o != k,
        forall|i: int| 0 <= i < e0.len() && i != j ==> e1[i] == e0[i],
    ensures
        lookup(e1, o) == lookup(e0, o),
    decreases e0.len(),
{
    if e0.len() > 0 {
        if j < e0.len() - 1 {
            lemma_lookup_same_except(e0.drop_last(), e1.drop_last(), j, k, o);
        } else {
            assert(e0.drop_last() =~= e1.drop_last());
        }
    }
}

/// The position of the last cache entry for `name`, if any.
fn last_index_of(entries: &Vec<(String, String)>, name: &str) -> (r: Option<usize>)
    ensures
        match r {
            Some(j) => j < entries@.len() && entries@[j as int].0@ == name@ && forall|i: int|
                j < i < entries@.len() ==> entries@[i].0@ != name@,
            None => forall|i: int| 0 <= i < entries@.len() ==> entries@[i].0@ != name@,
        },
{
    let mut j: usize = entries.len();
    while j > 0
        invariant
            j <= entries@.len(),
            forall|i: int| j <= i < entries@.len() ==> entries@[i].0@ != name@,
        decreases j,
    {
        if crate::keymap::eq_lit(chars_of(entries[j - 1].0.as_str()).as_slice(), name) {
            return Some(j - 1);
        }
        j = j - 1;
    }
    None
}

/// The names of the workspaces, in order.
fn names_of(ws: &Vec<Workspace>) -> (r: Vec<String>)
    ensures
        strings_view(r@) == names(workspaces_view(ws@)),
{
    let mut r: Vec<String> = Vec::new();
    let mut i: usize = 0;
    while i < ws.len()
        invariant
            i <= ws@.len(),
            r@.len() == i,
            forall|k: int| 0 <= k < i ==> #[trigger] r@[k]@ == ws@[k].name@,
        decreases ws.len() - i,
    {
        r.push(ws[i].name.clone());
        i = i + 1;
    }
    proof {
        assert(strings_view(r@) =~= names(workspaces_view(ws@)));
    }
    r
}

/// One line of `jw list`: `* ` for the current workspace (else two spaces),
/// then name, change id, path and description, two spaces apart.
pub open spec fn list_line(w: WorkspaceView) -> Seq<char> {
    (if w.is_current { "* "@ } else { "  "@ }) + w.name + "  "@ + w.change_id + "  "@ + w.path + "  "@
        + w.description + "\n"@
}

/// The text of `jw list`: one line per workspace, in order.
pub open spec fn list_text(ws: Seq<WorkspaceView>) -> Seq<char>
    decreases ws.len(),
{
    if ws.len() == 0 {
        Seq::empty()
    } else {
        list_text(ws.drop_last()) + list_line(ws.last())
    }
}

/// One line of `jw list` for `w`.
fn list_line_of(w: &Workspace) -> (r: String)
    ensures
        r@ == list_line(w@),
{
    let mut r = if w.is_current {
        crate::jj::owned("* ")
    } else {
        crate::jj::owned("  ")
    };
    r.append(w.name.as_str());
    r.append("  ");
    r.append(w.change_id.as_str());
    r.append("  ");
    r.append(w.path.as_str());
    r.append("  ");
    r.append(w.description.as_str());
    r.append("\n");
    r
}

/// The text `jw list` prints for the workspaces.
pub fn format_list(ws: &Vec<Workspace>) -> (r: String)
    ensures
        r@ == list_text(workspaces_view(ws@)),
{
    let mut r = String::new();
    let mut i: usize = 0;
    while i < ws.len()
        invariant
            i <= ws@.len(),
            r@ == list_text(workspaces_view(ws@.subrange(0, i as int))),
        decreases ws.len() - i,
    {
        let line = list_line_of(&ws[i]);
        proof {
            let v = workspaces_view(ws@.subrange(0, i + 1));
            assert(v.drop_last() =~= workspaces_view(ws@.subrange(0, i as int)));
            assert(v.last() == ws@[i as int]@);
        }
        r.append(line.as_str());
        i = i + 1;
    }
    proof {
        assert(ws@.subrange(0, ws@.len() as int) =~= ws@);
    }
    r
}

/// True when `s` holds only white space (`s.trim().is_empty()`).
fn blank_str(s: &str) -> (r: bool)
    ensures
        r == is_blank(s@),
{
    let v = chars_of(s);
    let mut i: usize = 0;
    while i < v.len()
        invariant
            i <= v@.len(),
            v@ == s@,
            forall|j: int| 0 <= j < i ==> crate::text::is_ws(#[trigger] v@[j]),
        decreases v.len() - i,
    {
        if !is_whitespace(v[i]) {
            return false;
        }
        i = i + 1;
    }
    true
}

} // verus!

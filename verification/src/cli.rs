//! The decisions of the command-line front end: which command string to run,
//! how `switch` resolves its target, the remove prompts, the confirmation
//! answer, and shell completion of workspace names.

use vstd::prelude::*;
use crate::jj::{owned, Workspace};
use crate::keymap::eq_lit;
use crate::text::{chars_of, find, find_chars, starts_with, trim, trim_chars};

verus! {

/// The command to run for a configured command string: the sentinel
/// `${EDITOR:-vi}` means `$EDITOR` when set and non-empty, else `vi`; any other
/// command is run as written.
pub open spec fn command_for(cmd: Seq<char>, editor: Option<Seq<char>>) -> Seq<char> {
    if cmd == "${EDITOR:-vi}"@ {
        match editor {
            Some(e) => if e.len() > 0 {
                e
            } else {
                "vi"@
            },
            None => "vi"@,
        }
    } else {
        cmd
    }
}

/// Resolve a configured command string, given the value of `$EDITOR` (if set).
pub fn resolve_cmd(cmd: &str, editor: Option<&str>) -> (r: String)
    ensures
        r@ == command_for(cmd@, crate::jj::opt_str(editor)),
{
    let c = chars_of(cmd);
    if eq_lit(c.as_slice(), "${EDITOR:-vi}") {
        match editor {
            Some(e) => {
                let ev = chars_of(e);
                if ev.len() > 0 {
                    owned(e)
                } else {
                    owned("vi")
                }
            },
            None => owned("vi"),
        }
    } else {
        owned(cmd)
    }
}

/// A `[y/N]` answer counts as yes when, trimmed, it is `y`, `Y`, `yes` or `Yes`.
pub open spec fn is_yes_answer(a: Seq<char>) -> bool {
    let t = trim(a);
    t == "y"@ || t == "Y"@ || t == "yes"@ || t == "Yes"@
}

/// True when the answer to a `[y/N]` prompt means yes (default no).
pub fn is_yes(answer: &str) -> (r: bool)
    ensures
        r == is_yes_answer(answer@),
{
    let a = chars_of(answer);
    let t = trim_chars(&a);
    eq_lit(t.as_slice(), "y") || eq_lit(t.as_slice(), "Y") || eq_lit(t.as_slice(), "yes") || eq_lit(
        t.as_slice(),
        "Yes",
    )
}

/// The confirmation question of `remove`.
pub fn remove_prompt(name: &str, keep: bool) -> (r: String)
    ensures
        keep ==> r@ == "forget workspace '"@ + name@ + "' (keeping its directory)?"@,
        !keep ==> r@ == "remove workspace '"@ + name@ + "' and delete its directory?"@,
{
    if keep {
        let mut r = owned("forget workspace '");
        r.append(name);
        r.append("' (keeping its directory)?");
        r
    } else {
        let mut r = owned("remove workspace '");
        r.append(name);
        r.append("' and delete its directory?");
        r
    }
}

/// The line printed after a successful `remove`.
pub fn remove_done(name: &str, keep: bool) -> (r: String)
    ensures
        keep ==> r@ == "forgot workspace '"@ + name@ + "'"@,
        !keep ==> r@ == "removed workspace '"@ + name@ + "'"@,
{
    let mut r = if keep {
        owned("forgot workspace '")
    } else {
        owned("removed workspace '")
    };
    r.append(name);
    r.append("'");
    r
}

/// What `jw switch` does.
#[derive(Debug, Clone, PartialEq, Eq)]
pub enum SwitchPlan {
    /// No name: open the interactive picker.
    Picker,
    /// `-c` without a name: an error.
    MissingName,
    /// `^`: the repo root (the default workspace).
    RepoRoot,
    /// `-c <name>`: create a new workspace.
    Create(String),
    /// `<name>`: go to an existing workspace.
    Go(String),
}

/// The plan for `jw switch [name] [-c]`.
pub open spec fn plan_for(name: Option<Seq<char>>, create: bool) -> (int, Seq<char>) {
    match name {
        None => if create {
            (1, Seq::empty())
        } else {
            (0, Seq::empty())
        },
        Some(n) => if n == "^"@ {
            (2, Seq::empty())
        } else if create {
            (3, n)
        } else {
            (4, n)
        },
    }
}

/// The plan as a pair: its kind (in declaration order) and its name.
pub open spec fn plan_view(p: SwitchPlan) -> (int, Seq<char>) {
    match p {
        SwitchPlan::Picker => (0, Seq::empty()),
        SwitchPlan::MissingName => (1, Seq::empty()),
        SwitchPlan::RepoRoot => (2, Seq::empty()),
        SwitchPlan::Create(n) => (3, n@),
        SwitchPlan::Go(n) => (4, n@),
    }
}

/// `switch`: with no name, the picker (`-c` then needs a name); `^` is the repo
/// root; otherwise create (`-c`) or go to the named workspace.
pub fn plan_switch(name: Option<&str>, create: bool) -> (r: SwitchPlan)
    ensures
        plan_view(r) == plan_for(crate::jj::opt_str(name), create),
{
    match name {
        None => if create {
            SwitchPlan::MissingName
        } else {
            SwitchPlan::Picker
        },
        Some(n) => {
            let c = chars_of(n);
            if eq_lit(c.as_slice(), "^") {
                SwitchPlan::RepoRoot
            } else if create {
                SwitchPlan::Create(owned(n))
            } else {
                SwitchPlan::Go(owned(n))
            }
        },
    }
}

/// The root of the current workspace, if one is marked current.
pub fn current_root(ws: &Vec<Workspace>) -> (r: Option<String>)
    ensures
        match r {
            Some(p) => exists|i: int|
                0 <= i < ws@.len() && ws@[i].is_current && ws@[i].path@ == p@ && forall|j: int|
                    0 <= j < i ==> !ws@[j].is_current,
            None => forall|i: int| 0 <= i < ws@.len() ==> !ws@[i].is_current,
        },
{
    let mut i: usize = 0;
    while i < ws.len()
        invariant
            i <= ws@.len(),
            forall|j: int| 0 <= j < i ==> !ws@[j].is_current,
        decreases ws.len() - i,
    {
        if ws[i].is_current {
            return Some(ws[i].path.clone());
        }
        i = i + 1;
    }
    None
}

/// The names among `names` that start with `prefix`, in order.
pub open spec fn with_prefix(names: Seq<Seq<char>>, prefix: Seq<char>) -> Seq<Seq<char>>
    decreases names.len(),
{
    if names.len() == 0 {
        Seq::empty()
    } else {
        let init = with_prefix(names.drop_last(), prefix);
        if starts_with(names.last(), prefix) {
            init.push(names.last())
        } else {
            init
        }
    }
}

/// The names that complete `prefix`, in order: `jw switch de<tab>` → `default`.
pub fn complete_names(names: &Vec<String>, prefix: &str) -> (r: Vec<String>)
    ensures
        crate::fuzzy::strings_view(r@) == with_prefix(crate::fuzzy::strings_view(names@), prefix@),
{
    let ghost nv = crate::fuzzy::strings_view(names@);
    let p = chars_of(prefix);
    let mut r: Vec<String> = Vec::new();
    let mut i: usize = 0;
    proof {
        assert(nv.take(0) =~= Seq::<Seq<char>>::empty());
        assert(crate::fuzzy::strings_view(r@) =~= Seq::<Seq<char>>::empty());
    }
    while i < names.len()
        invariant
            i <= names@.len(),
            p@ == prefix@,
            nv == crate::fuzzy::strings_view(names@),
            crate::fuzzy::strings_view(r@) == with_prefix(nv.take(i as int), prefix@),
        decreases names.len() - i,
    {
        let n = chars_of(names[i].as_str());
        let ok = crate::text::occurs_at_exec(&n, 0, &p);
        proof {
            assert(n@.skip(0) =~= n@);
            assert(nv.take(i + 1).drop_last() =~= nv.take(i as int));
            assert(nv.take(i + 1).last() == names@[i as int]@);
        }
        let ghost before = r@;
        if ok {
            r.push(names[i].clone());
            proof {
                assert(crate::fuzzy::strings_view(r@) =~= crate::fuzzy::strings_view(before).push(
                    names@[i as int]@,
                ));
            }
        }
        i = i + 1;
    }
    proof {
        assert(nv.take(names@.len() as int) =~= nv);
    }
    r
}

/// `i` is the first workspace of `ws` named `name`.
pub open spec fn named_at(ws: Seq<Workspace>, name: Seq<char>, i: int) -> bool {
    &&& 0 <= i < ws.len()
    &&& ws[i].name@ == name
    &&& forall|j: int| 0 <= j < i ==> ws[j].name@ != name
}

/// Some workspace of `ws` is named `name`.
pub open spec fn has_named(ws: Seq<Workspace>, name: Seq<char>) -> bool {
    exists|i: int| 0 <= i < ws.len() && ws[i].name@ == name
}

/// The position of the first workspace named `name`, if any.
pub fn find_named(ws: &Vec<Workspace>, name: &str) -> (r: Option<usize>)
    ensures
        match r {
            Some(i) => named_at(ws@, name@, i as int),
            None => !has_named(ws@, name@),
        },
{
    let mut i: usize = 0;
    while i < ws.len()
        invariant
            i <= ws@.len(),
            forall|j: int| 0 <= j < i ==> ws@[j].name@ != name@,
        decreases ws.len() - i,
    {
        let n = chars_of(ws[i].name.as_str());
        if eq_lit(n.as_slice(), name) {
            return Some(i);
        }
        i = i + 1;
    }
    None
}

/// `jw switch <name>`: the path of the workspace named `name`, or the error
/// that none is (with the hint to create it with `-c`).
pub fn go_target(ws: &Vec<Workspace>, name: &str) -> (r: Result<String, String>)
    ensures
        match r {
            Ok(p) => exists|i: int| named_at(ws@, name@, i) && p@ == ws@[i].path@,
            Err(m) => !has_named(ws@, name@) && m@ == "no workspace named '"@ + name@
                + "' (use `jw switch -c "@ + name@ + "` to create it)"@,
        },
{
    match find_named(ws, name) {
        Some(i) => Ok(ws[i].path.clone()),
        None => {
            let mut m = owned("no workspace named '");
            m.append(name);
            m.append("' (use `jw switch -c ");
            m.append(name);
            m.append("` to create it)");
            Err(m)
        },
    }
}

/// Why `jw remove` refuses a workspace.
#[derive(Debug, Clone, PartialEq, Eq)]
pub enum RemoveRefusal {
    /// No workspace has the name.
    NoSuch(String),
    /// The workspace is the one the command runs in.
    Current(String),
    /// The workspace has changes or conflicts and `--force` was not given.
    Dirty(String),
}

impl RemoveRefusal {
    /// The refusal's text.
    pub fn message(&self) -> (r: String)
        ensures
            r@ == match self {
                RemoveRefusal::NoSuch(n) => "no workspace named '"@ + n@ + "'"@,
                RemoveRefusal::Current(n) => "cannot remove the current workspace '"@ + n@ + "'"@,
                RemoveRefusal::Dirty(n) => "workspace '"@ + n@
                    + "' has changes or conflicts; pass --force to remove it anyway"@,
            },
    {
        match self {
            RemoveRefusal::NoSuch(n) => {
                let mut m = owned("no workspace named '");
                m.append(n.as_str());
                m.append("'");
                m
            },
            RemoveRefusal::Current(n) => {
                let mut m = owned("cannot remove the current workspace '");
                m.append(n.as_str());
                m.append("'");
                m
            },
            RemoveRefusal::Dirty(n) => {
                let mut m = owned("workspace '");
                m.append(n.as_str());
                m.append("' has changes or conflicts; pass --force to remove it anyway");
                m
            },
        }
    }
}

/// `jw remove <name>`: the position of the workspace to forget, or why not.
/// The current workspace is never removed; one with changes (a non-empty
/// working copy) or conflicts only with `force`.
pub fn check_remove(ws: &Vec<Workspace>, name: &str, force: bool) -> (r: Result<usize, RemoveRefusal>)
    ensures
        match r {
            Ok(i) => named_at(ws@, name@, i as int) && !ws@[i as int].is_current && (force || (
            !ws@[i as int].conflict && ws@[i as int].empty)),
            Err(RemoveRefusal::NoSuch(n)) => !has_named(ws@, name@) && n@ == name@,
            Err(RemoveRefusal::Current(n)) => exists|i: int|
                named_at(ws@, name@, i) && ws@[i].is_current && n@ == name@,
            Err(RemoveRefusal::Dirty(n)) => exists|i: int|
                named_at(ws@, name@, i) && !ws@[i].is_current && !force && (ws@[i].conflict
                    || !ws@[i].empty) && n@ == name@,
        },
{
    match find_named(ws, name) {
        None => Err(RemoveRefusal::NoSuch(owned(name))),
        Some(i) => {
            if ws[i].is_current {
                Err(RemoveRefusal::Current(owned(name)))
            } else if !force && (ws[i].conflict || !ws[i].empty) {
                Err(RemoveRefusal::Dirty(owned(name)))
            } else {
                Ok(i)
            }
        },
    }
}

/// No jj repo where jw runs: whether a git repo is there instead.
#[derive(Debug, Clone, Copy, PartialEq, Eq, Structural)]
pub struct NoRepo {
    pub in_git: bool,
}

impl NoRepo {
    /// The hint printed instead of jj's raw failure.
    pub fn message(&self) -> (r: String)
        ensures
            self.in_git ==> r@ == "jw: no jj repo here (this is a git repo); run `jj git init --colocate` to use jj in it"@,
            !self.in_git ==> r@ == "jw: no jj repo here; run `jj git init` to create one"@,
    {
        if self.in_git {
            owned("jw: no jj repo here (this is a git repo); run `jj git init --colocate` to use jj in it")
        } else {
            owned("jw: no jj repo here; run `jj git init` to create one")
        }
    }
}

/// Whether a failed jj call failed because no jj repo is there: jj then says
/// `There is no jj repo`.
pub fn classify_no_repo(err: &str, in_git: bool) -> (r: Option<NoRepo>)
    ensures
        r is Some <==> find(err@, "There is no jj repo"@) is Some,
        r matches Some(x) ==> x.in_git == in_git,
{
    let e = chars_of(err);
    let p = chars_of("There is no jj repo");
    match find_chars(&e, &p) {
        Some(_) => Some(NoRepo { in_git }),
        None => None,
    }
}

/// A name is offered as a completion of `prefix` exactly when it is one of the
/// names and `prefix` is a prefix of it (a name equal to the prefix included),
/// and completions keep the names' order: every name completes itself.
pub proof fn law_completion_is_prefix_filter(names: Seq<Seq<char>>, prefix: Seq<char>, n: Seq<char>)
    ensures
        with_prefix(names, prefix).contains(n) <==> (names.contains(n) && starts_with(n, prefix)),
        names.contains(n) ==> with_prefix(names, n).contains(n),
    decreases names.len(),
{
    if names.len() > 0 {
        law_completion_is_prefix_filter(names.drop_last(), prefix, n);
        law_completion_is_prefix_filter(names.drop_last(), n, n);
        let init = names.drop_last();
        assert(names =~= init.push(names.last()));
        assert(names.contains(n) <==> (init.contains(n) || n == names.last())) by {
            if names.contains(n) {
                let k = choose|k: int| 0 <= k < names.len() && names[k] == n;
                if k < names.len() - 1 {
                    assert(init[k] == n);
                }
            }
            if init.contains(n) {
                let k = choose|k: int| 0 <= k < init.len() && init[k] == n;
                assert(names[k] == n);
            }
        }
        assert(starts_with(n, n)) by {
            assert(n.take(n.len() as int) =~= n);
        }
        let w = with_prefix(init, prefix);
        if starts_with(names.last(), prefix) {
            assert(with_prefix(names, prefix) == w.push(names.last()));
            assert(w.push(names.last()).contains(n) <==> (w.contains(n) || n == names.last())) by {
                if w.push(names.last()).contains(n) {
                    let k = choose|k: int| 0 <= k < w.len() + 1 && w.push(names.last())[k] == n;
                    if k < w.len() {
                        assert(w[k] == n);
                    }
                }
                if w.contains(n) {
                    let k = choose|k: int| 0 <= k < w.len() && w[k] == n;
                    assert(w.push(names.last())[k] == n);
                }
                if n == names.last() {
                    assert(w.push(names.last())[w.len() as int] == n);
                }
            }
        }
        let w2 = with_prefix(init, n);
        if n == names.last() {
            assert(with_prefix(names, n) == w2.push(n));
            assert(w2.push(n)[w2.len() as int] == n);
        } else if names.contains(n) {
            assert(init.contains(n));
            if starts_with(names.last(), n) {
                let k = choose|k: int| 0 <= k < w2.len() && w2[k] == n;
                assert(w2.push(names.last())[k] == n);
            }
        }
    }
}

} // verus!

//! Workspace operations: how a new workspace is seeded.

use vstd::prelude::*;
use crate::jj::{field, owned, BookmarkPresence};
use crate::keymap::eq_lit;
use crate::text::{chars_of, split_char, split_chars, string_of};

verus! {

/// Where a new workspace starts from.
#[derive(Debug, Clone, PartialEq, Eq)]
pub enum Seed {
    /// Seed with `-r <revset>`, no fetch (a local bookmark, or `name@git`).
    Revset(String),
    /// Real remote only: fetch `-b <name>`, then `-r <name>`.
    Fetch(String),
    /// Nothing matches: no `-r`.
    Fresh,
}

/// A seed with its strings as sequences of characters.
pub enum SeedView {
    Revset(Seq<char>),
    Fetch(Seq<char>),
    Fresh,
}

/// The view of a seed.
pub open spec fn seed_view(s: Seed) -> SeedView {
    match s {
        Seed::Revset(r) => SeedView::Revset(r@),
        Seed::Fetch(n) => SeedView::Fetch(n@),
        Seed::Fresh => SeedView::Fresh,
    }
}

/// The seed strategy, by precedence: local jj bookmark, then colocated git
/// branch, then real remote, then fresh.
pub open spec fn seed_for(name: Seq<char>, p: BookmarkPresence) -> SeedView {
    if p.local {
        SeedView::Revset(name)
    } else if p.git {
        SeedView::Revset(name + "@git"@)
    } else if p.remote is Some {
        SeedView::Fetch(name)
    } else {
        SeedView::Fresh
    }
}

/// Pure: choose the seed strategy. Precedence:
/// local jj bookmark → colocated git branch → real remote → fresh.
pub fn decide_seed(name: &str, p: &BookmarkPresence) -> (r: Seed)
    ensures
        seed_view(r) == seed_for(name@, *p),
{
    if p.local {
        Seed::Revset(owned(name))
    } else if p.git {
        let mut r = owned(name);
        r.append("@git");
        Seed::Revset(r)
    } else if p.remote.is_some() {
        Seed::Fetch(owned(name))
    } else {
        Seed::Fresh
    }
}

/// The row template of `jj bookmark list`: the bookmark's name, a tab, its
/// remote (empty for a local bookmark).
pub const BOOKMARK_TMPL: &'static str = "self.name() ++ \"\\t\" ++ if(self.remote(), self.remote(), \"\") ++ \"\\n\"";

/// The arguments of `jj bookmark list --all-remotes` for the bookmarks named `name`.
pub fn bookmark_list_args(name: &str) -> (r: Vec<String>)
    ensures
        r@.len() == 6,
        r@[0]@ == "bookmark"@,
        r@[1]@ == "list"@,
        r@[2]@ == "--all-remotes"@,
        r@[3]@ == "-T"@,
        r@[4]@ == BOOKMARK_TMPL@,
        r@[5]@ == name@,
{
    let mut r: Vec<String> = Vec::new();
    r.push(owned("bookmark"));
    r.push(owned("list"));
    r.push(owned("--all-remotes"));
    r.push(owned("-T"));
    r.push(owned(BOOKMARK_TMPL));
    r.push(owned(name));
    r
}

/// What the `name<TAB>remote` lines `ls` say of the bookmark `name`: a line with
/// no remote is a local bookmark, remote `git` a colocated git branch, and the
/// first line with another remote names the real remote.
pub open spec fn presence_in(ls: Seq<Seq<char>>, name: Seq<char>) -> (bool, bool, Option<Seq<char>>)
    decreases ls.len(),
{
    if ls.len() == 0 {
        (false, false, None)
    } else {
        let rest = presence_in(ls.drop_first(), name);
        let f = split_char(ls[0], '\t');
        if f[0] == name {
            let remote = field(f, 1);
            if remote.len() == 0 {
                (true, rest.1, rest.2)
            } else if remote == "git"@ {
                (rest.0, true, rest.2)
            } else {
                (rest.0, rest.1, Some(remote))
            }
        } else {
            rest
        }
    }
}

/// The view of a presence.
pub open spec fn presence_view(p: BookmarkPresence) -> (bool, bool, Option<Seq<char>>) {
    (
        p.local,
        p.git,
        match p.remote {
            Some(r) => Some(r@),
            None => None,
        },
    )
}

/// Where the bookmark `name` exists, from the output of `jj bookmark list`
/// with `BOOKMARK_TMPL`.
pub fn bookmark_presence(raw: &str, name: &str) -> (r: BookmarkPresence)
    ensures
        presence_view(r) == presence_in(split_char(raw@, '\n'), name@),
{
    let ls = split_chars(&chars_of(raw), '\n');
    let ghost lv = split_char(raw@, '\n');
    proof {
        assert(Seq::new(ls@.len(), |j: int| ls@[j]@) =~= lv);
    }
    let mut p = BookmarkPresence { local: false, git: false, remote: None };
    let mut i: usize = ls.len();
    proof {
        assert(lv.skip(i as int) =~= Seq::<Seq<char>>::empty());
    }
    while i > 0
        invariant
            i <= ls@.len(),
            ls@.len() == lv.len(),
            forall|j: int| 0 <= j < ls@.len() ==> #[trigger] ls@[j]@ == lv[j],
            presence_view(p) == presence_in(lv.skip(i as int), name@),
        decreases i,
    {
        i = i - 1;
        let f = split_chars(&ls[i], '\t');
        proof {
            assert(lv.skip(i as int).drop_first() =~= lv.skip(i + 1));
            assert(lv.skip(i as int)[0] == lv[i as int]);
        }
        if eq_lit(f[0].as_slice(), name) {
            if f.len() < 2 || f[1].len() == 0 {
                p.local = true;
            } else if eq_lit(f[1].as_slice(), "git") {
                p.git = true;
            } else {
                p.remote = Some(string_of(f[1].as_slice()));
            }
        }
    }
    proof {
        assert(lv.skip(0) =~= lv);
    }
    p
}

/// The view of a seed's arguments.
pub open spec fn add_args_for(name: Seq<char>, path: Seq<char>, seed: SeedView) -> Seq<Seq<char>> {
    match seed {
        SeedView::Revset(r) => seq!["workspace"@, "add"@, "--name"@, name, "-r"@, r, path],
        SeedView::Fetch(n) => seq!["workspace"@, "add"@, "--name"@, name, "-r"@, n, path],
        SeedView::Fresh => seq!["workspace"@, "add"@, "--name"@, name, path],
    }
}

/// The arguments of `jj workspace add` for a new workspace seeded by `seed`.
pub fn seeded_add_args(name: &str, path: &str, seed: &Seed) -> (r: Vec<String>)
    ensures
        Seq::new(r@.len(), |i: int| r@[i]@) == add_args_for(name@, path@, seed_view(*seed)),
{
    let mut r: Vec<String> = Vec::new();
    r.push(owned("workspace"));
    r.push(owned("add"));
    r.push(owned("--name"));
    r.push(owned(name));
    match seed {
        Seed::Revset(rev) => {
            r.push(owned("-r"));
            r.push(rev.clone());
        },
        Seed::Fetch(n) => {
            r.push(owned("-r"));
            r.push(n.clone());
        },
        Seed::Fresh => {},
    }
    r.push(owned(path));
    proof {
        assert(Seq::new(r@.len(), |i: int| r@[i]@) =~= add_args_for(name@, path@, seed_view(*seed)));
    }
    r
}

/// The `jj git fetch -b <name>` to run first when the seed is a real remote.
pub fn fetch_args(seed: &Seed) -> (r: Option<Vec<String>>)
    ensures
        match seed {
            Seed::Fetch(n) => r matches Some(v) && Seq::new(v@.len(), |i: int| v@[i]@) == seq![
                "git"@,
                "fetch"@,
                "-b"@,
                n@,
            ],
            _ => r is None,
        },
{
    match seed {
        Seed::Fetch(n) => {
            let mut v: Vec<String> = Vec::new();
            v.push(owned("git"));
            v.push(owned("fetch"));
            v.push(owned("-b"));
            v.push(n.clone());
            proof {
                assert(Seq::new(v@.len(), |i: int| v@[i]@) =~= seq!["git"@, "fetch"@, "-b"@, n@]);
            }
            Some(v)
        },
        _ => None,
    }
}

} // verus!

//! jj's workspace list: the template the picker asks for, the parser of its
//! output, and the argument lists of the other jj calls. Running jj is the
//! caller's business; everything here is pure.

use vstd::prelude::*;
use crate::text::{
    lemma_split_concat, lemma_split_last, lemma_split_len, lemma_split_none, chars_of, ended_lines, is_blank, is_whitespace, lines, split_char, split_chars, string_of,
    strip_cr,
};
use crate::keymap::eq_lit;

verus! {

/// The `jj workspace list -T` template: one tab-separated row per workspace with
/// name, root, change id, first description line, conflict flag, empty flag.
/// The root comes right after the name so a stray tab in the free-text
/// description cannot shift it.
pub const LIST_TMPL: &'static str = "self.name() ++ \"\\t\" ++ self.root() ++ \"\\t\" ++ self.target().change_id().shortest(8) ++ \"\\t\" ++ if(self.target().description(), self.target().description().first_line(), \"(no description)\") ++ \"\\t\" ++ if(self.target().conflict(), \"1\", \"0\") ++ \"\\t\" ++ if(self.target().empty(), \"1\", \"0\") ++ \"\\n\"";

/// One parsed row of the list output.
#[derive(Debug, Clone, PartialEq, Eq)]
pub struct ParsedRow {
    pub name: String,
    pub root: String,
    pub change_id: String,
    pub description: String,
    pub conflict: bool,
    pub empty: bool,
}

/// The fields of a parsed row as sequences of characters.
pub struct RowView {
    pub name: Seq<char>,
    pub root: Seq<char>,
    pub change_id: Seq<char>,
    pub description: Seq<char>,
    pub conflict: bool,
    pub empty: bool,
}

impl View for ParsedRow {
    type V = RowView;

    open spec fn view(&self) -> RowView {
        RowView {
            name: self.name@,
            root: self.root@,
            change_id: self.change_id@,
            description: self.description@,
            conflict: self.conflict,
            empty: self.empty,
        }
    }
}

/// Field `i` of a split row, empty when the row is shorter.
pub open spec fn field(fields: Seq<Seq<char>>, i: int) -> Seq<char> {
    if i < fields.len() {
        fields[i]
    } else {
        Seq::empty()
    }
}

/// The row one line holds: its tab-separated fields in template order; a flag
/// is set exactly when its field is `"1"`.
pub open spec fn row_of(line: Seq<char>) -> RowView {
    let f = split_char(line, '\t');
    RowView {
        name: f[0],
        root: field(f, 1),
        change_id: field(f, 2),
        description: field(f, 3),
        conflict: f.len() > 4 && f[4] == "1"@,
        empty: f.len() > 5 && f[5] == "1"@,
    }
}

/// The rows of a list of lines: one per line that is not blank.
pub open spec fn rows_of(ls: Seq<Seq<char>>) -> Seq<RowView>
    decreases ls.len(),
{
    if ls.len() == 0 {
        Seq::empty()
    } else {
        let init = rows_of(ls.drop_last());
        if is_blank(ls.last()) {
            init
        } else {
            init.push(row_of(ls.last()))
        }
    }
}

/// What `parse_workspace_list` gives for the raw output `raw`.
pub open spec fn parse_list(raw: Seq<char>) -> Seq<RowView> {
    rows_of(lines(raw))
}

/// The views of a vector of rows.
pub open spec fn rows_view(v: Seq<ParsedRow>) -> Seq<RowView> {
    Seq::new(v.len(), |i: int| v[i]@)
}

/// True when `v` holds only white space.
fn blank(v: &Vec<char>) -> (r: bool)
    ensures
        r == is_blank(v@),
{
    let mut i: usize = 0;
    while i < v.len()
        invariant
            i <= v.len(),
            forall|j: int| 0 <= j < i ==> crate::text::is_ws(#[trigger] v@[j]),
        decreases v.len() - i,
    {
        if !is_whitespace(v[i]) {
            return false;
        }
        i = i + 1;
    }
    true
}

/// Parse one line into a row.
fn parse_row(line: &Vec<char>) -> (r: ParsedRow)
    ensures
        r@ == row_of(line@),
{
    let f = split_chars(line, '\t');
    let ghost fs = split_char(line@, '\t');
    let name = string_of(f[0].as_slice());
    let root = if f.len() > 1 {
        string_of(f[1].as_slice())
    } else {
        String::new()
    };
    let change_id = if f.len() > 2 {
        string_of(f[2].as_slice())
    } else {
        String::new()
    };
    let description = if f.len() > 3 {
        string_of(f[3].as_slice())
    } else {
        String::new()
    };
    let conflict = f.len() > 4 && eq_lit(f[4].as_slice(), "1");
    let empty = f.len() > 5 && eq_lit(f[5].as_slice(), "1");
    proof {
        assert(f@[0]@ == fs[0]);
        if f.len() > 1 {
            assert(f@[1]@ == fs[1]);
        }
        if f.len() > 2 {
            assert(f@[2]@ == fs[2]);
        }
        if f.len() > 3 {
            assert(f@[3]@ == fs[3]);
        }
        if f.len() > 4 {
            assert(f@[4]@ == fs[4]);
        }
        if f.len() > 5 {
            assert(f@[5]@ == fs[5]);
        }
    }
    ParsedRow { name, root, change_id, description, conflict, empty }
}

/// Splitting a piece list after one more separator: the lines ended so far grow
/// by the last (now ended) piece.
proof fn lemma_ended_lines_push(parts: Seq<Seq<char>>)
    requires
        parts.len() >= 1,
    ensures
        ended_lines(parts.push(Seq::empty())) == ended_lines(parts).push(strip_cr(parts.last())),
{
    assert(ended_lines(parts.push(Seq::empty())) =~= ended_lines(parts).push(strip_cr(parts.last())));
}

/// Changing only the last piece leaves the ended lines alone.
proof fn lemma_ended_lines_update_last(parts: Seq<Seq<char>>, x: Seq<char>)
    requires
        parts.len() >= 1,
    ensures
        ended_lines(parts.update(parts.len() - 1, x)) == ended_lines(parts),
{
    assert(ended_lines(parts.update(parts.len() - 1, x)) =~= ended_lines(parts));
}

/// Pure parser over the tab-delimited `LIST_TMPL` output: one row per non-blank
/// line. No I/O.
pub fn parse_workspace_list(raw: &str) -> (r: Vec<ParsedRow>)
    ensures
        rows_view(r@) == parse_list(raw@),
{
    let chars = chars_of(raw);
    let mut rows: Vec<ParsedRow> = Vec::new();
    let mut cur: Vec<char> = Vec::new();
    let mut i: usize = 0;
    proof {
        assert(chars@.take(0) =~= Seq::<char>::empty());
        assert(ended_lines(split_char(Seq::<char>::empty(), '\n')) =~= Seq::<Seq<char>>::empty());
        assert(rows_view(rows@) =~= Seq::<RowView>::empty());
    }
    while i < chars.len()
        invariant
            i <= chars@.len(),
            chars@ == raw@,
            rows_view(rows@) == rows_of(ended_lines(split_char(chars@.take(i as int), '\n'))),
            cur@ == split_char(chars@.take(i as int), '\n').last(),
        decreases chars.len() - i,
    {
        let ghost s0 = chars@.take(i as int);
        let ghost s1 = chars@.take(i + 1);
        proof {
            assert(s1.drop_last() =~= s0);
            assert(s1.last() == chars@[i as int]);
            crate::text::lemma_split_len(s0, '\n');
        }
        let c = chars[i];
        if c == '\n' {
            let mut line = cur;
            if line.len() > 0 && line[line.len() - 1] == '\r' {
                line.pop();
            }
            proof {
                assert(line@ == strip_cr(split_char(s0, '\n').last()));
                lemma_ended_lines_push(split_char(s0, '\n'));
                let el = ended_lines(split_char(s1, '\n'));
                assert(el.drop_last() == ended_lines(split_char(s0, '\n')));
                assert(el.last() == line@);
            }
            if !blank(&line) {
                let row = parse_row(&line);
                let ghost before = rows@;
                rows.push(row);
                proof {
                    assert(rows_view(rows@) =~= rows_view(before).push(row@));
                }
            }
            cur = Vec::new();
        } else {
            cur.push(c);
            proof {
                let sp = split_char(s0, '\n');
                lemma_ended_lines_update_last(sp, sp.last().push(c));
            }
        }
        i = i + 1;
    }
    proof {
        assert(chars@.take(chars@.len() as int) =~= chars@);
        crate::text::lemma_split_len(chars@, '\n');
    }
    if cur.len() > 0 && !blank(&cur) {
        let row = parse_row(&cur);
        let ghost before = rows@;
        rows.push(row);
        proof {
            assert(rows_view(rows@) =~= rows_view(before).push(row@));
        }
    }
    proof {
        let sp = split_char(raw@, '\n');
        if sp.last().len() > 0 {
            assert(lines(raw@).drop_last() =~= ended_lines(sp));
        } else {
            assert(lines(raw@) == ended_lines(sp));
        }
    }
    rows
}

/// Equality of two paths as std compares them (`<Path as PartialEq>::eq`, which
/// compares the paths' components).
pub uninterp spec fn path_eq(a: Seq<char>, b: Seq<char>) -> bool;

/// `Path::new(a) == Path::new(b)`. Claimed: the result is the named `path_eq` of
/// the two strings, and equal strings are equal paths (`Path` is `Eq`). Which
/// differing strings compare equal (a trailing `/`, a doubled `/`) is left to std.
#[verifier::external_body]
fn same_path(a: &str, b: &str) -> (r: bool)
    ensures
        r == path_eq(a@, b@),
        a@ == b@ ==> r,
{
    std::path::Path::new(a) == std::path::Path::new(b)
}

/// A jj workspace as surfaced by the picker: one row in the list, one preview.
#[derive(Debug, Clone, PartialEq, Eq)]
pub struct Workspace {
    pub name: String,
    pub path: String,
    pub change_id: String,
    pub description: String,
    pub conflict: bool,
    pub empty: bool,
    pub stale: bool,
    pub is_current: bool,
}

/// The fields of a workspace as sequences of characters.
pub struct WorkspaceView {
    pub name: Seq<char>,
    pub path: Seq<char>,
    pub change_id: Seq<char>,
    pub description: Seq<char>,
    pub conflict: bool,
    pub empty: bool,
    pub stale: bool,
    pub is_current: bool,
}

impl View for Workspace {
    type V = WorkspaceView;

    open spec fn view(&self) -> WorkspaceView {
        WorkspaceView {
            name: self.name@,
            path: self.path@,
            change_id: self.change_id@,
            description: self.description@,
            conflict: self.conflict,
            empty: self.empty,
            stale: self.stale,
            is_current: self.is_current,
        }
    }
}

/// The workspace a row describes; it is current when its root is the same path
/// as the current workspace's root. jj's list template exposes no stale flag.
pub open spec fn workspace_of(row: RowView, current: Option<Seq<char>>) -> WorkspaceView {
    WorkspaceView {
        name: row.name,
        path: row.root,
        change_id: row.change_id,
        description: row.description,
        conflict: row.conflict,
        empty: row.empty,
        stale: false,
        is_current: current is Some && path_eq(current->0, row.root),
    }
}

/// The views of a vector of workspaces.
pub open spec fn workspaces_view(v: Seq<Workspace>) -> Seq<WorkspaceView> {
    Seq::new(v.len(), |i: int| v[i]@)
}

/// The view of an optional string.
pub open spec fn opt_str(o: Option<&str>) -> Option<Seq<char>> {
    match o {
        Some(s) => Some(s@),
        None => None,
    }
}

/// The workspaces of a jj list output, given the current workspace's root (if
/// known): one per row, in order.
pub fn workspaces_from_list(raw: &str, current: Option<&str>) -> (r: Vec<Workspace>)
    ensures
        r@.len() == parse_list(raw@).len(),
        forall|i: int|
            0 <= i < r@.len() ==> #[trigger] r@[i]@ == workspace_of(
                parse_list(raw@)[i],
                opt_str(current),
            ),
{
    let rows = parse_workspace_list(raw);
    let mut out: Vec<Workspace> = Vec::new();
    let mut i: usize = 0;
    proof {
        assert(rows_view(rows@).len() == rows@.len());
    }
    while i < rows.len()
        invariant
            i <= rows@.len(),
            rows_view(rows@) == parse_list(raw@),
            out@.len() == i,
            forall|k: int|
                0 <= k < i ==> #[trigger] out@[k]@ == workspace_of(parse_list(raw@)[k], opt_str(current)),
        decreases rows.len() - i,
    {
        let row = &rows[i];
        let is_current = match current {
            Some(c) => same_path(c, row.root.as_str()),
            None => false,
        };
        proof {
            assert(rows_view(rows@)[i as int] == row@);
        }
        out.push(
            Workspace {
                name: row.name.clone(),
                path: row.root.clone(),
                change_id: row.change_id.clone(),
                description: row.description.clone(),
                conflict: row.conflict,
                empty: row.empty,
                stale: false,
                is_current,
            },
        );
        i = i + 1;
    }
    out
}

/// What a local jj bookmark, a colocated git branch, or a real remote offer
/// for a workspace name (the input to choosing how to seed a new workspace).
#[derive(Debug, Clone, Default, PartialEq, Eq)]
pub struct BookmarkPresence {
    pub local: bool,
    pub git: bool,
    pub remote: Option<String>,
}

/// An owned copy of `s`.
pub fn owned(s: &str) -> (r: String)
    ensures
        r@ == s@,
{
    let mut r = String::new();
    r.append(s);
    r
}

/// The arguments of `jj workspace list`, with the row template.
pub fn list_args() -> (r: Vec<String>)
    ensures
        r@.len() == 5,
        r@[0]@ == "workspace"@,
        r@[1]@ == "list"@,
        r@[2]@ == "--ignore-working-copy"@,
        r@[3]@ == "-T"@,
        r@[4]@ == LIST_TMPL@,
{
    let mut r: Vec<String> = Vec::new();
    r.push(owned("workspace"));
    r.push(owned("list"));
    r.push(owned("--ignore-working-copy"));
    r.push(owned("-T"));
    r.push(owned(LIST_TMPL));
    r
}

/// The arguments of `jj workspace root` (the current repo root).
pub fn root_args() -> (r: Vec<String>)
    ensures
        r@.len() == 2,
        r@[0]@ == "workspace"@,
        r@[1]@ == "root"@,
{
    let mut r: Vec<String> = Vec::new();
    r.push(owned("workspace"));
    r.push(owned("root"));
    r
}

/// The root path `jj workspace root` printed: its output, trimmed.
pub fn root_from_output(out: &str) -> (r: String)
    ensures
        r@ == crate::text::trim(out@),
{
    let c = chars_of(out);
    let t = crate::text::trim_chars(&c);
    string_of(t.as_slice())
}

/// The arguments of the preview call: `jj diff -r '<name>@' --stat --color always`.
pub fn diff_stat_args(name: &str) -> (r: Vec<String>)
    ensures
        r@.len() == 7,
        r@[0]@ == "diff"@,
        r@[1]@ == "--ignore-working-copy"@,
        r@[2]@ == "-r"@,
        r@[3]@ == name@ + "@"@,
        r@[4]@ == "--stat"@,
        r@[5]@ == "--color"@,
        r@[6]@ == "always"@,
{
    let mut rev = owned(name);
    rev.append("@");
    let mut r: Vec<String> = Vec::new();
    r.push(owned("diff"));
    r.push(owned("--ignore-working-copy"));
    r.push(owned("-r"));
    r.push(rev);
    r.push(owned("--stat"));
    r.push(owned("--color"));
    r.push(owned("always"));
    r
}

/// The arguments of `jj workspace add --name <name> <path>`.
pub fn add_workspace_args(name: &str, path: &str) -> (r: Vec<String>)
    ensures
        r@.len() == 5,
        r@[0]@ == "workspace"@,
        r@[1]@ == "add"@,
        r@[2]@ == "--name"@,
        r@[3]@ == name@,
        r@[4]@ == path@,
{
    let mut r: Vec<String> = Vec::new();
    r.push(owned("workspace"));
    r.push(owned("add"));
    r.push(owned("--name"));
    r.push(owned(name));
    r.push(owned(path));
    r
}

/// The arguments of `jj workspace forget <name>`.
pub fn forget_workspace_args(name: &str) -> (r: Vec<String>)
    ensures
        r@.len() == 3,
        r@[0]@ == "workspace"@,
        r@[1]@ == "forget"@,
        r@[2]@ == name@,
{
    let mut r: Vec<String> = Vec::new();
    r.push(owned("workspace"));
    r.push(owned("forget"));
    r.push(owned(name));
    r
}

/// `parts` joined by `sep`.
pub open spec fn join(parts: Seq<Seq<char>>, sep: Seq<char>) -> Seq<char>
    decreases parts.len(),
{
    if parts.len() == 0 {
        Seq::empty()
    } else if parts.len() == 1 {
        parts[0]
    } else {
        join(parts.drop_last(), sep) + sep + parts.last()
    }
}

/// The error text for a failed jj call: `jj <args> failed: <stderr, trimmed>`.
pub fn failure_message(args: &Vec<String>, stderr: &str) -> (r: String)
    ensures
        r@ == "jj "@ + join(Seq::new(args@.len(), |i: int| args@[i]@), " "@) + " failed: "@
            + crate::text::trim(stderr@),
{
    let ghost parts = Seq::new(args@.len(), |i: int| args@[i]@);
    let mut r = owned("jj ");
    let ghost head = r@;
    let mut i: usize = 0;
    while i < args.len()
        invariant
            i <= args@.len(),
            head == "jj "@,
            parts == Seq::new(args@.len(), |k: int| args@[k]@),
            r@ == head + join(parts.take(i as int), " "@),
        decreases args.len() - i,
    {
        proof {
            assert(parts.take(i + 1).drop_last() =~= parts.take(i as int));
            assert(parts.take(i + 1).last() == args@[i as int]@);
        }
        if i > 0 {
            r.append(" ");
        } else {
            proof {
                assert(parts.take(1) =~= seq![args@[0]@]);
                assert(parts.take(0) =~= Seq::<Seq<char>>::empty());
            }
        }
        r.append(args[i].as_str());
        proof {
            if i > 0 {
                assert(r@ =~= head + (join(parts.take(i as int), " "@) + " "@ + args@[i as int]@));
            } else {
                assert(r@ =~= head + args@[0]@);
            }
        }
        i = i + 1;
    }
    proof {
        assert(parts.take(args@.len() as int) =~= parts);
    }
    r.append(" failed: ");
    let c = chars_of(stderr);
    let t = crate::text::trim_chars(&c);
    let ts = string_of(t.as_slice());
    r.append(ts.as_str());
    r
}

/// Rows of a concatenation are the concatenated rows.
proof fn lemma_rows_concat(x: Seq<Seq<char>>, y: Seq<Seq<char>>)
    ensures
        rows_of(x + y) == rows_of(x) + rows_of(y),
    decreases y.len(),
{
    if y.len() == 0 {
        assert(x + y =~= x);
        assert(rows_of(x) + rows_of(y) =~= rows_of(x));
    } else {
        lemma_rows_concat(x, y.drop_last());
        assert((x + y).drop_last() =~= x + y.drop_last());
        assert((x + y).last() == y.last());
        if is_blank(y.last()) {
        } else {
            assert(rows_of(x) + rows_of(y.drop_last()).push(row_of(y.last())) =~= (rows_of(x) + rows_of(
                y.drop_last(),
            )).push(row_of(y.last())));
        }
    }
}

/// Output can be parsed piecewise: the rows of two outputs joined by a newline
/// are the rows of the first followed by the rows of the second, provided the
/// first does not end in a carriage return (which the newline would turn into
/// a `"\r\n"` line ending).
pub proof fn law_rows_of_joined_outputs(a: Seq<char>, b: Seq<char>)
    requires
        !(a.len() > 0 && a.last() == '\r'),
    ensures
        parse_list(a + seq!['\n'] + b) == parse_list(a) + parse_list(b),
{
    let p = split_char(a, '\n');
    let q = split_char(b, '\n');
    lemma_split_concat(a, b, '\n');
    lemma_split_len(a, '\n');
    lemma_split_len(b, '\n');
    lemma_split_last(a, '\n');
    let sp = Seq::new(p.len(), |i: int| strip_cr(p[i]));
    assert(ended_lines(p + q) =~= sp + ended_lines(q));
    let whole = lines(a + seq!['\n'] + b);
    if q.last().len() > 0 {
        assert(whole =~= sp + lines(b));
    } else {
        assert(whole =~= sp + lines(b));
    }
    lemma_rows_concat(sp, lines(b));
    assert(sp.drop_last() =~= ended_lines(p));
    assert(sp.last() == strip_cr(p.last()));
    if p.last().len() > 0 {
        assert(strip_cr(p.last()) == p.last());
        assert(sp =~= lines(a));
    } else {
        assert(is_blank(sp.last()));
        assert(lines(a) == ended_lines(p));
        assert(rows_of(sp) == rows_of(sp.drop_last()));
    }
}

/// A flag column as the template prints it.
pub open spec fn flag_text(b: bool) -> Seq<char> {
    if b {
        seq!['1']
    } else {
        seq!['0']
    }
}

/// The line `LIST_TMPL` prints for a workspace with the given columns.
pub open spec fn rendered_row(r: RowView) -> Seq<char> {
    r.name + seq!['\t'] + r.root + seq!['\t'] + r.change_id + seq!['\t'] + r.description + seq!['\t']
        + flag_text(r.conflict) + seq!['\t'] + flag_text(r.empty) + seq!['\n']
}

/// No tab and no newline in a column.
pub open spec fn plain_column(s: Seq<char>) -> bool {
    forall|i: int| 0 <= i < s.len() ==> s[i] != '\t' && s[i] != '\n'
}

/// Every row the template renders parses back to its columns.
pub proof fn law_rendered_row_parses_back(r: RowView)
    requires
        plain_column(r.name),
        plain_column(r.root),
        plain_column(r.change_id),
        plain_column(r.description),
    ensures
        parse_list(rendered_row(r)) == seq![r],
{
    reveal_strlit("1");
    let c = flag_text(r.conflict);
    let e = flag_text(r.empty);
    let line = r.name + seq!['\t'] + r.root + seq!['\t'] + r.change_id + seq!['\t'] + r.description
        + seq!['\t'] + c + seq!['\t'] + e;
    assert(rendered_row(r) =~= line + seq!['\n'] + Seq::<char>::empty());
    // The tab-separated columns.
    lemma_split_none(r.name, '\t');
    lemma_split_none(r.root, '\t');
    lemma_split_none(r.change_id, '\t');
    lemma_split_none(r.description, '\t');
    lemma_split_none(c, '\t');
    lemma_split_none(e, '\t');
    let l1 = r.name;
    let l2 = l1 + seq!['\t'] + r.root;
    let l3 = l2 + seq!['\t'] + r.change_id;
    let l4 = l3 + seq!['\t'] + r.description;
    let l5 = l4 + seq!['\t'] + c;
    lemma_split_concat(l1, r.root, '\t');
    lemma_split_concat(l2, r.change_id, '\t');
    lemma_split_concat(l3, r.description, '\t');
    lemma_split_concat(l4, c, '\t');
    lemma_split_concat(l5, e, '\t');
    assert(line =~= l5 + seq!['\t'] + e);
    let f = split_char(line, '\t');
    assert(f =~= seq![r.name, r.root, r.change_id, r.description, c, e]);
    assert("1"@ =~= seq!['1']);
    assert(c == "1"@ <==> r.conflict);
    assert(e == "1"@ <==> r.empty);
    assert(row_of(line) == r);
    // The one line.
    assert forall|i: int| 0 <= i < line.len() implies line[i] != '\n' by {
        assert(plain_column(r.name));
    }
    lemma_split_none(line, '\n');
    lemma_split_concat(line, Seq::<char>::empty(), '\n');
    assert(line.last() == e[0]);
    assert(strip_cr(line) == line);
    assert(lines(rendered_row(r)) =~= seq![line]);
    assert(!is_blank(line)) by {
        assert(!crate::text::is_ws(line[line.len() - 1]));
    }
    assert(seq![line].drop_last() =~= Seq::<Seq<char>>::empty());
    assert(seq![line].last() == line);
    assert(rows_of(Seq::<Seq<char>>::empty()) =~= Seq::<RowView>::empty());
    assert(rows_of(seq![line]) =~= seq![row_of(line)]);
}

/// The text `LIST_TMPL` prints for a list of workspaces: their rows, in order.
pub open spec fn rendered_rows(rows: Seq<RowView>) -> Seq<char>
    decreases rows.len(),
{
    if rows.len() == 0 {
        Seq::empty()
    } else {
        rendered_rows(rows.drop_last()) + rendered_row(rows.last())
    }
}

/// Every column of the row is free of tabs and newlines.
pub open spec fn plain_row(r: RowView) -> bool {
    plain_column(r.name) && plain_column(r.root) && plain_column(r.change_id) && plain_column(r.description)
}

/// A non-empty rendering ends in a flag column and a newline.
proof fn lemma_rendered_rows_end(rows: Seq<RowView>)
    requires
        rows.len() > 0,
    ensures
        rendered_rows(rows).len() >= 2,
        rendered_rows(rows).last() == '\n',
        rendered_rows(rows)[rendered_rows(rows).len() - 2] == '0' || rendered_rows(rows)[rendered_rows(
            rows,
        ).len() - 2] == '1',
{
    let r = rows.last();
    let t = rendered_row(r);
    let e = flag_text(r.empty);
    assert(t =~= (r.name + seq!['\t'] + r.root + seq!['\t'] + r.change_id + seq!['\t'] + r.description
        + seq!['\t'] + flag_text(r.conflict) + seq!['\t']) + e + seq!['\n']);
    assert(t[t.len() - 2] == e[0]);
    let all = rendered_rows(rows);
    assert(all == rendered_rows(rows.drop_last()) + t);
    assert(all[all.len() - 2] == t[t.len() - 2]);
}

/// Every list of rows the template renders parses back to the same rows.
pub proof fn law_rendered_rows_parse_back(rows: Seq<RowView>)
    requires
        forall|i: int| 0 <= i < rows.len() ==> plain_row(#[trigger] rows[i]),
    ensures
        parse_list(rendered_rows(rows)) == rows,
    decreases rows.len(),
{
    if rows.len() == 0 {
        let sp = split_char(Seq::<char>::empty(), '\n');
        assert(sp =~= seq![Seq::<char>::empty()]);
        assert(ended_lines(sp) =~= Seq::<Seq<char>>::empty());
        assert(lines(Seq::<char>::empty()) =~= Seq::<Seq<char>>::empty());
        assert(parse_list(Seq::<char>::empty()) =~= Seq::<RowView>::empty());
        assert(rendered_rows(rows) =~= Seq::<char>::empty());
        assert(rows =~= Seq::<RowView>::empty());
    } else {
        let init = rows.drop_last();
        let last = rows.last();
        assert(plain_row(rows[rows.len() - 1]));
        law_rendered_row_parses_back(last);
        if init.len() == 0 {
            assert(rendered_rows(init) =~= Seq::<char>::empty());
            assert(rendered_rows(rows) =~= rendered_row(last));
            assert(rows =~= seq![last]);
        } else {
            assert forall|i: int| 0 <= i < init.len() implies plain_row(#[trigger] init[i]) by {
                assert(init[i] == rows[i]);
            }
            law_rendered_rows_parse_back(init);
            lemma_rendered_rows_end(init);
            let r = rendered_rows(init);
            let a = r.drop_last();
            assert(a.last() == r[r.len() - 2]);
            assert(r =~= a + seq!['\n'] + Seq::<char>::empty());
            law_rows_of_joined_outputs(a, Seq::<char>::empty());
            law_rows_of_joined_outputs(Seq::<char>::empty(), Seq::<char>::empty());
            assert(Seq::<char>::empty() + seq!['\n'] + Seq::<char>::empty() =~= seq!['\n']);
            let sp = split_char(seq!['\n'], '\n');
            assert(seq!['\n'].drop_last() =~= Seq::<char>::empty());
            assert(sp =~= seq![Seq::<char>::empty(), Seq::<char>::empty()]);
            assert(lines(seq!['\n']) =~= seq![Seq::<char>::empty()]);
            assert(is_blank(Seq::<char>::empty()));
            assert(seq![Seq::<char>::empty()].drop_last() =~= Seq::<Seq<char>>::empty());
            assert(parse_list(seq!['\n']) =~= Seq::<RowView>::empty());
            assert(parse_list(Seq::<char>::empty()) =~= Seq::<RowView>::empty());
            assert(parse_list(r) =~= parse_list(a));
            assert(rendered_rows(rows) =~= a + seq!['\n'] + rendered_row(last));
            law_rows_of_joined_outputs(a, rendered_row(last));
            assert(rows =~= init + seq![last]);
        }
    }
}

} // verus!

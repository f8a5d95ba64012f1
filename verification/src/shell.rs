//! Shell integration: the `jw` wrapper function that performs the cd-on-exit,
//! tab-completion registration, and idempotent installation into rc files.

use vstd::prelude::*;
use crate::jj::owned;
use crate::keymap::eq_lit;
use crate::text::{
    lemma_find_is, lemma_find_spec, occurs_at, chars_of, find, find_chars, push_all, replace, replace_chars, slice_chars, split_char,
    split_chars, string_of,
};

verus! {

/// Marker opening jw's managed block in an rc file. Kept stable across versions
/// so `install` can find and refresh an existing block instead of appending a
/// duplicate.
pub const MARKER_START: &'static str = "# >>> jw shell integration >>>";

/// Marker closing jw's managed block in an rc file.
pub const MARKER_END: &'static str = "# <<< jw shell integration <<<";

/// The `jw()` function for zsh and bash (an identical POSIX body), defined only
/// when the binary is reachable (on `PATH` or via `$JW_BIN`).
pub const POSIX_SHIM: &'static str = r#"if command -v "${JW_BIN:-jw}" >/dev/null 2>&1; then
jw() {
    local cd_file run_file ec=0
    cd_file="$(mktemp)"
    run_file="$(mktemp)"
    JW_DIRECTIVE_CD_FILE="$cd_file" JW_DIRECTIVE_EXEC_FILE="$run_file" \
        command "${JW_BIN:-jw}" "$@" || ec=$?
    # cd_file holds a raw path. `builtin cd` bypasses any user `cd` alias or
    # function (e.g. zoxide's `alias cd=__zoxide_z`) that would otherwise be
    # substituted into this function body when it is defined.
    if [ -s "$cd_file" ]; then
        builtin cd -- "$(cat "$cd_file")"
    fi
    # run_file holds shell to source (the editor/agent launch from `o`/`a`).
    if [ -s "$run_file" ]; then
        . "$run_file"
    fi
    rm -f "$cd_file" "$run_file"
    return $ec
}
fi
"#;

/// The `jw` function for fish; the binary placeholder is resolved by `shim`.
pub const FISH_SHIM: &'static str = r#"if type -q jw; or set -q JW_BIN
    function jw
        set -l cd_file (mktemp)
        set -l run_file (mktemp)
        env JW_DIRECTIVE_CD_FILE=$cd_file JW_DIRECTIVE_EXEC_FILE=$run_file command "$JW_BIN_OR_DEFAULT" $argv
        set -l ec $status
        # `builtin cd` bypasses any user `cd` alias/function (e.g. zoxide).
        if test -s $cd_file
            builtin cd (cat $cd_file)
        end
        if test -s $run_file
            source $run_file
        end
        rm -f $cd_file $run_file
        return $ec
    end
end
"#;

/// Lazy zsh tab-completion registration (clap's dynamic completion).
pub const ZSH_COMPLETION: &'static str = r#"if command -v "${JW_BIN:-jw}" >/dev/null 2>&1 && (( $+functions[compdef] )); then
    _jw_lazy_complete() {
        if ! (( $+functions[_clap_dynamic_completer_jw] )); then
            eval "$(COMPLETE=zsh command "${JW_BIN:-jw}" 2>/dev/null)" || return
        fi
        _clap_dynamic_completer_jw "$@"
    }
    compdef _jw_lazy_complete jw
fi
"#;

/// bash tab-completion registration.
pub const BASH_COMPLETION: &'static str = r#"if command -v "${JW_BIN:-jw}" >/dev/null 2>&1; then
    eval "$(COMPLETE=bash command "${JW_BIN:-jw}" 2>/dev/null)"
fi
"#;

/// fish tab-completion registration.
pub const FISH_COMPLETION: &'static str = r#"if type -q jw; or set -q JW_BIN
    env COMPLETE=fish (test -n "$JW_BIN"; and echo $JW_BIN; or echo jw) 2>/dev/null | source
end
"#;

/// The placeholder for the binary in the fish function.
pub const FISH_BIN_PLACEHOLDER: &'static str = "\"$JW_BIN_OR_DEFAULT\"";

/// How fish resolves the binary (fish has no `${VAR:-default}`).
pub const FISH_BIN: &'static str = "(test -n \"$JW_BIN\"; and echo $JW_BIN; or echo jw)";

/// A supported shell.
#[derive(Debug, Clone, Copy, PartialEq, Eq, Structural)]
pub enum Shell {
    Zsh,
    Bash,
    Fish,
}

/// The shell a name denotes, if supported.
pub open spec fn shell_named(s: Seq<char>) -> Option<Shell> {
    if s == "zsh"@ {
        Some(Shell::Zsh)
    } else if s == "bash"@ {
        Some(Shell::Bash)
    } else if s == "fish"@ {
        Some(Shell::Fish)
    } else {
        None
    }
}

/// An unsupported shell name.
#[derive(Debug, Clone, PartialEq, Eq)]
pub struct UnsupportedShell {
    pub name: String,
}

impl UnsupportedShell {
    /// `unsupported shell: <name> (use zsh|bash|fish)`.
    pub fn message(&self) -> (r: String)
        ensures
            r@ == "unsupported shell: "@ + self.name@ + " (use zsh|bash|fish)"@,
    {
        let mut r = owned("unsupported shell: ");
        r.append(self.name.as_str());
        r.append(" (use zsh|bash|fish)");
        r
    }
}

impl Shell {
    /// The shell named `s` (`zsh`, `bash` or `fish`, exactly).
    pub fn parse_name(s: &str) -> (r: Result<Shell, UnsupportedShell>)
        ensures
            match r {
                Ok(sh) => shell_named(s@) == Some(sh),
                Err(e) => shell_named(s@) is None && e.name@ == s@,
            },
    {
        let v = chars_of(s);
        if eq_lit(v.as_slice(), "zsh") {
            Ok(Shell::Zsh)
        } else if eq_lit(v.as_slice(), "bash") {
            Ok(Shell::Bash)
        } else if eq_lit(v.as_slice(), "fish") {
            Ok(Shell::Fish)
        } else {
            Err(UnsupportedShell { name: owned(s) })
        }
    }
}

impl std::str::FromStr for Shell {
    type Err = UnsupportedShell;

    fn from_str(s: &str) -> (r: Result<Shell, UnsupportedShell>)
        ensures
            match r {
                Ok(sh) => shell_named(s@) == Some(sh),
                Err(e) => shell_named(s@) is None && e.name@ == s@,
            },
    {
        Shell::parse_name(s)
    }
}

/// The shim text for `sh`: the `jw` function, a newline, then the completion
/// registration.
pub open spec fn shim_text(sh: Shell) -> Seq<char> {
    let func = match sh {
        Shell::Zsh => POSIX_SHIM@,
        Shell::Bash => POSIX_SHIM@,
        Shell::Fish => replace(FISH_SHIM@, FISH_BIN_PLACEHOLDER@, FISH_BIN@),
    };
    let completion = match sh {
        Shell::Zsh => ZSH_COMPLETION@,
        Shell::Bash => BASH_COMPLETION@,
        Shell::Fish => FISH_COMPLETION@,
    };
    func + "\n"@ + completion
}

/// Return the shim text for `shell`, ready to `eval`/`source` in an rc file. The
/// `jw()` function comes first, then tab-completion registration.
pub fn shim(shell: Shell) -> (r: String)
    ensures
        r@ == shim_text(shell),
{
    let mut r = match shell {
        Shell::Zsh => owned(POSIX_SHIM),
        Shell::Bash => owned(POSIX_SHIM),
        Shell::Fish => {
            let p = chars_of(FISH_BIN_PLACEHOLDER);
            proof {
                reveal_strlit("\"$JW_BIN_OR_DEFAULT\"");
            }
            let f = replace_chars(&chars_of(FISH_SHIM), &p, &chars_of(FISH_BIN));
            string_of(f.as_slice())
        },
    };
    r.append("\n");
    let completion = match shell {
        Shell::Zsh => ZSH_COMPLETION,
        Shell::Bash => BASH_COMPLETION,
        Shell::Fish => FISH_COMPLETION,
    };
    r.append(completion);
    r
}

/// The last `/`-separated component of a path (the whole path if it has no `/`).
pub open spec fn basename(p: Seq<char>) -> Seq<char> {
    split_char(p, '/').last()
}

/// Map a login-shell path (e.g. `$SHELL` = `/bin/zsh`) to a known `Shell` by its
/// basename. Returns `None` for unsupported shells so the caller can ask the user
/// to pass one explicitly.
pub fn shell_from_login(login_path: &str) -> (r: Option<Shell>)
    ensures
        r == shell_named(basename(login_path@)),
{
    let v = chars_of(login_path);
    let parts = split_chars(&v, '/');
    let base = string_of(parts[parts.len() - 1].as_slice());
    match Shell::parse_name(base.as_str()) {
        Ok(sh) => Some(sh),
        Err(_) => None,
    }
}

/// `home` joined with the relative path `rel` (`Path::join` on Unix: a `/` is
/// put between them unless `home` is empty or already ends with one).
pub open spec fn join_path(home: Seq<char>, rel: Seq<char>) -> Seq<char> {
    if home.len() == 0 {
        rel
    } else if home.last() == '/' {
        home + rel
    } else {
        home + "/"@ + rel
    }
}

/// The rc file of each shell, relative to the home directory.
pub open spec fn rc_file(sh: Shell) -> Seq<char> {
    match sh {
        Shell::Zsh => ".zshrc"@,
        Shell::Bash => ".bashrc"@,
        Shell::Fish => ".config/fish/config.fish"@,
    }
}

/// The rc file jw's source line belongs in, for `shell` under `home`.
pub fn rc_path_for(shell: Shell, home: &str) -> (r: String)
    ensures
        r@ == join_path(home@, rc_file(shell)),
{
    let rel = match shell {
        Shell::Zsh => ".zshrc",
        Shell::Bash => ".bashrc",
        Shell::Fish => ".config/fish/config.fish",
    };
    let h = chars_of(home);
    let mut r = owned(home);
    if h.len() > 0 && h[h.len() - 1] != '/' {
        r.append("/");
    }
    r.append(rel);
    r
}

/// The line an rc file runs to load jw's shim.
pub open spec fn source_line(sh: Shell) -> Seq<char> {
    match sh {
        Shell::Zsh => "eval \"$(jw config shell init zsh)\""@,
        Shell::Bash => "eval \"$(jw config shell init bash)\""@,
        Shell::Fish => "jw config shell init fish | source"@,
    }
}

/// The marker-wrapped block for `sh`.
pub open spec fn source_block_text(sh: Shell) -> Seq<char> {
    MARKER_START@ + "\n"@ + source_line(sh) + "\n"@ + MARKER_END@ + "\n"@
}

/// The marker-wrapped block to write into an rc file. Sources jw's shim lazily
/// (via `config shell init`) so the integration tracks the installed binary.
pub fn source_block(shell: Shell) -> (r: String)
    ensures
        r@ == source_block_text(shell),
{
    let line = match shell {
        Shell::Zsh => "eval \"$(jw config shell init zsh)\"",
        Shell::Bash => "eval \"$(jw config shell init bash)\"",
        Shell::Fish => "jw config shell init fish | source",
    };
    let mut r = owned(MARKER_START);
    r.append("\n");
    r.append(line);
    r.append("\n");
    r.append(MARKER_END);
    r.append("\n");
    r
}

/// `s` without one leading newline.
pub open spec fn strip_leading_newline(s: Seq<char>) -> Seq<char> {
    if s.len() > 0 && s[0] == '\n' {
        s.drop_first()
    } else {
        s
    }
}

/// `s` without one trailing newline.
pub open spec fn strip_trailing_newline(s: Seq<char>) -> Seq<char> {
    if s.len() > 0 && s.last() == '\n' {
        s.drop_last()
    } else {
        s
    }
}

/// `rc` with `block` spliced in, for the given markers: when both markers occur,
/// everything from the first start marker through the line end after the first
/// end marker becomes the block; otherwise the block is appended after a blank
/// line.
pub open spec fn install_with(rc: Seq<char>, block: Seq<char>, start_m: Seq<char>, end_m: Seq<char>) -> Seq<char> {
    match (find(rc, start_m), find(rc, end_m)) {
        (Some(start), Some(e)) => rc.take(start) + strip_trailing_newline(block) + "\n"@
            + strip_leading_newline(rc.skip(e + end_m.len())),
        _ => {
            let out1 = if rc.len() > 0 && rc.last() != '\n' {
                rc + "\n"@
            } else {
                rc
            };
            let out2 = if out1.len() > 0 {
                out1 + "\n"@
            } else {
                out1
            };
            out2 + block
        },
    }
}

/// What `apply_install` gives: `install_with` jw's markers.
pub open spec fn install_text(rc: Seq<char>, block: Seq<char>) -> Seq<char> {
    install_with(rc, block, MARKER_START@, MARKER_END@)
}

/// Idempotently splice `block` into rc-file contents `rc`: replace an existing
/// jw-managed block in place, or append one if absent. Pure (no I/O).
pub fn apply_install(rc: &str, block: &str) -> (r: String)
    ensures
        r@ == install_text(rc@, block@),
{
    let r = chars_of(rc);
    let b = chars_of(block);
    let sm = chars_of(MARKER_START);
    let em = chars_of(MARKER_END);
    proof {
        reveal_strlit("\n");
    }
    match (find_chars(&r, &sm), find_chars(&r, &em)) {
        (Some(start), Some(e)) => {
            proof {
                crate::text::lemma_find_spec(r@, sm@);
                crate::text::lemma_find_spec(r@, em@);
                assert(find(r@, em@) == Some(e as int));
                assert(crate::text::occurs_at(r@, em@, e as int));
                assert(e + em@.len() <= r@.len());
                assert(r@.len() == r.len());
                assert(em@.len() == em.len());
            }
            let end = e + em.len();
            let mut out = slice_chars(&r, 0, start);
            let bl = if b.len() > 0 && b[b.len() - 1] == '\n' {
                slice_chars(&b, 0, b.len() - 1)
            } else {
                slice_chars(&b, 0, b.len())
            };
            push_all(&mut out, bl.as_slice());
            out.push('\n');
            let tail = if end < r.len() && r[end] == '\n' {
                proof {
                    assert(r@.subrange(end + 1, r@.len() as int) =~= r@.skip(end as int).drop_first());
                }
                slice_chars(&r, end + 1, r.len())
            } else {
                proof {
                    assert(r@.subrange(end as int, r@.len() as int) =~= r@.skip(end as int));
                }
                slice_chars(&r, end, r.len())
            };
            push_all(&mut out, tail.as_slice());
            proof {
                assert(r@.subrange(0, start as int) =~= r@.take(start as int));
                assert(b@.subrange(0, b@.len() as int) =~= b@);
            }
            string_of(out.as_slice())
        },
        _ => {
            let mut out = slice_chars(&r, 0, r.len());
            if out.len() > 0 && out[out.len() - 1] != '\n' {
                out.push('\n');
            }
            if out.len() > 0 {
                out.push('\n');
            }
            push_all(&mut out, b.as_slice());
            proof {
                assert(r@.subrange(0, r@.len() as int) =~= r@);
            }
            string_of(out.as_slice())
        },
    }
}

/// No `#` and no newline in `s`.
pub open spec fn plain_tail(s: Seq<char>) -> bool
    decreases s.len(),
{
    s.len() == 0 || (s[0] != '#' && s[0] != '\n' && plain_tail(s.drop_first()))
}

/// No `#` in `s`.
pub open spec fn hash_free(s: Seq<char>) -> bool
    decreases s.len(),
{
    s.len() == 0 || (s[0] != '#' && hash_free(s.drop_first()))
}

/// A marker: `#` first, then at least two characters that are neither `#` nor a newline.
pub open spec fn marker_like(m: Seq<char>) -> bool {
    m.len() >= 3 && m[0] == '#' && plain_tail(m.drop_first())
}

proof fn lemma_plain_tail(s: Seq<char>)
    requires
        plain_tail(s),
    ensures
        forall|k: int| 0 <= k < s.len() ==> s[k] != '#' && s[k] != '\n',
    decreases s.len(),
{
    if s.len() > 0 {
        lemma_plain_tail(s.drop_first());
        assert forall|k: int| 0 <= k < s.len() implies s[k] != '#' && s[k] != '\n' by {
            if k > 0 {
                assert(s[k] == s.drop_first()[k - 1]);
            }
        }
    }
}

proof fn lemma_hash_free(s: Seq<char>)
    requires
        hash_free(s),
    ensures
        forall|k: int| 0 <= k < s.len() ==> s[k] != '#',
    decreases s.len(),
{
    if s.len() > 0 {
        lemma_hash_free(s.drop_first());
        assert forall|k: int| 0 <= k < s.len() implies s[k] != '#' by {
            if k > 0 {
                assert(s[k] == s.drop_first()[k - 1]);
            }
        }
    }
}

proof fn lemma_marker_chars(m: Seq<char>)
    requires
        marker_like(m),
    ensures
        forall|k: int| 1 <= k < m.len() ==> m[k] != '#' && m[k] != '\n',
{
    lemma_plain_tail(m.drop_first());
    assert forall|k: int| 1 <= k < m.len() implies m[k] != '#' && m[k] != '\n' by {
        assert(m[k] == m.drop_first()[k - 1]);
    }
}

proof fn lemma_occurs_elem(s: Seq<char>, x: Seq<char>, j: int, k: int)
    requires
        occurs_at(s, x, j),
        0 <= k < x.len(),
    ensures
        s[j + k] == x[k],
{
    assert(s.subrange(j, j + x.len())[k] == s[j + k]);
}

/// A marker cannot start inside `pre` and end beyond it when a marker starts
/// right after `pre`; so an occurrence in `pre + rest` that starts in `pre` lies
/// within `pre`.
proof fn lemma_no_straddle(pre: Seq<char>, rest: Seq<char>, x: Seq<char>, j: int)
    requires
        marker_like(x),
        rest.len() > 0,
        rest[0] == '#' || rest[0] == '\n',
        0 <= j < pre.len(),
        occurs_at(pre + rest, x, j),
    ensures
        occurs_at(pre, x, j),
{
    lemma_marker_chars(x);
    let s = pre + rest;
    if j + x.len() > pre.len() {
        let d = pre.len() - j;
        lemma_occurs_elem(s, x, j, d);
        assert(s[j + d] == rest[0]);
        assert(false);
    }
    assert(s.subrange(j, j + x.len()) =~= pre.subrange(j, j + x.len()));
}

/// With the block `sm + mid + em + "\n"` already in place after a prefix free of
/// markers, installing the block again changes nothing.
proof fn lemma_install_fixed_point(
    pre: Seq<char>,
    post: Seq<char>,
    sm: Seq<char>,
    mid: Seq<char>,
    em: Seq<char>,
)
    requires
        marker_like(sm),
        marker_like(em),
        sm[2] != em[2],
        forall|k: int| 0 <= k < mid.len() ==> mid[k] != '#',
        forall|j: int| !occurs_at(pre, sm, j),
        forall|j: int| !occurs_at(pre, em, j),
    ensures
        install_with(pre + sm + mid + em + "\n"@ + post, sm + mid + em + "\n"@, sm, em) == pre + sm
            + mid + em + "\n"@ + post,
{
    reveal_strlit("\n");
    assert("\n"@ =~= seq!['\n']);
    lemma_marker_chars(sm);
    lemma_marker_chars(em);
    let rest = sm + mid + em + "\n"@ + post;
    let out = pre + rest;
    assert(out =~= pre + sm + mid + em + "\n"@ + post);
    let p = pre.len() as int;
    let q = p + sm.len() + mid.len();
    assert forall|k: int| 0 <= k < sm.len() implies out[p + k] == sm[k] by {}
    assert forall|k: int| 0 <= k < mid.len() implies out[p + sm.len() + k] == mid[k] by {}
    assert forall|k: int| 0 <= k < em.len() implies out[q + k] == em[k] by {}
    // The start marker is first found right after `pre`.
    assert(out.subrange(p, p + sm.len()) =~= sm);
    assert forall|j: int| 0 <= j < p implies !occurs_at(out, sm, j) by {
        if occurs_at(out, sm, j) {
            lemma_no_straddle(pre, rest, sm, j);
        }
    }
    lemma_find_is(out, sm, p);
    // The end marker is first found right after `mid`.
    assert(out.subrange(q, q + em.len()) =~= em);
    assert forall|j: int| 0 <= j < q implies !occurs_at(out, em, j) by {
        if occurs_at(out, em, j) {
            if j < p {
                lemma_no_straddle(pre, rest, em, j);
            } else {
                lemma_occurs_elem(out, em, j, 0);
                if j == p {
                    lemma_occurs_elem(out, em, j, 2);
                } else if j < p + sm.len() {
                    assert(out[j] == sm[j - p]);
                } else {
                    assert(out[j] == mid[j - p - sm.len()]);
                }
            }
        }
    }
    lemma_find_is(out, em, q);
    let block = sm + mid + em + "\n"@;
    assert(strip_trailing_newline(block) =~= sm + mid + em);
    assert(out.skip(q + em.len()) =~= "\n"@ + post);
    assert(strip_leading_newline(out.skip(q + em.len())) =~= post);
    assert(out.take(p) =~= pre);
    assert(install_with(out, block, sm, em) =~= out);
}

/// `rc` holds a well-formed jw block or none: either neither marker occurs, or
/// both do with the first start marker before the first end marker.
pub open spec fn well_marked(rc: Seq<char>) -> bool {
    ||| find(rc, MARKER_START@) is None && find(rc, MARKER_END@) is None
    ||| (find(rc, MARKER_START@) matches Some(s) && find(rc, MARKER_END@) matches Some(e) && s < e)
}

/// Installing is idempotent: installing jw's block into an rc file that holds a
/// well-formed block or none, and then installing it again, gives the same text
/// as installing once.
pub proof fn law_install_is_idempotent(rc: Seq<char>, sh: Shell)
    requires
        well_marked(rc),
    ensures
        install_text(install_text(rc, source_block_text(sh)), source_block_text(sh)) == install_text(
            rc,
            source_block_text(sh),
        ),
{
    reveal_strlit("\n");
    reveal_strlit("# >>> jw shell integration >>>");
    reveal_strlit("# <<< jw shell integration <<<");
    reveal_strlit("eval \"$(jw config shell init zsh)\"");
    reveal_strlit("eval \"$(jw config shell init bash)\"");
    reveal_strlit("jw config shell init fish | source");
    let sm = MARKER_START@;
    let em = MARKER_END@;
    assert("\n"@ =~= seq!['\n']);
    assert(sm.len() == 30);
    assert(plain_tail(sm.drop_first())) by {
        reveal_with_fuel(plain_tail, 31);
    }
    assert(plain_tail(em.drop_first())) by {
        reveal_with_fuel(plain_tail, 31);
    }
    assert(em.len() == 30);
    assert(sm[0] == '#' && em[0] == '#');
    assert(sm[2] != em[2]);
    assert(marker_like(sm));
    assert(marker_like(em));
    assert(hash_free(source_line(sh))) by {
        reveal_with_fuel(hash_free, 40);
    }
    lemma_hash_free(source_line(sh));
    let mid = "\n"@ + source_line(sh) + "\n"@;
    assert forall|k: int| 0 <= k < mid.len() implies mid[k] != '#' by {
        if 1 <= k < mid.len() - 1 {
            assert(mid[k] == source_line(sh)[k - 1]);
        }
    }
    let block = source_block_text(sh);
    assert(block =~= sm + mid + em + "\n"@);
    lemma_find_spec(rc, sm);
    lemma_find_spec(rc, em);
    if find(rc, sm) is None {
        // Appended after the existing text.
        let out1 = if rc.len() > 0 && rc.last() != '\n' {
            rc + "\n"@
        } else {
            rc
        };
        let pre = if out1.len() > 0 {
            out1 + "\n"@
        } else {
            out1
        };
        assert(install_text(rc, block) == pre + block);
        assert(rc.len() <= pre.len());
        assert(pre.take(rc.len() as int) =~= rc);
        assert forall|i: int| rc.len() <= i < pre.len() implies pre[i] == '\n' by {
            if rc.len() > 0 && rc.last() != '\n' {
                if out1.len() > 0 {
                    assert(pre =~= rc + "\n"@ + "\n"@);
                }
            } else {
                assert(out1 == rc);
                if out1.len() > 0 {
                    assert(pre =~= rc + "\n"@);
                } else {
                    assert(pre == rc);
                }
            }
        }
        assert(find(rc, em) is None);
        assert(forall|i: int| !occurs_at(rc, sm, i));
        assert(forall|i: int| !occurs_at(rc, em, i));
        assert forall|j: int| !occurs_at(pre, sm, j) && !occurs_at(pre, em, j) by {
            lemma_appended_newlines(rc, pre, sm, j);
            lemma_appended_newlines(rc, pre, em, j);
        }
        lemma_install_fixed_point(pre, Seq::empty(), sm, mid, em);
        assert(pre + sm + mid + em + "\n"@ + Seq::<char>::empty() =~= pre + block);
    } else {
        let s = find(rc, sm)->0;
        let e = find(rc, em)->0;
        let pre = rc.take(s);
        let post = strip_leading_newline(rc.skip(e + em.len()));
        assert(strip_trailing_newline(block) =~= sm + mid + em);
        assert(install_text(rc, block) =~= pre + sm + mid + em + "\n"@ + post);
        assert(occurs_at(rc, sm, s));
        assert(occurs_at(rc, em, e));
        assert(s < e);
        assert(pre.len() == s);
        assert forall|j: int| !occurs_at(pre, sm, j) && !occurs_at(pre, em, j) by {
            if occurs_at(pre, sm, j) {
                assert(pre.subrange(j, j + sm.len()) =~= rc.subrange(j, j + sm.len()));
                assert(occurs_at(rc, sm, j));
                assert(j < s);
            }
            if occurs_at(pre, em, j) {
                assert(pre.subrange(j, j + em.len()) =~= rc.subrange(j, j + em.len()));
                assert(occurs_at(rc, em, j));
                assert(j < e);
            }
        }
        lemma_install_fixed_point(pre, post, sm, mid, em);
    }
}

/// A marker absent from `rc` is absent from `rc` followed by newlines.
proof fn lemma_appended_newlines(rc: Seq<char>, pre: Seq<char>, x: Seq<char>, j: int)
    requires
        marker_like(x),
        forall|i: int| !occurs_at(rc, x, i),
        rc.len() <= pre.len(),
        pre.take(rc.len() as int) == rc,
        forall|i: int| rc.len() <= i < pre.len() ==> pre[i] == '\n',
    ensures
        !occurs_at(pre, x, j),
{
    lemma_marker_chars(x);
    if occurs_at(pre, x, j) {
        lemma_occurs_elem(pre, x, j, 0);
        if j + x.len() <= rc.len() {
            assert forall|k: int| 0 <= k < x.len() implies rc[j + k] == x[k] by {
                lemma_occurs_elem(pre, x, j, k);
                assert(pre.take(rc.len() as int)[j + k] == pre[j + k]);
            }
            assert(rc.subrange(j, j + x.len()) =~= x);
            assert(occurs_at(rc, x, j));
        } else {
            let d = rc.len() - j;
            if d <= 0 {
                assert(pre[j] == '\n');
                assert(x[0] == '#');
            } else {
                lemma_occurs_elem(pre, x, j, d);
                assert(pre[rc.len() as int] == '\n');
                assert(x[d] != '\n');
            }
        }
    }
}

/// `x` occurs in `s` at one position only, `j`.
pub open spec fn occurs_once_at(s: Seq<char>, x: Seq<char>, j: int) -> bool {
    occurs_at(s, x, j) && forall|i: int| #[trigger] occurs_at(s, x, i) ==> i == j
}

/// `x` occurs in `s` at most once.
pub open spec fn at_most_once(s: Seq<char>, x: Seq<char>) -> bool {
    forall|i: int, j: int| #[trigger] occurs_at(s, x, i) && #[trigger] occurs_at(s, x, j) ==> i == j
}

/// The facts about jw's markers and block that the install laws use.
proof fn lemma_jw_block(sh: Shell)
    ensures
        marker_like(MARKER_START@),
        marker_like(MARKER_END@),
        MARKER_START@[2] != MARKER_END@[2],
        MARKER_START@.len() == 30,
        MARKER_END@.len() == 30,
        "\n"@ == seq!['\n'],
        forall|k: int|
            0 <= k < ("\n"@ + source_line(sh) + "\n"@).len() ==> ("\n"@ + source_line(sh) + "\n"@)[k]
                != '#',
        source_block_text(sh) == MARKER_START@ + ("\n"@ + source_line(sh) + "\n"@) + MARKER_END@
            + "\n"@,
{
    reveal_strlit("\n");
    reveal_strlit("# >>> jw shell integration >>>");
    reveal_strlit("# <<< jw shell integration <<<");
    reveal_strlit("eval \"$(jw config shell init zsh)\"");
    reveal_strlit("eval \"$(jw config shell init bash)\"");
    reveal_strlit("jw config shell init fish | source");
    let sm = MARKER_START@;
    let em = MARKER_END@;
    assert("\n"@ =~= seq!['\n']);
    assert(plain_tail(sm.drop_first())) by {
        reveal_with_fuel(plain_tail, 31);
    }
    assert(plain_tail(em.drop_first())) by {
        reveal_with_fuel(plain_tail, 31);
    }
    assert(hash_free(source_line(sh))) by {
        reveal_with_fuel(hash_free, 40);
    }
    lemma_hash_free(source_line(sh));
    let mid = "\n"@ + source_line(sh) + "\n"@;
    assert forall|k: int| 0 <= k < mid.len() implies mid[k] != '#' by {
        if 1 <= k < mid.len() - 1 {
            assert(mid[k] == source_line(sh)[k - 1]);
        }
    }
    assert(source_block_text(sh) =~= sm + mid + em + "\n"@);
}

/// In `pre + sm + mid + em + "\n" + post`, with neither `pre` nor `post`
/// holding the start marker, the start marker occurs once, right after `pre`.
proof fn lemma_block_start_once(pre: Seq<char>, post: Seq<char>, sm: Seq<char>, mid: Seq<char>, em: Seq<char>)
    requires
        marker_like(sm),
        marker_like(em),
        sm[2] != em[2],
        forall|k: int| 0 <= k < mid.len() ==> mid[k] != '#',
        forall|j: int| !occurs_at(pre, sm, j),
        forall|j: int| !occurs_at(post, sm, j),
    ensures
        occurs_once_at(pre + sm + mid + em + seq!['\n'] + post, sm, pre.len() as int),
{
    lemma_marker_chars(sm);
    lemma_marker_chars(em);
    let rest = sm + mid + em + seq!['\n'] + post;
    let out = pre + rest;
    assert(out =~= pre + sm + mid + em + seq!['\n'] + post);
    let p = pre.len() as int;
    let q = p + sm.len() + mid.len();
    let r0 = q + em.len() + 1;
    assert forall|k: int| 0 <= k < sm.len() implies out[p + k] == sm[k] by {}
    assert forall|k: int| 0 <= k < mid.len() implies out[p + sm.len() + k] == mid[k] by {}
    assert forall|k: int| 0 <= k < em.len() implies out[q + k] == em[k] by {}
    assert(out[q + em.len()] == '\n');
    assert forall|k: int| 0 <= k < post.len() implies out[r0 + k] == post[k] by {}
    assert(out.subrange(p, p + sm.len()) =~= sm);
    assert forall|j: int| #[trigger] occurs_at(out, sm, j) implies j == p by {
        if j < p {
            lemma_no_straddle(pre, rest, sm, j);
        } else if j > p {
            lemma_occurs_elem(out, sm, j, 0);
            if j < p + sm.len() {
                assert(out[j] == sm[j - p]);
            } else if j < q {
                assert(out[j] == mid[j - p - sm.len()]);
            } else if j == q {
                lemma_occurs_elem(out, sm, j, 2);
                assert(out[q + 2] == em[2]);
            } else if j < q + em.len() {
                assert(out[j] == em[j - q]);
            } else if j == q + em.len() {
            } else {
                assert(out.skip(r0) =~= post);
                assert(out.subrange(j, j + sm.len()) =~= post.subrange(j - r0, j - r0 + sm.len()));
                assert(occurs_at(post, sm, j - r0));
            }
        }
    }
}

/// Installing never duplicates the block: after installing jw's block into an rc
/// file that holds no jw block or one well-formed block (at most one start
/// marker, placed before the first end marker), the start marker occurs exactly
/// once.
pub proof fn law_install_leaves_one_block(rc: Seq<char>, sh: Shell)
    requires
        well_marked(rc),
        at_most_once(rc, MARKER_START@),
    ensures
        exists|j: int| occurs_once_at(install_text(rc, source_block_text(sh)), MARKER_START@, j),
{
    lemma_jw_block(sh);
    let sm = MARKER_START@;
    let em = MARKER_END@;
    let mid = "\n"@ + source_line(sh) + "\n"@;
    let block = source_block_text(sh);
    lemma_find_spec(rc, sm);
    lemma_find_spec(rc, em);
    if find(rc, sm) is None {
        let out1 = if rc.len() > 0 && rc.last() != '\n' {
            rc + "\n"@
        } else {
            rc
        };
        let pre = if out1.len() > 0 {
            out1 + "\n"@
        } else {
            out1
        };
        assert(install_text(rc, block) == pre + block);
        assert(pre.take(rc.len() as int) =~= rc);
        assert forall|i: int| rc.len() <= i < pre.len() implies pre[i] == '\n' by {
            if rc.len() > 0 && rc.last() != '\n' {
                assert(pre =~= rc + "\n"@ + "\n"@);
            } else if out1.len() > 0 {
                assert(pre =~= rc + "\n"@);
            }
        }
        assert forall|j: int| !occurs_at(pre, sm, j) by {
            lemma_appended_newlines(rc, pre, sm, j);
        }
        let post = Seq::<char>::empty();
        lemma_block_start_once(pre, post, sm, mid, em);
        assert(pre + sm + mid + em + seq!['\n'] + post =~= pre + block);
        assert(occurs_once_at(install_text(rc, block), sm, pre.len() as int));
    } else {
        let s = find(rc, sm)->0;
        let e = find(rc, em)->0;
        let pre = rc.take(s);
        let tail = rc.skip(e + em.len());
        let post = strip_leading_newline(tail);
        assert(strip_trailing_newline(block) =~= sm + mid + em);
        assert(install_text(rc, block) =~= pre + sm + mid + em + seq!['\n'] + post);
        assert(occurs_at(rc, sm, s));
        assert(occurs_at(rc, em, e));
        assert forall|j: int| !occurs_at(pre, sm, j) by {
            if occurs_at(pre, sm, j) {
                assert(pre.subrange(j, j + sm.len()) =~= rc.subrange(j, j + sm.len()));
                assert(occurs_at(rc, sm, j));
                assert(j < s);
            }
        }
        let off = if tail.len() > 0 && tail[0] == '\n' { e + em.len() + 1 } else { e + em.len() };
        assert(post =~= rc.skip(off));
        assert forall|j: int| !occurs_at(post, sm, j) by {
            if occurs_at(post, sm, j) {
                assert(post.subrange(j, j + sm.len()) =~= rc.subrange(j + off, j + off + sm.len()));
                assert(occurs_at(rc, sm, j + off));
                assert(occurs_at(rc, sm, s));
            }
        }
        lemma_block_start_once(pre, post, sm, mid, em);
        assert(occurs_once_at(install_text(rc, block), sm, pre.len() as int));
    }
}

/// The longest prefix of `t` made of lower-case ASCII letters.
pub open spec fn letters_prefix(t: Seq<char>) -> Seq<char>
    decreases t.len(),
{
    if t.len() > 0 && 'a' <= t[0] <= 'z' {
        seq![t[0]] + letters_prefix(t.drop_first())
    } else {
        Seq::empty()
    }
}

/// The init command jw writes into the rc file of shell `sh` initialises that
/// same shell: the word after the first `jw config shell init ` in the source
/// line is a shell name, and it names `sh`.
pub proof fn law_source_line_inits_its_own_shell(sh: Shell)
    ensures
        find(source_line(sh), "jw config shell init "@) matches Some(i) && shell_named(
            letters_prefix(source_line(sh).skip(i + 21)),
        ) == Some(sh),
{
    reveal_strlit("jw config shell init ");
    reveal_strlit("eval \"$(jw config shell init zsh)\"");
    reveal_strlit("eval \"$(jw config shell init bash)\"");
    reveal_strlit("jw config shell init fish | source");
    reveal_strlit("zsh");
    reveal_strlit("bash");
    reveal_strlit("fish");
    let p = "jw config shell init "@;
    let line = source_line(sh);
    assert(p.len() == 21);
    let i: int = match sh {
        Shell::Fish => 0,
        _ => 8,
    };
    assert(line.subrange(i, i + 21) =~= p);
    assert forall|j: int| 0 <= j < i implies !occurs_at(line, p, j) by {
        if occurs_at(line, p, j) {
            assert(line.subrange(j, j + 21)[0] == p[0]);
            assert(line[j] == 'j');
            if j == 0 {
            } else if j == 1 {
            } else if j == 2 {
            } else if j == 3 {
            } else if j == 4 {
            } else if j == 5 {
            } else if j == 6 {
            } else {
                assert(j == 7);
            }
        }
    }
    lemma_find_is(line, p, i);
    assert(find(line, p) == Some(i));
    reveal_with_fuel(letters_prefix, 6);
    let rest = line.skip(i + 21);
    match sh {
        Shell::Zsh => {
            assert(rest =~= seq!['z', 's', 'h', ')', '"']);
            assert(letters_prefix(rest) =~= "zsh"@);
            assert(shell_named(letters_prefix(rest)) == Some(Shell::Zsh));
        },
        Shell::Bash => {
            assert(rest =~= seq!['b', 'a', 's', 'h', ')', '"']);
            assert(letters_prefix(rest) =~= "bash"@);
            assert(shell_named(letters_prefix(rest)) == Some(Shell::Bash));
        },
        Shell::Fish => {
            assert(rest =~= seq!['f', 'i', 's', 'h', ' ', '|', ' ', 's', 'o', 'u', 'r', 'c', 'e']);
            assert(letters_prefix(rest) =~= "fish"@);
            assert(("fish"@)[0] != ("bash"@)[0]);
            assert(("zsh"@).len() == 3);
            assert(letters_prefix(rest) != "zsh"@);
            assert(letters_prefix(rest) != "bash"@);
            assert(shell_named(letters_prefix(rest)) == Some(Shell::Fish));
        },
    }
}

} // verus!

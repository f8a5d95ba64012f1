use jw::shell::{
    apply_install, rc_path_for, shell_from_login, shim, source_block, Shell, MARKER_END, MARKER_START,
};
use std::path::{Path, PathBuf};

#[test]
fn parses_shell_names() {
    assert_eq!("zsh".parse::<Shell>().unwrap(), Shell::Zsh);
    assert_eq!("fish".parse::<Shell>().unwrap(), Shell::Fish);
    assert!("powershell".parse::<Shell>().is_err());
}

#[test]
fn unsupported_shell_message() {
    let err = "powershell".parse::<Shell>().unwrap_err();
    assert_eq!(err.message(), "unsupported shell: powershell (use zsh|bash|fish)");
}

#[test]
fn posix_shim_has_directive_contract() {
    let s = shim(Shell::Zsh);
    assert!(s.contains("JW_DIRECTIVE_CD_FILE"));
    assert!(s.contains("JW_DIRECTIVE_EXEC_FILE"));
    assert!(s.contains("builtin cd"));
    assert!(s.contains(". \"$run_file\""));
    assert!(s.contains("command \"${JW_BIN:-jw}\""));
    assert!(s.contains(r#"command -v "${JW_BIN:-jw}""#));
}

#[test]
fn fish_shim_uses_fish_syntax() {
    let s = shim(Shell::Fish);
    assert!(s.contains("function jw"));
    assert!(s.contains("end"));
    assert!(s.contains("JW_DIRECTIVE_CD_FILE"));
    assert!(s.contains("type -q jw"));
    // The binary placeholder is resolved.
    assert!(!s.contains("JW_BIN_OR_DEFAULT"));
    assert!(s.contains("command (test -n \"$JW_BIN\"; and echo $JW_BIN; or echo jw) $argv"));
}

#[test]
fn shim_registers_tab_completion() {
    let z = shim(Shell::Zsh);
    assert!(z.contains("compdef _jw_lazy_complete jw"));
    assert!(z.contains("COMPLETE=zsh"));
    let b = shim(Shell::Bash);
    assert!(b.contains("COMPLETE=bash"));
    let f = shim(Shell::Fish);
    assert!(f.contains("COMPLETE=fish"));
}

#[test]
fn shell_from_login_reads_basename() {
    assert_eq!(shell_from_login("/bin/zsh"), Some(Shell::Zsh));
    assert_eq!(shell_from_login("/usr/local/bin/fish"), Some(Shell::Fish));
    assert_eq!(shell_from_login("/bin/bash"), Some(Shell::Bash));
    assert_eq!(shell_from_login("/bin/sh"), None);
    assert_eq!(shell_from_login(""), None);
    assert_eq!(shell_from_login("zsh"), Some(Shell::Zsh));
}

#[test]
fn rc_path_maps_each_shell() {
    let home = Path::new("/home/u");
    assert_eq!(PathBuf::from(rc_path_for(Shell::Zsh, "/home/u")), home.join(".zshrc"));
    assert_eq!(PathBuf::from(rc_path_for(Shell::Bash, "/home/u")), home.join(".bashrc"));
    assert_eq!(PathBuf::from(rc_path_for(Shell::Fish, "/home/u")), home.join(".config/fish/config.fish"));
    assert_eq!(rc_path_for(Shell::Zsh, "/home/u/"), "/home/u/.zshrc");
}

#[test]
fn source_block_is_shell_specific_and_marked() {
    let z = source_block(Shell::Zsh);
    assert!(z.contains(MARKER_START));
    assert!(z.contains(MARKER_END));
    assert!(z.contains(r#"eval "$(jw config shell init zsh)""#));
    let f = source_block(Shell::Fish);
    assert!(f.contains("jw config shell init fish | source"));
}

#[test]
fn install_appends_block_when_absent() {
    let rc = "export PATH=/usr/bin\n";
    let out = apply_install(rc, &source_block(Shell::Zsh));
    assert!(out.starts_with("export PATH=/usr/bin\n"), "preserves prior rc");
    assert!(out.contains("jw config shell init zsh"));
    assert_eq!(out.matches(MARKER_START).count(), 1);
}

#[test]
fn install_is_idempotent() {
    let block = source_block(Shell::Zsh);
    let once = apply_install("foo\n", &block);
    let twice = apply_install(&once, &block);
    assert_eq!(once, twice, "re-running install must not duplicate");
}

#[test]
fn install_replaces_a_stale_block_in_place() {
    let block = source_block(Shell::Zsh);
    let installed = apply_install("foo\nbar\n", &block);
    let stale = installed.replace("jw config shell init zsh", "OLD jw invocation");
    let refreshed = apply_install(&stale, &block);
    assert!(refreshed.contains("jw config shell init zsh"));
    assert!(!refreshed.contains("OLD jw invocation"));
    assert_eq!(refreshed.matches(MARKER_START).count(), 1, "no duplicate block");
    assert!(refreshed.starts_with("foo\nbar\n"), "surrounding rc preserved");
}

#[test]
fn install_into_empty_and_unterminated_rc() {
    let block = source_block(Shell::Bash);
    assert_eq!(apply_install("", &block), block);
    assert_eq!(apply_install("x", &block), format!("x\n\n{block}"));
    let once = apply_install("x", &block);
    assert_eq!(apply_install(&once, &block), once);
}

#[test]
fn install_keeps_text_after_the_block() {
    let block = source_block(Shell::Fish);
    let rc = format!("a\n{MARKER_START}\nold\n{MARKER_END}\nb\n");
    assert_eq!(apply_install(&rc, &block), format!("a\n{block}b\n"));
}

#[test]
fn install_leaves_exactly_one_block() {
    let block = source_block(Shell::Zsh);
    for rc in ["", "export A=1\n", "x\n# >>> jw shell integration >>>\nold\n# <<< jw shell integration <<<\ny\n"] {
        let once = apply_install(rc, &block);
        assert_eq!(once.matches(MARKER_START).count(), 1, "{rc:?}");
        assert_eq!(apply_install(&once, &block), once);
    }
}

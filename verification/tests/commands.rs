use jw::app::{format_list, new_workspace_path, App};
use jw::cli::{check_remove, classify_no_repo, find_named, go_target, NoRepo, RemoveRefusal};
use jw::config::Config;
use jw::jj::{BookmarkPresence, Workspace};
use jw::keymap::{KeyCode, KeyEvent, KeyModifiers};
use jw::ui::{confirm_question, list_rows, preview_header, NameStyle};
use jw::ops::{bookmark_list_args, bookmark_presence, decide_seed, fetch_args, seeded_add_args, Seed};

fn ws(name: &str, current: bool, empty: bool, conflict: bool) -> Workspace {
    Workspace {
        name: name.into(),
        path: format!("/repo.{name}"),
        change_id: "3f2a9c1c".into(),
        description: "(no description)".into(),
        conflict,
        empty,
        stale: false,
        is_current: current,
    }
}

fn sample() -> Vec<Workspace> {
    vec![
        ws("default", true, true, false),
        ws("feat", false, true, false),
        ws("wip", false, false, false),
        ws("clash", false, true, true),
    ]
}

#[test]
fn find_named_takes_the_first_match() {
    let mut v = sample();
    v.push(ws("feat", false, true, false));
    assert_eq!(find_named(&v, "feat"), Some(1));
    assert_eq!(find_named(&v, "ghost"), None);
}

#[test]
fn go_target_gives_the_path_or_a_hint() {
    let v = sample();
    assert_eq!(go_target(&v, "feat"), Ok("/repo.feat".to_string()));
    let err = go_target(&v, "ghost").unwrap_err();
    assert!(err.contains("no workspace named 'ghost'") && err.contains("-c"));
    assert_eq!(err, "no workspace named 'ghost' (use `jw switch -c ghost` to create it)");
}

#[test]
fn remove_refuses_unknown_current_and_dirty() {
    let v = sample();
    assert_eq!(check_remove(&v, "feat", false), Ok(1));
    assert_eq!(check_remove(&v, "nope", true), Err(RemoveRefusal::NoSuch("nope".into())));
    assert_eq!(check_remove(&v, "default", true), Err(RemoveRefusal::Current("default".into())));
    assert_eq!(check_remove(&v, "wip", false), Err(RemoveRefusal::Dirty("wip".into())));
    assert_eq!(check_remove(&v, "clash", false), Err(RemoveRefusal::Dirty("clash".into())));
    assert_eq!(check_remove(&v, "wip", true), Ok(2));
    assert_eq!(check_remove(&v, "clash", true), Ok(3));
}

#[test]
fn remove_refusal_messages() {
    assert!(RemoveRefusal::NoSuch("nope".into()).message().contains("no workspace"));
    assert!(RemoveRefusal::Current("default".into()).message().contains("current workspace"));
    assert_eq!(
        RemoveRefusal::Dirty("wip".into()).message(),
        "workspace 'wip' has changes or conflicts; pass --force to remove it anyway"
    );
}

#[test]
fn no_repo_is_recognised_from_jj_error() {
    let err = "jj workspace list failed: Error: There is no jj repo in \".\"";
    assert_eq!(classify_no_repo(err, false), Some(NoRepo { in_git: false }));
    assert_eq!(classify_no_repo(err, true), Some(NoRepo { in_git: true }));
    assert_eq!(classify_no_repo("jj workspace list failed: boom", true), None);
    let plain = NoRepo { in_git: false }.message();
    assert!(plain.contains("no jj repo") && plain.contains("jj git init"));
    assert!(!plain.contains("--colocate"));
    let git = NoRepo { in_git: true }.message();
    assert!(git.contains("jj git init --colocate"));
}

#[test]
fn list_marks_the_current_workspace() {
    let text = format_list(&vec![ws("default", true, true, false), ws("feature", false, true, false)]);
    assert_eq!(
        text,
        "* default  3f2a9c1c  /repo.default  (no description)\n  feature  3f2a9c1c  /repo.feature  (no description)\n"
    );
    assert!(text.lines().any(|l| l.starts_with("* default")));
    assert_eq!(format_list(&vec![]), "");
}

#[test]
fn new_workspace_path_uses_the_template() {
    assert_eq!(new_workspace_path("{parent}/{repo}.{name}", "/work/repo", "feat"), "/work/repo.feat");
    assert_eq!(new_workspace_path("/tmp/{name}", "/work/repo", "x"), "/tmp/x");
}

#[test]
fn focus_selects_the_named_row() {
    let mut app = App::new(sample(), "/work/repo".into(), Config::default());
    assert_eq!(app.selected_index(), 0);
    app.focus_workspace("wip");
    assert_eq!(app.selected_index(), 2);
    assert_eq!(app.selected_workspace().unwrap().name, "wip");
    app.focus_workspace("ghost");
    assert_eq!(app.selected_index(), 2);
}

#[test]
fn bookmark_presence_reads_local_git_and_remote() {
    let raw = "feat\t\nfeat\tgit\nfeat\torigin\nfeat\tupstream\nother\t\n";
    let p = bookmark_presence(raw, "feat");
    assert_eq!(p, BookmarkPresence { local: true, git: true, remote: Some("origin".into()) });
    assert_eq!(bookmark_presence(raw, "other"), BookmarkPresence { local: true, git: false, remote: None });
    assert_eq!(bookmark_presence(raw, "none"), BookmarkPresence::default());
    assert_eq!(
        bookmark_presence("x\tgit\n", "x"),
        BookmarkPresence { local: false, git: true, remote: None }
    );
}

#[test]
fn seeded_arguments() {
    let p = bookmark_presence("feat\torigin\n", "feat");
    let seed = decide_seed("feat", &p);
    assert_eq!(seed, Seed::Fetch("feat".into()));
    assert_eq!(fetch_args(&seed), Some(vec!["git".to_string(), "fetch".into(), "-b".into(), "feat".into()]));
    assert_eq!(
        seeded_add_args("feat", "/work/repo.feat", &seed),
        vec!["workspace", "add", "--name", "feat", "-r", "feat", "/work/repo.feat"]
    );
    let git = decide_seed("feat", &bookmark_presence("feat\tgit\n", "feat"));
    assert_eq!(
        seeded_add_args("feat", "/p", &git),
        vec!["workspace", "add", "--name", "feat", "-r", "feat@git", "/p"]
    );
    assert_eq!(fetch_args(&git), None);
    assert_eq!(seeded_add_args("feat", "/p", &Seed::Fresh), vec!["workspace", "add", "--name", "feat", "/p"]);
    let args = bookmark_list_args("feat");
    assert_eq!(args[0], "bookmark");
    assert_eq!(args[5], "feat");
}

#[test]
fn list_rows_mark_selection_style_and_matches() {
    let mut app = App::new(
        vec![ws("default", true, true, false), ws("auth", false, false, true)],
        "/work/repo".into(),
        Config::default(),
    );
    let rows = list_rows(&app);
    assert_eq!(rows.len(), 2);
    assert!(rows[0].selected);
    assert_eq!(rows[0].style, NameStyle::Current);
    assert_eq!(rows[0].flags, " * ø");
    assert_eq!(rows[0].path, "  /repo.default");
    assert!(!rows[1].selected);
    assert_eq!(rows[1].style, NameStyle::Normal);
    assert_eq!(rows[1].flags, " !");
    assert!(rows[1].name.iter().all(|(_, hit)| !hit));
    app.on_key(KeyEvent::new(KeyCode::Char('a'), KeyModifiers::none()));
    let rows = list_rows(&app);
    assert_eq!(rows.len(), 2);
    let auth = rows.iter().find(|r| r.path == "  /repo.auth").unwrap();
    assert_eq!(auth.name[0], ('a', true));
    assert_eq!(auth.name.iter().filter(|(_, hit)| *hit).count(), 1);
    app.focus_workspace("auth");
    let rows = list_rows(&app);
    let auth = rows.iter().find(|r| r.path == "  /repo.auth").unwrap();
    assert!(auth.selected);
    assert_eq!(auth.style, NameStyle::Selected);
}

#[test]
fn preview_header_and_confirm_text() {
    let h = preview_header(&ws("auth", false, true, true));
    assert_eq!(h.title, "auth@");
    assert_eq!(h.summary, " 3f2a9c1c · (no description)");
    assert!(h.conflict && h.empty && !h.stale);
    assert_eq!(confirm_question(Some("auth")), "forget 'auth' and delete its directory?");
    assert_eq!(confirm_question(None), "forget '?' and delete its directory?");
}

#[test]
fn repo_root_is_two_levels_above_the_store() {
    assert_eq!(jw::app::repo_root_from_store("/work/repo/.jj/repo"), Some("/work/repo".to_string()));
    assert_eq!(jw::app::repo_root_from_store("/"), None);
}

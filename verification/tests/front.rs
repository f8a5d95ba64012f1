use jw::cli::{complete_names, current_root, is_yes, plan_switch, remove_done, remove_prompt, resolve_cmd, SwitchPlan};
use jw::config::{Color, Config, Theme};
use jw::jj::{BookmarkPresence, Workspace};
use jw::ops::{decide_seed, Seed};
use jw::ui::{centered_rect, footer_counts, row_flags, Rect};

#[test]
fn defaults_are_sane() {
    let c = Config::default();
    assert!(c.path_template.contains("{name}"));
    assert!(c.preview);
    assert_eq!(c.edit_cmd, "${EDITOR:-vi}");
    assert_eq!(c.agent_cmd, "codex");
}

#[test]
fn theme_defaults_match_legacy_palette() {
    let t = Theme::default();
    assert_eq!(t.accent, Color::Yellow);
    assert_eq!(t.marker, Color::Cyan);
    assert_eq!(t.selected, Color::White);
    assert_eq!(t.normal, Color::Gray);
    assert_eq!(t.dim, Color::DarkGray);
    assert_eq!(t.selection_bg, Color::DarkGray);
    assert_eq!(t.conflict, Color::Red);
    assert_eq!(t.stale, Color::Yellow);
}

#[test]
fn seed_precedence() {
    let local = BookmarkPresence { local: true, git: true, remote: Some("origin".into()) };
    assert_eq!(decide_seed("x", &local), Seed::Revset("x".into()));
    let git = BookmarkPresence { local: false, git: true, remote: Some("origin".into()) };
    assert_eq!(decide_seed("x", &git), Seed::Revset("x@git".into()));
    let remote = BookmarkPresence { local: false, git: false, remote: Some("origin".into()) };
    assert_eq!(decide_seed("x", &remote), Seed::Fetch("x".into()));
    assert_eq!(decide_seed("x", &BookmarkPresence::default()), Seed::Fresh);
}

#[test]
fn resolve_default_editor_sentinel() {
    assert_eq!(resolve_cmd("${EDITOR:-vi}", Some("nvim")), "nvim");
    assert_eq!(resolve_cmd("${EDITOR:-vi}", None), "vi");
    assert_eq!(resolve_cmd("${EDITOR:-vi}", Some("")), "vi");
}

#[test]
fn resolve_passes_through_concrete() {
    assert_eq!(resolve_cmd("codex", Some("nvim")), "codex");
}

#[test]
fn yes_answers() {
    for a in ["y", "Y", "yes", "Yes", " yes\n"] {
        assert!(is_yes(a), "{a:?}");
    }
    for a in ["", "n", "YES", "ye", "no"] {
        assert!(!is_yes(a), "{a:?}");
    }
}

#[test]
fn remove_messages_follow_keep() {
    assert_eq!(remove_prompt("feat", true), "forget workspace 'feat' (keeping its directory)?");
    assert_eq!(remove_prompt("feat", false), "remove workspace 'feat' and delete its directory?");
    assert_eq!(remove_done("feat", true), "forgot workspace 'feat'");
    assert_eq!(remove_done("feat", false), "removed workspace 'feat'");
}

#[test]
fn switch_plans() {
    assert_eq!(plan_switch(None, false), SwitchPlan::Picker);
    assert_eq!(plan_switch(None, true), SwitchPlan::MissingName);
    assert_eq!(plan_switch(Some("^"), false), SwitchPlan::RepoRoot);
    assert_eq!(plan_switch(Some("feat"), true), SwitchPlan::Create("feat".into()));
    assert_eq!(plan_switch(Some("feat"), false), SwitchPlan::Go("feat".into()));
}

fn ws(name: &str, current: bool) -> Workspace {
    Workspace {
        name: name.into(),
        path: format!("/repo.{name}"),
        change_id: String::new(),
        description: String::new(),
        conflict: false,
        empty: false,
        stale: false,
        is_current: current,
    }
}

#[test]
fn current_root_is_the_current_workspace_path() {
    assert_eq!(current_root(&vec![ws("a", false), ws("b", true)]), Some("/repo.b".to_string()));
    assert_eq!(current_root(&vec![ws("a", false)]), None);
}

#[test]
fn completion_keeps_names_with_the_prefix() {
    let names: Vec<String> = ["default", "docs", "dev", "api"].iter().map(|s| s.to_string()).collect();
    assert_eq!(complete_names(&names, "de"), vec!["default".to_string(), "dev".to_string()]);
    assert_eq!(complete_names(&names, ""), names);
}

#[test]
fn row_flags_and_counts() {
    let mut w = ws("a", true);
    w.conflict = true;
    w.empty = true;
    w.stale = true;
    assert_eq!(row_flags(&w), " * ! ø ~");
    assert_eq!(row_flags(&ws("b", false)), "");
    assert_eq!(footer_counts(2, 2), " 2/2");
    assert_eq!(footer_counts(0, 1234567), " 0/1234567");
}

#[test]
fn overlay_is_centered_and_clipped() {
    let area = Rect { x: 0, y: 0, width: 90, height: 20 };
    assert_eq!(centered_rect(40, 5, area), Rect { x: 25, y: 7, width: 40, height: 5 });
    let small = Rect { x: 3, y: 1, width: 10, height: 2 };
    assert_eq!(centered_rect(40, 5, small), Rect { x: 3, y: 1, width: 10, height: 2 });
}

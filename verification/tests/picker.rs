use jw::app::{expand_path_template, App, Mode, Outcome, Step};
use jw::config::Config;
use jw::jj::Workspace;
use jw::keymap::{KeyBindings, KeyCode, KeyEvent, KeyModifiers, RawKeyBindings};

fn ws(name: &str, current: bool) -> Workspace {
    Workspace {
        name: name.into(),
        path: format!("/repo.{name}"),
        change_id: "aaaa".into(),
        description: "d".into(),
        conflict: false,
        empty: false,
        stale: false,
        is_current: current,
    }
}

fn app() -> App {
    App::new(
        vec![ws("auth", false), ws("api", false), ws("docs", false), ws("default", true)],
        "/work/repo".to_string(),
        Config::default(),
    )
}

fn key(c: char) -> KeyEvent {
    KeyEvent::new(KeyCode::Char(c), KeyModifiers::none())
}

fn alt(c: char) -> KeyEvent {
    KeyEvent::new(KeyCode::Char(c), KeyModifiers::alt())
}

fn code(k: KeyCode) -> KeyEvent {
    KeyEvent::new(k, KeyModifiers::none())
}

#[test]
fn outcome_shapes() {
    let p = "/tmp".to_string();
    let _ = Outcome::Cd(p.clone());
    let _ = Outcome::Open { path: p, cmd: String::new() };
    let _ = Outcome::Abort;
}

#[test]
fn typing_filters_the_list() {
    let mut a = app();
    a.on_key(key('a'));
    a.on_key(key('u')); // "au"
    // "auth" and "default" both match "au"; the list is narrowed and "auth"
    // ranks first (highest score), so it is selected.
    assert!(a.filtered_count() < a.total_count());
    assert_eq!(a.selected_workspace().unwrap().name, "auth");
}

#[test]
fn enter_cds_to_selected() {
    let mut a = app();
    match a.on_key(code(KeyCode::Enter)) {
        Step::Done(Outcome::Cd(p)) => assert_eq!(p, "/repo.auth"),
        other => panic!("expected Cd, got {other:?}"),
    }
}

#[test]
fn esc_aborts() {
    let mut a = app();
    assert!(matches!(a.on_key(code(KeyCode::Esc)), Step::Done(Outcome::Abort)));
}

#[test]
fn alt_o_opens_editor() {
    let mut a = app();
    match a.on_key(alt('o')) {
        Step::Done(Outcome::Open { cmd, .. }) => assert_eq!(cmd, Config::default().edit_cmd),
        other => panic!("got {other:?}"),
    }
}

/// The `[keys]` table of a TOML config, as raw key-strings.
fn raw_keys_from_toml(text: &str) -> RawKeyBindings {
    let value: toml::Value = toml::from_str(text).unwrap();
    let keys = value.get("keys");
    let field = |name: &str| -> Option<String> {
        keys.and_then(|k| k.get(name)).and_then(|v| v.as_str()).map(|s| s.to_string())
    };
    RawKeyBindings {
        select: field("select"),
        open: field("open"),
        agent: field("agent"),
        new: field("new"),
        forget: field("forget"),
        up: field("up"),
        down: field("down"),
        abort: field("abort"),
    }
}

#[test]
fn custom_keymap_rebinds_action_and_keeps_universal_nav() {
    // Rebind `select` to ctrl-y; everything else keeps its default.
    let mut cfg = Config::default();
    cfg.keys = KeyBindings::from(raw_keys_from_toml("[keys]\nselect = \"ctrl-y\"\n"));
    let mut a = App::new(vec![ws("auth", false), ws("api", false)], "/work/repo".to_string(), cfg);

    // Default Enter no longer selects (it was rebound away) -> no-op.
    assert!(matches!(a.on_key(code(KeyCode::Enter)), Step::Continue));

    // The new chord ctrl-y now selects.
    match a.on_key(KeyEvent::new(KeyCode::Char('y'), KeyModifiers::control())) {
        Step::Done(Outcome::Cd(p)) => assert_eq!(p, "/repo.auth"),
        other => panic!("expected Cd via ctrl-y, got {other:?}"),
    }

    // The fixed Down arrow still navigates regardless of the [keys] table.
    a.on_key(code(KeyCode::Down));
    assert_eq!(a.selected_workspace().unwrap().name, "api");
}

#[test]
fn selection_clamps_on_filter_change() {
    let mut a = app();
    a.on_key(code(KeyCode::Down));
    a.on_key(code(KeyCode::Down));
    a.on_key(code(KeyCode::Down)); // selected = 3 (max)
    a.on_key(key('a'));
    a.on_key(key('u')); // filter "au" yields fewer matches; selected clamps within bounds
    assert!(a.selected_index() < a.filtered_count());
    assert!(a.selected_workspace().is_some());
}

#[test]
fn alt_n_then_name_then_enter_creates_with_templated_path() {
    let mut a = app();
    a.on_key(alt('n'));
    for c in "feat".chars() {
        a.on_key(key(c));
    }
    match a.on_key(code(KeyCode::Enter)) {
        Step::Create { name, path } => {
            assert_eq!(name, "feat");
            assert_eq!(path, "/work/repo.feat"); // {parent}/{repo}.{name}
        }
        other => panic!("got {other:?}"),
    }
}

#[test]
fn cannot_forget_current_workspace() {
    let mut a = app();
    for _ in 0..3 {
        a.on_key(code(KeyCode::Down));
    }
    assert!(a.selected_workspace().unwrap().is_current);
    assert!(matches!(a.on_key(alt('d')), Step::Continue));
    assert!(matches!(a.mode(), Mode::Normal));
}

#[test]
fn template_expansion_is_pure() {
    assert_eq!(expand_path_template("{parent}/{repo}.{name}", "/work", "repo", "x"), "/work/repo.x");
}

#[test]
fn alt_n_then_empty_enter_stays_in_newname() {
    let mut a = app();
    a.on_key(alt('n'));
    let step = a.on_key(code(KeyCode::Enter));
    assert!(matches!(step, Step::Continue));
    assert!(matches!(a.mode(), Mode::NewName));
}

#[test]
fn forget_guard_checks_is_current_at_emission() {
    let mut a = app();
    a.on_key(alt('d'));
    assert!(matches!(a.mode(), Mode::ConfirmForget));
    // The list is refreshed so that the selected workspace is now current.
    a.set_workspaces(vec![ws("auth", true), ws("api", false), ws("docs", false), ws("default", false)]);
    let step = a.on_key(key('y'));
    assert!(matches!(step, Step::Continue));
    assert!(matches!(a.mode(), Mode::Normal));
}

#[test]
fn confirmed_forget_names_the_selected_workspace() {
    let mut a = app();
    a.on_key(alt('d'));
    match a.on_key(key('y')) {
        Step::Forget { name } => assert_eq!(name, "auth"),
        other => panic!("got {other:?}"),
    }
    assert!(matches!(a.mode(), Mode::Normal));
}

#[test]
fn any_other_key_cancels_the_forget() {
    let mut a = app();
    a.on_key(alt('d'));
    assert!(matches!(a.on_key(key('n')), Step::Continue));
    assert!(matches!(a.mode(), Mode::Normal));
    assert_eq!(a.filter(), "");
}

#[test]
fn typing_then_backspace_restores_the_list() {
    let mut a = app();
    let before: Vec<String> = a.visible_matches().iter().map(|(w, _)| w.name.clone()).collect();
    a.on_key(key('z'));
    assert_eq!(a.filter(), "z");
    a.on_key(code(KeyCode::Backspace));
    assert_eq!(a.filter(), "");
    let after: Vec<String> = a.visible_matches().iter().map(|(w, _)| w.name.clone()).collect();
    assert_eq!(before, after);
}

#[test]
fn ctrl_c_aborts_and_alt_chars_do_not_filter() {
    let mut a = app();
    assert!(matches!(
        a.on_key(KeyEvent::new(KeyCode::Char('c'), KeyModifiers::control())),
        Step::Done(Outcome::Abort)
    ));
    let mut b = app();
    b.on_key(alt('x'));
    assert_eq!(b.filter(), "");
}

#[test]
fn agent_action_uses_agent_command() {
    let mut a = app();
    match a.on_key(alt('a')) {
        Step::Done(Outcome::Open { path, cmd }) => {
            assert_eq!(path, "/repo.auth");
            assert_eq!(cmd, "codex");
        }
        other => panic!("got {other:?}"),
    }
}

#[test]
fn new_name_editing_and_escape() {
    let mut a = app();
    a.on_key(alt('n'));
    a.on_key(key('a'));
    a.on_key(key('b'));
    a.on_key(code(KeyCode::Backspace));
    assert_eq!(a.input(), "a");
    a.on_key(code(KeyCode::Esc));
    assert!(matches!(a.mode(), Mode::Normal));
    assert_eq!(a.input(), "");
}

#[test]
fn whitespace_name_is_rejected() {
    let mut a = app();
    a.on_key(alt('n'));
    a.on_key(key(' '));
    assert!(matches!(a.on_key(code(KeyCode::Enter)), Step::Continue));
    assert!(matches!(a.mode(), Mode::NewName));
}

#[test]
fn selection_moves_and_clamps() {
    let mut a = app();
    a.on_key(code(KeyCode::Up));
    assert_eq!(a.selected_index(), 0);
    for _ in 0..10 {
        a.on_key(KeyEvent::new(KeyCode::Char('n'), KeyModifiers::control()));
    }
    assert_eq!(a.selected_index(), 3);
    a.on_key(KeyEvent::new(KeyCode::Char('p'), KeyModifiers::control()));
    assert_eq!(a.selected_index(), 2);
}

#[test]
fn empty_list_actions_are_no_ops() {
    let mut a = app();
    for c in "zzzz".chars() {
        a.on_key(key(c));
    }
    assert_eq!(a.filtered_count(), 0);
    assert!(a.selected_workspace().is_none());
    assert!(matches!(a.on_key(code(KeyCode::Enter)), Step::Continue));
    assert!(matches!(a.on_key(alt('d')), Step::Continue));
    assert!(matches!(a.mode(), Mode::Normal));
}

#[test]
fn preview_cache_reads_back_what_was_written() {
    let mut a = app();
    assert_eq!(a.cached_preview("auth"), None);
    a.cache_preview("auth", "1 file changed".to_string());
    a.cache_preview("api", "2 files changed".to_string());
    assert_eq!(a.cached_preview("auth"), Some("1 file changed"));
    a.cache_preview("auth", "3 files changed".to_string());
    assert_eq!(a.cached_preview("auth"), Some("3 files changed"));
    assert_eq!(a.cached_preview("api"), Some("2 files changed"));
    assert_eq!(a.cached_preview("docs"), None);
}

#[test]
fn preview_to_load_is_the_uncached_selection() {
    let mut a = app();
    assert_eq!(a.preview_to_load(), Some("auth".to_string()));
    a.cache_preview("auth", String::new());
    assert_eq!(a.preview_to_load(), None);
}

#[test]
fn new_path_uses_parent_and_final_component() {
    let mut cfg = Config::default();
    cfg.path_template = "{parent}/ws/{repo}-{name}-{name}".to_string();
    let mut a = App::new(vec![ws("auth", true)], "/home/u/code/proj/".to_string(), cfg);
    a.on_key(alt('n'));
    a.on_key(key('x'));
    match a.on_key(code(KeyCode::Enter)) {
        Step::Create { name, path } => {
            assert_eq!(name, "x");
            assert_eq!(path, "/home/u/code/ws/proj-x-x");
        }
        other => panic!("got {other:?}"),
    }
}

#[test]
fn fixed_keys_win_over_the_keys_table() {
    let mut cfg = Config::default();
    cfg.keys = KeyBindings::from(raw_keys_from_toml(
        "[keys]\nselect = \"ctrl-c\"\nabort = \"backspace\"\nopen = \"k\"\nup = \"down\"\n",
    ));
    let mut a = App::new(vec![ws("auth", false), ws("api", false)], "/work/repo".to_string(), cfg);
    // A plain character types into the filter even though it is bound.
    assert!(matches!(a.on_key(key('k')), Step::Continue));
    assert_eq!(a.filter(), "k");
    // Backspace erases even though it is bound to abort.
    assert!(matches!(a.on_key(code(KeyCode::Backspace)), Step::Continue));
    assert_eq!(a.filter(), "");
    // Down moves down even though it is bound to up.
    a.on_key(code(KeyCode::Down));
    assert_eq!(a.selected_index(), 1);
    // Ctrl-c aborts even though it is bound to select.
    assert!(matches!(
        a.on_key(KeyEvent::new(KeyCode::Char('c'), KeyModifiers::control())),
        Step::Done(Outcome::Abort)
    ));
}

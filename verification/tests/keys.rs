use jw::keymap::{action_name, Action, KeyBindings, KeyChord, KeyCode, KeyEvent, KeyModifiers, RawKeyBindings};

fn ev(code: KeyCode, mods: KeyModifiers) -> KeyEvent {
    KeyEvent::new(code, mods)
}

#[test]
fn parse_named_and_modified_keys() {
    assert_eq!(KeyChord::parse("alt-o"), Some(KeyChord::new(KeyCode::Char('o'), KeyModifiers::alt())));
    assert_eq!(KeyChord::parse("ctrl-n"), Some(KeyChord::new(KeyCode::Char('n'), KeyModifiers::control())));
    assert_eq!(KeyChord::parse("enter"), Some(KeyChord::new(KeyCode::Enter, KeyModifiers::none())));
    assert_eq!(KeyChord::parse("esc"), Some(KeyChord::new(KeyCode::Esc, KeyModifiers::none())));
    // Case-insensitive, whitespace-tolerant.
    assert_eq!(KeyChord::parse("  Ctrl-Down "), Some(KeyChord::new(KeyCode::Down, KeyModifiers::control())));
}

#[test]
fn parse_rejects_garbage() {
    assert_eq!(KeyChord::parse(""), None);
    assert_eq!(KeyChord::parse("hyper-x"), None); // unknown modifier
    assert_eq!(KeyChord::parse("nope"), None); // unknown multi-char token
    assert_eq!(KeyChord::parse("ctrl-"), None); // empty key
}

#[test]
fn parse_combines_modifiers_and_keeps_literal_case() {
    assert_eq!(
        KeyChord::parse("ctrl-alt-shift-x"),
        Some(KeyChord::new(KeyCode::Char('x'), KeyModifiers { bits: 7 }))
    );
    assert_eq!(KeyChord::parse("alt-alt-k"), Some(KeyChord::new(KeyCode::Char('k'), KeyModifiers::alt())));
    assert_eq!(KeyChord::parse("K"), Some(KeyChord::new(KeyCode::Char('K'), KeyModifiers::none())));
    assert_eq!(KeyChord::parse("space"), Some(KeyChord::new(KeyCode::Char(' '), KeyModifiers::none())));
    assert_eq!(KeyChord::parse("M-PageUp"), Some(KeyChord::new(KeyCode::PageUp, KeyModifiers::alt())));
    assert_eq!(KeyChord::parse("-"), None);
}

#[test]
fn parse_ignores_surrounding_space() {
    for s in ["alt-o", "nope", "ctrl-Down", ""] {
        assert_eq!(KeyChord::parse(&format!(" \t{s}\n ")), KeyChord::parse(s));
    }
}

#[test]
fn matches_ignores_irrelevant_modifier_bits() {
    let chord = KeyChord::new(KeyCode::Char('o'), KeyModifiers::alt());
    assert!(chord.matches(&ev(KeyCode::Char('o'), KeyModifiers::alt())));
    assert!(!chord.matches(&ev(KeyCode::Char('o'), KeyModifiers::none())));
    assert!(!chord.matches(&ev(KeyCode::Char('x'), KeyModifiers::alt())));
    // Super (8) and meta (32) alongside alt still match.
    assert!(chord.matches(&ev(KeyCode::Char('o'), KeyModifiers { bits: 4 | 8 | 32 })));
}

#[test]
fn default_bindings_resolve_legacy_keys() {
    let kb = KeyBindings::default();
    assert_eq!(kb.resolve(&ev(KeyCode::Enter, KeyModifiers::none())), Some(Action::Select));
    assert_eq!(kb.resolve(&ev(KeyCode::Char('o'), KeyModifiers::alt())), Some(Action::Open));
    assert_eq!(kb.resolve(&ev(KeyCode::Char('d'), KeyModifiers::alt())), Some(Action::Forget));
    assert_eq!(kb.resolve(&ev(KeyCode::Char('n'), KeyModifiers::control())), Some(Action::Down));
    assert_eq!(kb.resolve(&ev(KeyCode::Esc, KeyModifiers::none())), Some(Action::Abort));
    // A bare printable char is unbound (so it falls through to the filter).
    assert_eq!(kb.resolve(&ev(KeyCode::Char('a'), KeyModifiers::none())), None);
}

#[test]
fn raw_override_changes_binding_and_keeps_other_defaults() {
    let raw = RawKeyBindings {
        open: Some("ctrl-e".into()),
        forget: Some("nonsense".into()), // invalid -> default
        ..Default::default()
    };
    let kb = KeyBindings::from(raw);
    assert_eq!(kb.resolve(&ev(KeyCode::Char('e'), KeyModifiers::control())), Some(Action::Open));
    assert_eq!(kb.resolve(&ev(KeyCode::Char('o'), KeyModifiers::alt())), None);
    assert_eq!(kb.resolve(&ev(KeyCode::Char('d'), KeyModifiers::alt())), Some(Action::Forget));
    assert_eq!(kb.resolve(&ev(KeyCode::Enter, KeyModifiers::none())), Some(Action::Select));
}

#[test]
fn duplicate_binding_resolves_by_priority() {
    let raw = RawKeyBindings { down: Some("enter".into()), ..Default::default() };
    let kb = KeyBindings::from(raw);
    assert_eq!(kb.resolve(&ev(KeyCode::Enter, KeyModifiers::none())), Some(Action::Select));
    assert_eq!(kb.conflicts(), vec![(Action::Select, Action::Down)]);
}

#[test]
fn default_bindings_have_no_conflicts() {
    assert!(KeyBindings::default().conflicts().is_empty());
}

#[test]
fn rejected_key_strings_are_reported_in_priority_order() {
    let raw = RawKeyBindings {
        abort: Some("hyper-q".into()),
        open: Some("bogus".into()),
        up: Some("ctrl-k".into()),
        ..Default::default()
    };
    let rejected: Vec<(Action, String)> = raw.rejected();
    assert_eq!(rejected, vec![(Action::Open, "bogus".to_string()), (Action::Abort, "hyper-q".to_string())]);
    assert_eq!(action_name(Action::Open), "open");
}

#[test]
fn esc_folds_into_an_alt_chord() {
    let esc = ev(KeyCode::Esc, KeyModifiers::none());
    assert!(esc.is_bare_esc());
    assert!(!ev(KeyCode::Esc, KeyModifiers::alt()).is_bare_esc());
    let folded = ev(KeyCode::Char('o'), KeyModifiers::none()).with_alt();
    assert_eq!(folded, ev(KeyCode::Char('o'), KeyModifiers::alt()));
    assert_eq!(KeyBindings::default().resolve(&folded), Some(Action::Open));
}

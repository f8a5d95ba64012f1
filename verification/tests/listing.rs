use jw::jj::{
    add_workspace_args, diff_stat_args, failure_message, forget_workspace_args, list_args,
    parse_workspace_list, root_args, root_from_output, workspaces_from_list, Workspace, LIST_TMPL,
};

// Columns: name, root, change_id, description, conflict, empty.
const FIXTURE: &str = "\
default\t/repo\tmpmxtzuz\tDesign doc + M0 prototype\t0\t0
auth\t/repo.auth\t3f2a9c1c\twire up oauth callback\t1\t0
docs\t/repo.docs\t9a0b1c2d\t(no description)\t0\t1
";

#[test]
fn parses_tab_delimited_rows() {
    let rows = parse_workspace_list(FIXTURE);
    assert_eq!(rows.len(), 3);
    assert_eq!(rows[0].name, "default");
    assert_eq!(rows[0].root, "/repo");
    assert_eq!(rows[1].name, "auth");
    assert_eq!(rows[1].root, "/repo.auth");
    assert_eq!(rows[1].change_id, "3f2a9c1c");
    assert_eq!(rows[1].description, "wire up oauth callback");
    assert!(rows[1].conflict);
    assert!(!rows[1].empty);
    assert!(rows[2].empty);
    assert_eq!(rows[2].description, "(no description)");
}

#[test]
fn skips_blank_lines() {
    assert_eq!(parse_workspace_list("\n\n").len(), 0);
}

#[test]
fn workspace_fields_exist() {
    let w = Workspace {
        name: "default".into(),
        path: "/tmp".into(),
        change_id: "abcd1234".into(),
        description: "(no description)".into(),
        conflict: false,
        empty: true,
        stale: false,
        is_current: true,
    };
    assert_eq!(w.name, "default");
}

#[test]
fn short_rows_crlf_and_whitespace_lines() {
    let rows = parse_workspace_list("solo\r\n  \t \r\nx\ty\r\nlast");
    assert_eq!(rows.len(), 3);
    assert_eq!(rows[0].name, "solo");
    assert_eq!(rows[0].root, "");
    assert!(!rows[0].conflict && !rows[0].empty);
    assert_eq!(rows[1].name, "x");
    assert_eq!(rows[1].root, "y");
    assert_eq!(rows[2].name, "last");
    // A bare carriage return not followed by a newline stays in the line.
    assert_eq!(parse_workspace_list("a\r")[0].name, "a\r");
}

#[test]
fn joined_outputs_parse_piecewise() {
    let a = "one\t/r1\tid1\td1\t0\t1";
    let b = "\ntwo\t/r2\tid2\td2\t1\t0\n";
    let joined = format!("{a}\n{b}");
    let mut expected = parse_workspace_list(a);
    expected.extend(parse_workspace_list(b));
    assert_eq!(parse_workspace_list(&joined), expected);
}

#[test]
fn rendered_row_parses_back() {
    let line = "feat\t/home/u/repo.feat\tabc12345\tfix: a thing (really)\t1\t0\n";
    let rows = parse_workspace_list(line);
    assert_eq!(rows.len(), 1);
    assert_eq!(rows[0].name, "feat");
    assert_eq!(rows[0].root, "/home/u/repo.feat");
    assert_eq!(rows[0].change_id, "abc12345");
    assert_eq!(rows[0].description, "fix: a thing (really)");
    assert!(rows[0].conflict);
    assert!(!rows[0].empty);
}

#[test]
fn workspaces_mark_the_current_root() {
    let ws = workspaces_from_list(FIXTURE, Some("/repo.auth"));
    assert_eq!(ws.len(), 3);
    assert!(!ws[0].is_current);
    assert!(ws[1].is_current);
    assert!(!ws[2].is_current);
    assert_eq!(ws[1].path, "/repo.auth");
    assert!(ws.iter().all(|w| !w.stale));
    // Path equality, not string equality: a trailing slash names the same path.
    let ws = workspaces_from_list(FIXTURE, Some("/repo.docs/"));
    assert!(ws[2].is_current);
    let ws = workspaces_from_list(FIXTURE, None);
    assert!(ws.iter().all(|w| !w.is_current));
}

#[test]
fn jj_argument_lists() {
    assert_eq!(list_args(), vec!["workspace", "list", "--ignore-working-copy", "-T", LIST_TMPL]);
    assert!(LIST_TMPL.starts_with("self.name() ++ \"\\t\" ++ self.root()"));
    assert_eq!(root_args(), vec!["workspace", "root"]);
    assert_eq!(
        diff_stat_args("feat"),
        vec!["diff", "--ignore-working-copy", "-r", "feat@", "--stat", "--color", "always"]
    );
    assert_eq!(add_workspace_args("x", "/a/b"), vec!["workspace", "add", "--name", "x", "/a/b"]);
    assert_eq!(forget_workspace_args("x"), vec!["workspace", "forget", "x"]);
    assert_eq!(root_from_output("  /work/repo\n"), "/work/repo");
}

#[test]
fn failure_message_joins_args_and_trims_stderr() {
    let args = vec!["workspace".to_string(), "root".to_string()];
    assert_eq!(failure_message(&args, "Error: no repo\n"), "jj workspace root failed: Error: no repo");
}

#[test]
fn rendered_rows_parse_back() {
    let raw = "default\t/repo\tmpmxtzuz\tfirst\t0\t1\nauth\t/repo.auth\t3f2a9c1c\tsecond\t1\t0\n";
    let rows = parse_workspace_list(raw);
    assert_eq!(rows.len(), 2);
    let printed: String = rows
        .iter()
        .map(|r| {
            format!(
                "{}\t{}\t{}\t{}\t{}\t{}\n",
                r.name,
                r.root,
                r.change_id,
                r.description,
                if r.conflict { "1" } else { "0" },
                if r.empty { "1" } else { "0" }
            )
        })
        .collect();
    assert_eq!(printed, raw);
    assert_eq!(parse_workspace_list(&printed), rows);
}

use shikigami::app::{
    App, ConfirmAction, DiffRequest, Effect, Focus, InputAction, Key, KeyCode, Mode, PaneLayout, ReloadPurpose, Source,
    Status, StatusKind,
};
use shikigami::cache::DiffStore;
use shikigami::jj::{Jj, JjCall, Row, FIELD, RECORD};

/// A change line of `jj log` with the record template.
fn change_line(graph: &str, id: &str, short: &str, commit: &str, wc: bool, empty: bool, immutable: bool, desc: &str) -> String {
    let fields = [
        id,
        short,
        commit,
        if wc { "1" } else { "0" },
        if empty { "1" } else { "0" },
        "0",
        if immutable { "1" } else { "0" },
        "test",
        "2026-01-01 00:00",
        "",
        desc,
    ];
    format!("{graph}{RECORD}{}\n", fields.join(&FIELD.to_string()))
}

/// The log of a three-change repo (`first change` → `second change` →
/// `third change` at @) above the root commit, with a connector line.
fn log3() -> String {
    let mut s = String::new();
    s.push_str(&change_line("@  ", "thirdidxxxx", "thirdid", "c3c3c3c3", true, false, false, "third change"));
    s.push_str("│\n");
    s.push_str(&change_line("○  ", "secondidxxx", "secondid", "c2c2c2c2", false, false, false, "second change"));
    s.push_str("│\n");
    s.push_str(&change_line("○  ", "firstidxxxx", "firstid", "c1c1c1c1", false, false, false, "first change"));
    s.push_str("│\n");
    s.push_str(&change_line("◆  ", "zzzzzzzzzzz", "zzzzzzzz", "00000000", false, true, true, ""));
    s
}

fn log_without(desc: &str) -> String {
    log3().lines().filter(|l| !l.ends_with(desc)).map(|l| format!("{l}\n")).collect()
}

fn repo_app() -> App {
    let jj = Jj::discover("/repo", &vec![("/repo".to_string(), true)]).unwrap();
    let mut app = App::new(jj, Some("all()".to_string()), None, None, None, DiffStore::default());
    app.apply_reload(&log3(), Some("thirdid\n"));
    app
}

fn key(code: KeyCode) -> Key {
    Key { code, ctrl: false, press: true }
}

fn ch(c: char) -> Key {
    key(KeyCode::Char(c))
}

fn ctrl(c: char) -> Key {
    Key { code: KeyCode::Char(c), ctrl: true, press: true }
}

fn descriptions(app: &App) -> Vec<String> {
    app.rows
        .iter()
        .filter_map(|row| match row {
            Row::Change { change, .. } => Some(change.summary()),
            Row::Connector(_) => None,
        })
        .collect()
}

fn select(app: &mut App, desc: &str) {
    for _ in 0..20 {
        if app.selected_change().unwrap().description == desc {
            return;
        }
        app.handle_key(ch('j'));
    }
    for _ in 0..20 {
        if app.selected_change().unwrap().description == desc {
            return;
        }
        app.handle_key(ch('k'));
    }
    panic!("no change described {desc}");
}

fn run_call(e: Effect) -> (String, JjCall) {
    match e {
        Effect::Run { label, call } => (label, call),
        other => panic!("expected a jj command, got {other:?}"),
    }
}

/// Finishes a command: reports `out` and performs the reload it asks for
/// with `after` as the new log.
fn finish(app: &mut App, label: &str, out: Result<String, String>, after: &str) {
    match app.report(label, out) {
        Effect::Reload { purpose, .. } => app.finish_reload(purpose, Ok((after.to_string(), Some("wc".to_string())))),
        Effect::Nothing => {},
        other => panic!("unexpected effect {other:?}"),
    }
}

#[test]
fn log_is_loaded_with_working_copy_marked() {
    let app = repo_app();
    let descs = descriptions(&app);
    assert!(descs.iter().any(|d| d == "third change"), "log missing the working copy change: {descs:?}");
    assert!(descs.iter().any(|d| d == "first change"));
    assert!(app.selected_change().is_some());
    assert!(app.rows.iter().any(|row| matches!(row, Row::Change { change, .. } if change.is_working_copy)));
}

#[test]
fn navigation_skips_connector_rows_and_clamps() {
    let mut app = repo_app();
    let mut seen = Vec::new();
    for _ in 0..10 {
        seen.push(app.selected_change().unwrap().id.clone());
        app.handle_key(ch('j'));
    }
    let last = app.selected_change().unwrap().id.clone();
    app.handle_key(ch('j'));
    assert_eq!(app.selected_change().unwrap().id, last);

    app.handle_key(ch('g'));
    let first = app.selected_change().unwrap().id.clone();
    app.handle_key(ch('k'));
    assert_eq!(app.selected_change().unwrap().id, first);
    assert!(seen.iter().collect::<std::collections::BTreeSet<_>>().len() > 1);
}

#[test]
fn describe_rewrites_the_selected_change() {
    let mut app = repo_app();
    select(&mut app, "second change");
    app.handle_key(ch('e'));
    let Mode::Input(input) = &app.mode else {
        panic!("expected input mode, got {:?}", app.mode);
    };
    assert_eq!(input.value, "second change");
    for c in "-renamed".chars() {
        app.handle_key(ch(c));
    }
    let (label, call) = run_call(app.handle_key(key(KeyCode::Enter)));
    assert_eq!(label, "describe");
    assert_eq!(call.args, vec!["describe", "-r", "secondidxxx", "-m", "second change-renamed"]);
    // jj rewrote it: the change keeps its id and gets the new description.
    let after = log3().replace("second change", "second change-renamed");
    finish(&mut app, &label, Ok(String::new()), &after);
    assert_eq!(app.status.kind, StatusKind::Info, "{:?}", app.status);
    assert!(descriptions(&app).contains(&"second change-renamed".to_string()), "{:?}", descriptions(&app));
    assert_eq!(app.selected_change().unwrap().description, "second change-renamed");
}

#[test]
fn escape_cancels_input_without_touching_the_repo() {
    let mut app = repo_app();
    let before = descriptions(&app);
    app.handle_key(ch('e'));
    for c in "junk".chars() {
        assert!(matches!(app.handle_key(ch(c)), Effect::Nothing));
    }
    assert!(matches!(app.handle_key(key(KeyCode::Esc)), Effect::Nothing));
    assert_eq!(app.mode, Mode::Normal);
    assert_eq!(descriptions(&app), before);
}

#[test]
fn squash_requires_a_mark_and_then_merges_into_it() {
    let mut app = repo_app();
    assert!(matches!(app.handle_key(ch('s')), Effect::Nothing));
    assert_eq!(app.status.kind, StatusKind::Error);
    assert!(app.status.text.contains("mark a destination"));
    assert_eq!(app.mode, Mode::Normal);

    select(&mut app, "second change");
    app.handle_key(ch('m'));
    select(&mut app, "third change");
    app.handle_key(ch('s'));
    let Mode::Confirm(confirm) = &app.mode else {
        panic!("expected confirm mode, got {:?}", app.mode);
    };
    assert!(confirm.prompt.starts_with("squash "), "{}", confirm.prompt);
    let (label, call) = run_call(app.handle_key(ch('y')));
    assert_eq!(
        call.args,
        vec!["squash", "--use-destination-message", "--from", "thirdidxxxx", "--into", "secondidxxx"]
    );
    finish(&mut app, &label, Ok(String::new()), &log_without("third change"));
    assert_eq!(app.status.kind, StatusKind::Info, "{:?}", app.status);
    let descs = descriptions(&app);
    assert!(descs.contains(&"second change".to_string()), "{descs:?}");
    assert!(!descs.contains(&"third change".to_string()), "{descs:?}");
}

#[test]
fn confirm_dialog_rejects_anything_but_yes() {
    let mut app = repo_app();
    let before = descriptions(&app);
    app.handle_key(ch('a'));
    assert!(matches!(app.mode, Mode::Confirm(_)));
    assert!(matches!(app.handle_key(ch('n')), Effect::Nothing));
    assert_eq!(app.mode, Mode::Normal);
    assert_eq!(descriptions(&app), before);
}

#[test]
fn abandon_then_undo_restores_the_change() {
    let mut app = repo_app();
    select(&mut app, "second change");
    app.handle_key(ch('a'));
    let (label, call) = run_call(app.handle_key(key(KeyCode::Enter)));
    assert_eq!(call.args, vec!["abandon", "secondidxxx"]);
    finish(&mut app, &label, Ok("Abandoned 1 commits:\n".to_string()), &log_without("second change"));
    assert_eq!(app.status.kind, StatusKind::Info, "{:?}", app.status);
    assert!(!descriptions(&app).contains(&"second change".to_string()));

    app.handle_key(ch('u'));
    let (label, call) = run_call(app.handle_key(ch('y')));
    assert_eq!(call.args, vec!["undo"]);
    finish(&mut app, &label, Ok("Undid operation\n".to_string()), &log3());
    assert_eq!(app.status.kind, StatusKind::Info, "{:?}", app.status);
    assert!(descriptions(&app).contains(&"second change".to_string()), "{:?}", descriptions(&app));
}

#[test]
fn immutable_root_commit_failure_is_surfaced_not_panicked() {
    let mut app = repo_app();
    app.handle_key(ch('G'));
    app.handle_key(ch('a'));
    let (label, _call) = run_call(app.handle_key(key(KeyCode::Enter)));
    let stderr = "Error: The root commit 000000000000 is immutable\nHint: ...\n";
    finish(&mut app, &label, Err(stderr.to_string()), &log3());
    assert_eq!(app.status.kind, StatusKind::Error, "{:?}", app.status);
    assert!(app.status.text.contains("immutable"), "{}", app.status.text);
    assert!(!app.status.text.contains('\n'));
    assert!(app.selected_change().is_some());
}

#[test]
fn rebase_without_mark_prompts_for_a_revset_and_rebases() {
    let mut app = repo_app();
    select(&mut app, "first change");
    let target = app.selected_change().unwrap().short_id.clone();
    select(&mut app, "third change");
    app.handle_key(ch('x'));
    let Mode::Input(input) = &app.mode else {
        panic!("expected revset input, got {:?}", app.mode);
    };
    assert!(matches!(input.action, InputAction::RebaseOnto { .. }));
    for c in target.chars() {
        app.handle_key(ch(c));
    }
    let (_label, call) = run_call(app.handle_key(key(KeyCode::Enter)));
    assert_eq!(call.args, vec!["rebase", "-r", "thirdidxxxx", "--onto", target.as_str()]);
}

#[test]
fn mark_is_dropped_when_the_marked_change_disappears() {
    let mut app = repo_app();
    select(&mut app, "third change");
    app.handle_key(ch('m'));
    assert!(app.marked.is_some());
    app.handle_key(ch('a'));
    let (label, _call) = run_call(app.handle_key(key(KeyCode::Enter)));
    finish(&mut app, &label, Ok(String::new()), &log_without("third change"));
    assert_eq!(app.status.kind, StatusKind::Info, "{:?}", app.status);
    assert!(app.marked.is_none());
}

#[test]
fn diff_pane_is_loaded_for_the_selection_and_scrolls_within_bounds() {
    let mut app = repo_app();
    select(&mut app, "second change");
    // The file list, then the header, then the diff are asked for.
    let DiffRequest::Files { commit_id, call } = app.sync_diff() else { panic!("files first") };
    assert_eq!(call.args, vec!["diff", "-r", "secondidxxx", "--summary"]);
    app.files_loaded(commit_id, Ok("A b.txt\n".to_string()));
    let DiffRequest::Header { commit_id, .. } = app.sync_diff() else { panic!("header next") };
    app.header_loaded(commit_id, Ok("Commit ID: c2c2c2c2\n\n    second change\n".to_string()));
    let DiffRequest::Diff { commit_id, path, source: Source::Run(call), .. } = app.sync_diff() else {
        panic!("diff last")
    };
    assert_eq!(path.as_deref(), Some("b.txt"));
    assert_eq!(call.args, vec!["diff", "-r", "secondidxxx", "b.txt"]);
    app.diff_loaded(commit_id, path, Ok("Added regular file b.txt:\n        1: b\n".to_string()), None);
    assert!(matches!(app.sync_diff(), DiffRequest::Done));
    let text = app
        .diff
        .lines
        .iter()
        .map(|l| l.spans.iter().map(|s| s.content.as_ref()).collect::<String>())
        .collect::<Vec<_>>()
        .join("\n");
    assert!(text.contains("second change"), "diff header missing: {text}");
    assert!(text.contains("b.txt"), "diff body missing: {text}");
    assert_eq!(app.files.len(), 1, "{:?}", app.files);
    assert_eq!(app.files[0].path, "b.txt");

    app.handle_key(key(KeyCode::Tab));
    assert_eq!(app.focus, Focus::Files);
    app.handle_key(key(KeyCode::Tab));
    assert_eq!(app.focus, Focus::Diff);
    app.handle_key(ch('j'));
    assert_eq!(app.diff_scroll, 1);
    app.handle_key(ch('k'));
    assert_eq!(app.diff_scroll, 0);
    app.handle_key(ch('k'));
    assert_eq!(app.diff_scroll, 0);
    app.handle_key(ch('G'));
    assert!((app.diff_scroll as usize) < app.diff.lines.len());
    let selected = app.selected_change().unwrap().id.clone();
    app.handle_key(ctrl('d'));
    assert_eq!(app.selected_change().unwrap().id, selected);
}

#[test]
fn files_pane_lists_every_changed_file_and_diff_follows_the_selection() {
    let mut app = repo_app();
    let DiffRequest::Files { commit_id, .. } = app.sync_diff() else { panic!("files first") };
    app.files_loaded(commit_id, Ok("A x.txt\nA y.txt\n".to_string()));
    let mut paths: Vec<&str> = app.files.iter().map(|f| f.path.as_str()).collect();
    paths.sort_unstable();
    assert_eq!(paths, vec!["x.txt", "y.txt"], "{:?}", app.files);
    let DiffRequest::Header { commit_id, .. } = app.sync_diff() else { panic!("header next") };
    app.header_loaded(commit_id, Ok("header\n".to_string()));
    let DiffRequest::Diff { path, .. } = app.sync_diff() else { panic!("diff last") };
    assert_eq!(path.as_deref(), Some(app.files[0].path.as_str()));

    app.handle_key(key(KeyCode::Tab));
    assert_eq!(app.focus, Focus::Files);
    app.handle_key(ch('j'));
    assert_eq!(app.file_selected, 1);
    let DiffRequest::Diff { path, .. } = app.sync_diff() else { panic!("the other file") };
    assert_eq!(path.as_deref(), Some(app.files[1].path.as_str()));
}

#[test]
fn key_release_events_are_ignored() {
    let mut app = repo_app();
    let start = app.selected_change().unwrap().id.clone();
    let release = Key { code: KeyCode::Char('j'), ctrl: false, press: false };
    assert!(matches!(app.handle_key(release), Effect::Nothing));
    assert_eq!(app.selected_change().unwrap().id, start);
}

#[test]
fn revset_toggle_switches_between_all_and_default() {
    let mut app = repo_app();
    app.revset = None;
    let e = app.handle_key(ch('A'));
    assert_eq!(app.revset.as_deref(), Some("all()"));
    let Effect::Reload { purpose, log, .. } = e else { panic!("reload expected") };
    assert!(log.args.contains(&"all()".to_string()));
    app.finish_reload(purpose, Ok((log3(), None)));
    let e = app.handle_key(ch('A'));
    assert_eq!(app.revset, None);
    let Effect::Reload { purpose, .. } = e else { panic!("reload expected") };
    app.finish_reload(purpose, Ok((log3(), None)));
    assert_eq!(app.status.kind, StatusKind::Info, "{:?}", app.status);
}

#[test]
fn new_child_with_empty_message_is_allowed() {
    let mut app = repo_app();
    app.handle_key(ch('n'));
    let (label, call) = run_call(app.handle_key(key(KeyCode::Enter)));
    assert_eq!(call.args, vec!["new", "thirdidxxxx"]);
    let before = app.rows.len();
    let mut after = change_line("@  ", "newidxxxxxx", "newid", "c4c4c4c4", true, true, false, "");
    after.push_str("│\n");
    after.push_str(&change_line("○  ", "thirdidxxxx", "thirdid", "c3c3c3c3", false, false, false, "third change"));
    for l in log3().lines().skip(1) {
        after.push_str(l);
        after.push('\n');
    }
    finish(&mut app, &label, Ok(String::new()), &after);
    assert_eq!(app.status.kind, StatusKind::Info, "{:?}", app.status);
    assert!(app.rows.len() > before);
    let wc = app
        .rows
        .iter()
        .find_map(|row| match row {
            Row::Change { change, .. } if change.is_working_copy => Some(change),
            _ => None,
        })
        .unwrap();
    assert!(wc.is_empty);
    assert_eq!(wc.description, "");
}

#[test]
fn ai_ctrl_g_fills_the_describe_prompt_from_the_diff() {
    let mut app = repo_app();
    app.ai_cmd = Some("echo 'feat: ai generated message'".to_string());
    select(&mut app, "second change");
    app.handle_key(ch('e'));
    let Effect::Ai { cmd, diff } = app.handle_key(ctrl('g')) else { panic!("generation expected") };
    assert_eq!(cmd, "echo 'feat: ai generated message'");
    assert!(diff.args.contains(&"secondidxxx".to_string()));
    let message = shikigami::ai::message_from_output(true, "exit status: 0", b"feat: ai generated message\n", b"");
    app.finish_ai(message);
    let Mode::Input(input) = &app.mode else {
        panic!("expected input mode, got {:?}", app.mode);
    };
    assert_eq!(input.value, "feat: ai generated message");
    assert_eq!(app.status.kind, StatusKind::Info, "{:?}", app.status);
    let (_label, call) = run_call(app.handle_key(key(KeyCode::Enter)));
    assert_eq!(call.args, vec!["describe", "-r", "secondidxxx", "-m", "feat: ai generated message"]);
}

#[test]
fn ai_ctrl_g_is_unavailable_for_bookmark_prompt() {
    let mut app = repo_app();
    app.ai_cmd = Some("echo 'should not be used'".to_string());
    app.handle_key(ch('b'));
    assert!(matches!(app.handle_key(ctrl('g')), Effect::Nothing));
    let Mode::Input(input) = &app.mode else {
        panic!("expected input mode, got {:?}", app.mode);
    };
    assert_eq!(input.value, "");
    assert_eq!(app.status.kind, StatusKind::Error, "{:?}", app.status);
    assert!(app.status.text.contains("not available"), "{:?}", app.status);
}

#[test]
fn ai_ctrl_g_without_configured_command_reports_error() {
    let mut app = repo_app();
    app.ai_cmd = None;
    app.handle_key(ch('e'));
    assert!(matches!(app.handle_key(ctrl('g')), Effect::Nothing));
    assert_eq!(app.status.kind, StatusKind::Error, "{:?}", app.status);
    assert!(app.status.text.contains("SHIKIGAMI_AI_CMD"), "{:?}", app.status);
    assert!(matches!(app.mode, Mode::Input(_)));
}

// ---------------------------------------------------------------------------
// Further cases
// ---------------------------------------------------------------------------

#[test]
fn status_constructors_set_the_kind() {
    assert_eq!(Status::info("x".to_string()).kind, StatusKind::Info);
    assert_eq!(Status::error("y".to_string()).text, "y");
    assert_eq!(Status::error("y".to_string()).kind, StatusKind::Error);
}

#[test]
fn ai_rev_is_offered_for_describe_and_new_only() {
    assert_eq!(InputAction::Describe { rev: "r".to_string() }.ai_rev(), Some("r"));
    assert_eq!(InputAction::NewChild { rev: "n".to_string() }.ai_rev(), Some("n"));
    assert_eq!(InputAction::Bookmark { rev: "b".to_string() }.ai_rev(), None);
    assert_eq!(InputAction::Revset.ai_rev(), None);
}

#[test]
fn report_folds_a_multi_line_error_onto_one_line() {
    let mut app = repo_app();
    let e = app.report("squash", Err("Error: one\n\n  Hint: two  \n".to_string()));
    assert!(matches!(e, Effect::Nothing));
    assert_eq!(app.status.text, "squash failed: Error: one | Hint: two");
    assert_eq!(app.status.kind, StatusKind::Error);
}

#[test]
fn report_shows_the_first_line_of_the_output() {
    let mut app = repo_app();
    let e = app.report("edit", Ok("\nWorking copy now at: abc\nParent: def\n".to_string()));
    assert!(matches!(e, Effect::Reload { purpose: ReloadPurpose::AfterCommand, .. }));
    assert_eq!(app.status.text, "edit: Working copy now at: abc");
}

#[test]
fn rebase_mode_key_cycles_and_is_used_by_rebase() {
    let mut app = repo_app();
    select(&mut app, "first change");
    app.handle_key(ch('m'));
    select(&mut app, "third change");
    app.handle_key(ch('R'));
    app.handle_key(ch('x'));
    let Mode::Confirm(confirm) = &app.mode else { panic!("confirm expected, got {:?}", app.mode) };
    assert!(matches!(confirm.action, ConfirmAction::Rebase { .. }));
    let (_label, call) = run_call(app.handle_key(ch('y')));
    assert_eq!(call.args, vec!["rebase", "-s", "thirdidxxxx", "--onto", "firstidxxxx"]);
}

#[test]
fn squash_into_itself_is_refused() {
    let mut app = repo_app();
    app.handle_key(ch('m'));
    assert!(matches!(app.handle_key(ch('s')), Effect::Nothing));
    assert_eq!(app.status.kind, StatusKind::Error);
    assert_eq!(app.mode, Mode::Normal);
}

#[test]
fn empty_bookmark_name_is_refused() {
    let mut app = repo_app();
    app.handle_key(ch('b'));
    assert!(matches!(app.handle_key(key(KeyCode::Enter)), Effect::Nothing));
    assert_eq!(app.status.text, "bookmark: empty name");
}

#[test]
fn quit_keys_set_should_quit() {
    let mut app = repo_app();
    app.handle_key(ch('q'));
    assert!(app.should_quit);
    let mut app = repo_app();
    app.handle_key(ctrl('c'));
    assert!(app.should_quit);
}

#[test]
fn failed_reload_keeps_the_log() {
    let mut app = repo_app();
    let rows = app.rows.len();
    app.finish_reload(ReloadPurpose::Manual, Err("boom".to_string()));
    assert_eq!(app.status.text, "reload failed: boom");
    assert_eq!(app.rows.len(), rows);
}

#[test]
fn blank_diff_shows_no_changes() {
    let mut app = repo_app();
    let DiffRequest::Files { commit_id, .. } = app.sync_diff() else { panic!() };
    app.files_loaded(commit_id, Ok(String::new()));
    let DiffRequest::Header { commit_id, .. } = app.sync_diff() else { panic!() };
    app.header_loaded(commit_id, Ok("head\n".to_string()));
    let DiffRequest::Diff { commit_id, path, .. } = app.sync_diff() else { panic!() };
    assert_eq!(path, None);
    app.diff_loaded(commit_id, path, Ok("  \n".to_string()), None);
    let last: String = app.diff.lines.last().unwrap().spans.iter().map(|s| s.content.as_ref()).collect();
    assert_eq!(last, "(no changes)");
    assert_eq!(app.diff.lines.len(), 2);
}

/// The app with the files of the selected change loaded.
fn app_with_files(files: &str) -> App {
    let mut app = repo_app();
    let DiffRequest::Files { commit_id, .. } = app.sync_diff() else { panic!("files first") };
    app.files_loaded(commit_id, Ok(files.to_string()));
    app
}

#[test]
fn shift_tab_cycles_focus_backwards() {
    let mut app = repo_app();
    app.handle_key(key(KeyCode::BackTab));
    assert_eq!(app.focus, Focus::Diff);
    app.handle_key(key(KeyCode::BackTab));
    assert_eq!(app.focus, Focus::Files);
    app.handle_key(key(KeyCode::BackTab));
    assert_eq!(app.focus, Focus::Log);
}

#[test]
fn layout_key_switches_between_the_two_layouts() {
    let mut app = repo_app();
    assert_eq!(app.layout, PaneLayout::Stacked);
    app.handle_key(ch('L'));
    assert_eq!(app.layout, PaneLayout::DiffBelow);
    assert_eq!(app.status.text, "layout: diff-below");
    app.handle_key(ch('L'));
    assert_eq!(app.layout, PaneLayout::Stacked);
    assert_eq!(app.status.text, "layout: stacked");
}

#[test]
fn restore_asks_first_and_uses_the_new_side_of_a_rename() {
    let mut app = app_with_files("R old.rs => new.rs\n");
    // Only in the files pane.
    assert!(matches!(app.handle_key(ch('r')), Effect::Nothing));
    assert_eq!(app.mode, Mode::Normal);
    app.handle_key(key(KeyCode::Tab));
    assert!(matches!(app.handle_key(ch('r')), Effect::Nothing));
    let Mode::Confirm(confirm) = &app.mode else { panic!("confirm expected, got {:?}", app.mode) };
    assert_eq!(confirm.prompt, "restore new.rs in thirdid (discard its change)?");
    let (label, call) = run_call(app.handle_key(ch('y')));
    assert_eq!(label, "restore");
    assert_eq!(call.args, vec!["restore", "--changes-in", "thirdidxxxx", "new.rs"]);
}

#[test]
fn absorb_asks_first() {
    let mut app = app_with_files("M a.txt\n");
    app.handle_key(key(KeyCode::Tab));
    app.handle_key(ch('p'));
    assert!(matches!(app.mode, Mode::Confirm(_)));
    assert!(matches!(app.handle_key(ch('n')), Effect::Nothing));
    assert_eq!(app.mode, Mode::Normal);
    app.handle_key(ch('p'));
    let (label, call) = run_call(app.handle_key(key(KeyCode::Enter)));
    assert_eq!(label, "absorb");
    assert_eq!(call.args, vec!["absorb", "--from", "thirdidxxxx", "a.txt"]);
}

#[test]
fn open_hands_the_file_to_the_editor() {
    let mut app = app_with_files("M src/a.txt\n");
    app.handle_key(key(KeyCode::Tab));
    assert!(matches!(app.handle_key(ch('o')), Effect::Nothing));
    assert_eq!(app.status.kind, StatusKind::Error);
    app.editor_cmd = Some("vim".to_string());
    match app.handle_key(ch('o')) {
        Effect::OpenEditor { editor, path } => {
            assert_eq!(editor, "vim");
            assert_eq!(path, "/repo/src/a.txt");
        },
        other => panic!("editor expected, got {other:?}"),
    }
    app.editor_closed("/repo/src/a.txt", Ok((true, "exit status: 0".to_string())));
    assert_eq!(app.status.text, "closed editor for /repo/src/a.txt");
    app.editor_closed("/repo/src/a.txt", Ok((false, "exit status: 1".to_string())));
    assert_eq!(app.status.text, "editor exited with exit status: 1");
    assert_eq!(app.status.kind, StatusKind::Error);
}

#[test]
fn a_commit_seen_before_is_served_from_the_cache() {
    let mut app = repo_app();
    let DiffRequest::Files { commit_id, .. } = app.sync_diff() else { panic!("files first") };
    app.files_loaded(commit_id, Ok("M a.txt\n".to_string()));
    let DiffRequest::Header { commit_id, source: Source::Run(_) } = app.sync_diff() else { panic!("header from jj") };
    app.header_loaded(commit_id, Ok("head\n".to_string()));
    let DiffRequest::Diff { commit_id, path, source: Source::Run(_), .. } = app.sync_diff() else { panic!("diff from jj") };
    app.diff_loaded(commit_id, path, Ok("diff a\n".to_string()), None);
    assert!(app.store.contains("c3c3c3c3"));

    // Away (showing another commit) and back again: nothing is asked of jj.
    app.handle_key(ch('j'));
    let DiffRequest::Files { commit_id, .. } = app.sync_diff() else { panic!("other files") };
    assert_eq!(commit_id, "c2c2c2c2");
    app.files_loaded(commit_id, Ok(String::new()));
    let DiffRequest::Header { commit_id, .. } = app.sync_diff() else { panic!("other header") };
    app.header_loaded(commit_id, Ok("h2\n".to_string()));
    let DiffRequest::Diff { commit_id, path, .. } = app.sync_diff() else { panic!("other diff") };
    app.diff_loaded(commit_id, path, Ok("d2\n".to_string()), None);
    app.handle_key(ch('k'));
    match app.sync_diff() {
        DiffRequest::Header { source: Source::Cached(raw), commit_id } => {
            assert_eq!(raw, "head\n");
            app.header_loaded(commit_id, Ok(raw));
        },
        other => panic!("cached header expected, got {other:?}"),
    }
    assert_eq!(app.files.len(), 1);
    match app.sync_diff() {
        DiffRequest::Diff { source: Source::Cached(raw), .. } => assert_eq!(raw, "diff a\n"),
        other => panic!("cached diff expected, got {other:?}"),
    }
}

#[test]
fn a_failed_file_list_is_not_cached() {
    let mut app = repo_app();
    let DiffRequest::Files { commit_id, .. } = app.sync_diff() else { panic!() };
    app.files_loaded(commit_id, Err("boom".to_string()));
    let DiffRequest::Header { commit_id, .. } = app.sync_diff() else { panic!() };
    app.header_loaded(commit_id, Ok("head\n".to_string()));
    assert!(!app.store.contains("c3c3c3c3"));
}

#[test]
fn a_failing_filter_falls_back_to_the_raw_diff() {
    let jj = Jj::discover("/repo", &vec![("/repo".to_string(), true)]).unwrap();
    let mut app = App::new(jj, None, None, None, Some("delta".to_string()), DiffStore::default());
    app.apply_reload(&log3(), None);
    let DiffRequest::Files { commit_id, .. } = app.sync_diff() else { panic!() };
    app.files_loaded(commit_id, Ok(String::new()));
    let DiffRequest::Header { commit_id, .. } = app.sync_diff() else { panic!() };
    app.header_loaded(commit_id, Ok("head\n".to_string()));
    let DiffRequest::Diff { commit_id, path, filter, .. } = app.sync_diff() else { panic!() };
    assert_eq!(filter.as_deref(), Some("delta"));
    app.diff_loaded(commit_id, path, Ok("raw diff\n".to_string()), Some(Err("delta: not found\n".to_string())));
    let last: String = app.diff.lines.last().unwrap().spans.iter().map(|s| s.content.as_ref()).collect();
    assert_eq!(last, "raw diff");
    assert_eq!(app.status.kind, StatusKind::Error);
    assert_eq!(app.status.text, "diff filter: delta: not found");
}

#[test]
fn a_working_filter_replaces_the_diff() {
    let jj = Jj::discover("/repo", &vec![("/repo".to_string(), true)]).unwrap();
    let mut app = App::new(jj, None, None, None, Some("cat".to_string()), DiffStore::default());
    app.apply_reload(&log3(), None);
    let DiffRequest::Files { commit_id, .. } = app.sync_diff() else { panic!() };
    app.files_loaded(commit_id, Ok(String::new()));
    let DiffRequest::Header { commit_id, .. } = app.sync_diff() else { panic!() };
    app.header_loaded(commit_id, Ok("head\n".to_string()));
    let DiffRequest::Diff { commit_id, path, .. } = app.sync_diff() else { panic!() };
    app.diff_loaded(commit_id, path, Ok("raw\n".to_string()), Some(Ok("pretty\n".to_string())));
    let last: String = app.diff.lines.last().unwrap().spans.iter().map(|s| s.content.as_ref()).collect();
    assert_eq!(last, "pretty");
}

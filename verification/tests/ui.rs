use shikigami::app::{App, Key, KeyCode, Mode, PaneLayout};
use shikigami::cache::DiffStore;
use shikigami::jj::{Jj, RebaseMode, Row, FIELD, RECORD};
use shikigami::ui::{
    diff_pane_width, diff_title, file_pieces, file_tint, files_pane_height, files_title, help_keys, input_title,
    log_title, row_pieces, status_left, status_right, Tint, CONFIRM_HINT, KEYS,
};

fn change_line(graph: &str, id: &str, short: &str, commit: &str, wc: bool, bookmarks: &str, desc: &str) -> String {
    let fields = [id, short, commit, if wc { "1" } else { "0" }, "0", "0", "0", "test", "2026-01-01 00:00", bookmarks, desc];
    format!("{graph}{RECORD}{}\n", fields.join(&FIELD.to_string()))
}

fn repo_app() -> App {
    let jj = Jj::discover("/repo", &vec![("/repo".to_string(), true)]).unwrap();
    let mut app = App::new(jj, Some("all()".to_string()), None, None, None, DiffStore::default());
    let mut log = String::new();
    log.push_str(&change_line("@  ", "qxymuzsqxxxx", "qxymuzsq", "5e3b8962", true, "", "third change"));
    log.push_str(&change_line("○  ", "secondidxxx", "secondid", "c2c2c2c2", false, "main", "second change"));
    app.apply_reload(&log, Some("qxymuzsq\n"));
    app
}

fn ch(c: char) -> Key {
    Key { code: KeyCode::Char(c), ctrl: false, press: true }
}

fn line_of(row: &Row, marked: Option<&str>) -> String {
    row_pieces(row, marked).iter().map(|p| p.text.as_str()).collect()
}

#[test]
fn log_pane_keeps_the_graph_prefix_and_separates_the_columns() {
    let app = repo_app();
    let wc = line_of(&app.rows[0], None);
    assert!(wc.contains("third change"));
    assert!(wc.contains('@'), "graph prefix missing: {wc}");
    let columns: Vec<&str> = wc.split_whitespace().collect();
    assert!(columns.len() >= 4, "columns are not separated: {wc} -> {columns:?}");
    assert!(log_title(app.revset.as_deref()).contains("-r all()"));
}

#[test]
fn status_bar_reports_mark_and_rebase_mode() {
    let mut app = repo_app();
    assert!(status_right(&app.working_copy, app.marked.as_ref(), app.rebase_mode).contains("mark:-"));
    app.handle_key(ch('m'));
    app.handle_key(ch('R'));
    let marked = app.marked.as_ref().unwrap().short_id.clone();
    let status = status_right(&app.working_copy, app.marked.as_ref(), app.rebase_mode);
    assert!(status.contains(&format!("mark:{marked}")), "{status}");
    assert!(status.contains("rebase:-s"), "{status}");
}

#[test]
fn marked_row_is_flagged_in_the_log() {
    let mut app = repo_app();
    app.handle_key(ch('m'));
    let marked = app.marked.as_ref().unwrap().id.clone();
    let pieces = row_pieces(&app.rows[0], Some(&marked));
    assert_eq!(pieces[0].text, "◆");
    assert_eq!(pieces[0].tint, Tint::Mark);
    assert_eq!(row_pieces(&app.rows[1], Some(&marked))[0].text, " ");
}

#[test]
fn confirm_overlay_shows_the_change_it_will_destroy() {
    let mut app = repo_app();
    app.handle_key(ch('a'));
    let Mode::Confirm(confirm) = &app.mode else { panic!("confirm expected, got {:?}", app.mode) };
    assert!(confirm.prompt.contains("third change"), "{}", confirm.prompt);
    assert!(confirm.prompt.contains("qxymuzsq"), "{}", confirm.prompt);
    assert!(CONFIRM_HINT.contains("y / Enter: yes"));
}

#[test]
fn help_overlay_lists_every_documented_key() {
    assert_eq!(KEYS.len(), 24);
    for (k, _) in &KEYS {
        let cell = help_keys(k);
        assert!(cell.contains(k.trim()), "help is missing `{k}`");
        assert!(cell.ends_with("  "));
        assert!(cell.chars().count() >= 18);
    }
    assert_eq!(help_keys("q, Esc"), "          q, Esc  ");
    assert_eq!(help_keys("Ctrl-g (in n/e prompt)"), "Ctrl-g (in n/e prompt)  ");
}

#[test]
fn diff_pane_titles_the_selected_change() {
    let app = repo_app();
    let selected = app.selected_change().unwrap().clone();
    let title = diff_title(app.selected_change(), app.selected_file());
    assert!(title.contains(&selected.short_id) && title.contains(&selected.commit_id), "{title}");
    assert_eq!(title, " qxymuzsq 5e3b8962 ");
}

#[test]
fn input_overlay_hints_ai_only_when_the_prompt_supports_it() {
    let mut app = repo_app();
    app.handle_key(ch('e'));
    let Mode::Input(input) = &app.mode else { panic!() };
    let title = input_title(&input.prompt, input.action.ai_rev().is_some());
    assert!(title.contains("Ctrl-g: ai"), "{title}");
    app.handle_key(Key { code: KeyCode::Esc, ctrl: false, press: true });
    app.handle_key(ch('b'));
    let Mode::Input(input) = &app.mode else { panic!() };
    let title = input_title(&input.prompt, input.action.ai_rev().is_some());
    assert!(!title.contains("Ctrl-g"), "{title}");
}

// ---------------------------------------------------------------------------
// Further cases
// ---------------------------------------------------------------------------

#[test]
fn log_line_of_a_change_with_bookmarks() {
    let app = repo_app();
    assert_eq!(line_of(&app.rows[1], None), " ○  secondid c2c2c2c2 main second change");
    let pieces = row_pieces(&app.rows[1], None);
    assert!(pieces.iter().any(|p| p.tint == Tint::Bookmarks && p.text == "main"));
}

#[test]
fn placeholder_stands_in_for_a_missing_description() {
    let line = change_line("○  ", "z", "z", "0", false, "", "");
    let rows = shikigami::jj::parse_log(&line);
    let pieces = row_pieces(&rows[0], None);
    let last = pieces.last().unwrap();
    assert_eq!(last.text, "(no description set)");
    assert_eq!(last.tint, Tint::Placeholder);
}

#[test]
fn connector_line_is_its_graph() {
    let row = Row::Connector("├─╮".to_string());
    assert_eq!(line_of(&row, None), "├─╮");
}

#[test]
fn titles_and_status_text() {
    assert_eq!(log_title(None), " log ");
    assert_eq!(files_title(0), " files (0) ");
    assert_eq!(files_title(1234), " files (1234) ");
    assert_eq!(status_left("ready"), " ready ");
    assert_eq!(diff_title(None, None), " diff ");
    assert_eq!(status_right("abc", None, RebaseMode::Branch), " @ abc  mark:-  rebase:-b ");
}

#[test]
fn file_lines_and_tints() {
    let f = shikigami::jj::DiffFile { status: 'A', path: "x.rs".to_string() };
    let pieces = file_pieces(&f);
    assert_eq!(pieces[0].text, "A ");
    assert_eq!(pieces[0].tint, Tint::Added);
    assert_eq!(pieces[1].text, "x.rs");
    assert_eq!(file_tint('D'), Tint::Deleted);
    assert_eq!(file_tint('M'), Tint::Modified);
    assert_eq!(file_tint('R'), Tint::Renamed);
    assert_eq!(file_tint('C'), Tint::Renamed);
    assert_eq!(file_tint('?'), Tint::OtherStatus);
}

#[test]
fn files_pane_height_is_clamped() {
    assert_eq!(files_pane_height(0, 20), 3);
    assert_eq!(files_pane_height(4, 20), 6);
    assert_eq!(files_pane_height(100, 20), 17);
    assert_eq!(files_pane_height(100, 4), 3);
    // The count plus two wraps as a 16-bit height.
    assert_eq!(files_pane_height(65534, 20), 3);
    assert_eq!(files_pane_height(65535 + 65536, 20), 3);
    assert_eq!(files_pane_height(65536 + 5, 20), 7);
}

#[test]
fn diff_pane_width_leaves_out_the_borders() {
    assert_eq!(diff_pane_width(120, PaneLayout::Stacked), 58);
    assert_eq!(diff_pane_width(0, PaneLayout::Stacked), 0);
    assert_eq!(diff_pane_width(81, PaneLayout::Stacked), 38);
    assert_eq!(diff_pane_width(81, PaneLayout::Stacked), diff_pane_width(81, PaneLayout::Stacked));
    assert_eq!(diff_pane_width(120, PaneLayout::DiffBelow), 118);
    assert_eq!(diff_pane_width(1, PaneLayout::DiffBelow), 0);
}

use shikigami::jj::{parse_diff_summary, parse_log, DiffFile, Jj, RebaseMode, Row, FIELD, RECORD};

fn record(fields: &[&str]) -> String {
    fields.join(&FIELD.to_string())
}

fn repo_at(root: &str) -> Jj {
    Jj::discover(root, &vec![(root.to_string(), true)]).unwrap()
}

#[test]
fn parses_graph_prefix_and_fields() {
    let line = format!(
        "@  {RECORD}{}",
        record(&[
            "qxymuzsqabc",
            "qxymuzsq",
            "5e3b8962",
            "1",
            "0",
            "0",
            "0",
            "yukimemi",
            "2026-09-19 00:00",
            "main,push-abc",
            "first change",
        ])
    );
    let rows = parse_log(&line);
    let Row::Change { graph, change } = &rows[0] else {
        panic!("expected a change row, got {:?}", rows[0]);
    };
    assert_eq!(graph, "@  ");
    assert_eq!(change.id, "qxymuzsqabc");
    assert!(change.is_working_copy);
    assert!(!change.is_empty);
    assert_eq!(change.bookmarks, vec!["main", "push-abc"]);
    assert_eq!(change.description, "first change");
}

#[test]
fn connector_lines_carry_no_change() {
    let rows = parse_log("├─╮\n");
    assert_eq!(rows, vec![Row::Connector("├─╮".to_string())]);
}

#[test]
fn empty_description_and_no_bookmarks_are_not_fabricated() {
    let line = format!(
        "○  {RECORD}{}",
        record(&[
            "zzz",
            "zzz",
            "0000",
            "0",
            "1",
            "0",
            "1",
            "",
            "1970-01-01 00:00",
            "",
            "",
        ])
    );
    let rows = parse_log(&line);
    let Row::Change { change, .. } = &rows[0] else {
        panic!("expected a change row");
    };
    assert!(change.bookmarks.is_empty());
    assert_eq!(change.description, "");
    assert_eq!(change.summary(), "(no description set)");
    assert!(change.is_immutable);
}

#[test]
fn trailing_blank_lines_are_dropped() {
    assert!(parse_log("\n\n").is_empty());
}

#[test]
fn diff_summary_parses_status_and_path_including_renames() {
    let files = parse_diff_summary("M src/app.rs\nA new.rs\nD old.rs\nR from.rs => to.rs\n");
    assert_eq!(
        files,
        vec![
            DiffFile { status: 'M', path: "src/app.rs".to_string() },
            DiffFile { status: 'A', path: "new.rs".to_string() },
            DiffFile { status: 'D', path: "old.rs".to_string() },
            DiffFile { status: 'R', path: "from.rs => to.rs".to_string() },
        ]
    );
}

#[test]
fn target_path_uses_the_new_side_of_a_rename() {
    assert_eq!(DiffFile { status: 'M', path: "src/app.rs".to_string() }.target_path(), "src/app.rs");
    assert_eq!(DiffFile { status: 'R', path: "from.rs => to.rs".to_string() }.target_path(), "to.rs");
}

#[test]
fn rebase_mode_cycles_and_maps_to_jj_flags() {
    assert_eq!(RebaseMode::Revision.flag(), "-r");
    assert_eq!(RebaseMode::Revision.next(), RebaseMode::Source);
    assert_eq!(RebaseMode::Source.next(), RebaseMode::Branch);
    assert_eq!(RebaseMode::Branch.next(), RebaseMode::Revision);
}

#[test]
fn discover_walks_up_to_the_repo_root() {
    // `/tmp/repo/a/b/c` and its ancestors; only `/tmp/repo` holds `.jj`.
    let dirs = vec![
        ("/tmp/repo/a/b/c".to_string(), false),
        ("/tmp/repo/a/b".to_string(), false),
        ("/tmp/repo/a".to_string(), false),
        ("/tmp/repo".to_string(), true),
        ("/tmp".to_string(), false),
        ("/".to_string(), false),
    ];
    let jj = Jj::discover("/tmp/repo/a/b/c", &dirs).unwrap();
    assert_eq!(jj.root(), "/tmp/repo");
}

#[test]
fn discover_ignores_git_only_repos() {
    // A directory with `.git` only: no ancestor holds `.jj`.
    let dirs = vec![("/tmp/gitonly".to_string(), false), ("/tmp".to_string(), false), ("/".to_string(), false)];
    let err = Jj::discover("/tmp/gitonly", &dirs).unwrap_err();
    assert!(err.contains("no jj repo found"), "unexpected error: {err}");
    assert_eq!(
        err,
        "no jj repo found in /tmp/gitonly or any parent directory (run `jj git init --colocate` first)"
    );
}

#[test]
fn discover_takes_the_nearest_repo() {
    let dirs = vec![("/w/inner".to_string(), true), ("/w".to_string(), true)];
    assert_eq!(Jj::discover("/w/inner", &dirs).unwrap().root(), "/w/inner");
}

#[test]
fn rebase_mode_labels() {
    assert_eq!(RebaseMode::Source.flag(), "-s");
    assert_eq!(RebaseMode::Branch.flag(), "-b");
    let m = RebaseMode::Revision;
    assert_eq!(m.next().next().next(), m);
    assert!(!RebaseMode::Revision.label().is_empty());
}

#[test]
fn call_builders_put_the_command_after_the_globals() {
    let jj = repo_at("/repo");
    let c = jj.describe("abc", "msg");
    assert_eq!(c.dir, "/repo");
    assert_eq!(c.args, vec!["describe", "-r", "abc", "-m", "msg"]);
    let c = jj.squash("src", "dst");
    assert_eq!(c.args, vec!["squash", "--use-destination-message", "--from", "src", "--into", "dst"]);
    let c = jj.rebase("abc", "onto", RebaseMode::Source);
    assert_eq!(c.args, vec!["rebase", "-s", "abc", "--onto", "onto"]);
    let c = jj.new_child("abc", None);
    assert_eq!(c.args, vec!["new", "abc"]);
    let c = jj.new_child("abc", Some("m"));
    assert_eq!(c.args, vec!["new", "abc", "-m", "m"]);
    let c = jj.diff("abc", Some("a.txt"));
    assert_eq!(c.args, vec!["diff", "-r", "abc", "a.txt"]);
    let c = jj.bookmark_set("main", "abc");
    assert_eq!(c.args, vec!["bookmark", "set", "main", "-r", "abc"]);
    assert!(c.globals.contains(&"--no-pager".to_string()));
}

#[test]
fn failed_call_reports_stderr_or_the_status() {
    let jj = repo_at("/repo");
    let c = jj.abandon("abc");
    assert_eq!(c.outcome(false, "exit status: 1", b"", b"  Error: immutable\n"), Err("Error: immutable".to_string()));
    assert_eq!(
        c.outcome(false, "exit status: 2", b"", b"   \n"),
        Err("`jj abandon abc` failed with exit status: 2".to_string())
    );
    assert_eq!(c.outcome(true, "exit status: 0", b"done\n", b"warn"), Ok("done\n".to_string()));
    // Output that is not UTF-8 is read lossily.
    assert_eq!(c.outcome(true, "exit status: 0", &[0x61, 0xFF], b""), Ok("a\u{FFFD}".to_string()));
}

#[test]
fn version_is_the_trimmed_output() {
    assert_eq!(Jj::version(true, "exit status: 0", b"jj 0.30.0\n"), Ok("jj 0.30.0".to_string()));
    // Only the first line counts.
    assert_eq!(Jj::version(true, "exit status: 0", b"a\nb"), Ok("a".to_string()));
    assert_eq!(Jj::version(true, "exit status: 0", b"  jj 0.30.0  \r\nextra\n"), Ok("jj 0.30.0".to_string()));
    assert_eq!(Jj::version(true, "exit status: 0", b""), Ok(String::new()));
    assert_eq!(
        Jj::version(false, "exit status: 127", b""),
        Err("`jj --version` failed with exit status: 127".to_string())
    );
}

#[test]
fn bookmarks_are_sorted_and_unique() {
    let names = shikigami::jj::parse_bookmarks("main\n  feature\n\nmain\nalpha\n");
    let mut sorted = names.clone();
    sorted.sort();
    sorted.dedup();
    assert_eq!(names, sorted);
}

#[test]
fn parsing_a_log_in_two_pieces_gives_the_rows_of_both() {
    let first = format!("@  {RECORD}{}\n│\n", record(&["x", "x", "1", "1", "0", "0", "0", "a", "t", "", "one"]));
    let second = format!("○  {RECORD}{}\n", record(&["y", "y", "2", "0", "0", "0", "0", "a", "t", "", "two"]));
    let mut both = parse_log(&first);
    both.extend(parse_log(&second));
    assert_eq!(parse_log(&(first.clone() + &second)), both);
}

#[test]
fn diff_summary_paths_are_trimmed_and_blank_ones_dropped() {
    let files = parse_diff_summary("M   spaced.rs  \nA\n\nD    \n");
    assert_eq!(files, vec![DiffFile { status: 'M', path: "spaced.rs".to_string() }]);
}

#[test]
fn parse_change_reads_one_record() {
    let data = record(&["id", "s", "c", "0", "0", "1", "0", "me", "t", "b1,,b2", "desc  "]);
    let c = shikigami::jj::parse_change(&data).expect("a record");
    assert!(c.has_conflict);
    assert_eq!(c.bookmarks, vec!["b1", "b2"]);
    assert_eq!(c.description, "desc");
    assert!(shikigami::jj::parse_change("too\u{1f}few").is_none());
}

#[test]
fn one_row_per_kept_line() {
    let out = format!("@  {RECORD}{}\n   \n│\n○  {RECORD}bad\n", record(&["x", "x", "1", "1", "0", "0", "0", "a", "t", "", "one"]));
    let rows = parse_log(&out);
    assert_eq!(rows.len(), 3);
    assert_eq!(rows[1], Row::Connector("│".to_string()));
    assert_eq!(rows[2], Row::Connector(format!("○  {RECORD}bad")));
}

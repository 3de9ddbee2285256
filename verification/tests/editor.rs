use shikigami::editor::{command, resolve, split, EditorCommand};

#[test]
fn split_breaks_on_whitespace_only() {
    assert_eq!(split("code --wait"), vec!["code", "--wait"]);
    assert_eq!(split("  vim  "), vec!["vim"]);
    assert_eq!(split(""), Vec::<&str>::new());
}

#[test]
fn command_appends_the_path_as_the_last_argument() {
    let cmd = command("code --wait", "/tmp/a b.txt").unwrap();
    let debug = format!("{cmd:?}");
    assert!(debug.contains("\"code\""));
    assert!(debug.contains("\"--wait\""));
    assert!(debug.contains("a b.txt"));
    assert_eq!(
        cmd,
        EditorCommand { program: "code".to_string(), args: vec!["--wait".to_string(), "/tmp/a b.txt".to_string()] }
    );
}

#[test]
fn command_rejects_an_empty_editor_string() {
    assert!(command("   ", "/tmp/x").is_err());
    assert_eq!(command("", "/tmp/x").unwrap_err(), "editor command is empty");
}

#[test]
fn editor_is_preferred_to_visual_and_blank_values_are_skipped() {
    assert_eq!(resolve(Some("vim"), Some("code")), Some("vim".to_string()));
    assert_eq!(resolve(Some("   "), Some("code")), Some("code".to_string()));
    assert_eq!(resolve(None, Some("nano")), Some("nano".to_string()));
    assert_eq!(resolve(None, Some("")), None);
    assert_eq!(resolve(None, None), None);
}

#[test]
fn split_keeps_quotes_as_ordinary_characters() {
    assert_eq!(split("emacs -nw \"a b\"\t-x"), vec!["emacs", "-nw", "\"a", "b\"", "-x"]);
}

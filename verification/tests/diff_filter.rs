use shikigami::diff_filter::{check_command, filtered_output, DIFF_FILTER_ENV};

#[test]
fn passes_diff_through_and_sets_columns() {
    // What `echo "cols=$COLUMNS"; cat` writes for a width of 123.
    let out = filtered_output(true, "exit status: 0", b"cols=123\nhello\n", b"").unwrap();
    assert!(out.contains("cols=123"), "{out}");
    assert!(out.contains("hello"), "{out}");
}

#[test]
fn empty_cmd_errors() {
    assert!(check_command("").is_err());
    assert_eq!(check_command(" \t").unwrap_err(), format!("{DIFF_FILTER_ENV} is empty"));
}

#[test]
fn failing_cmd_surfaces_stderr() {
    let err = filtered_output(false, "exit status: 1", b"", b"boom\n").unwrap_err();
    assert!(err.contains("boom"), "{err}");
}

#[test]
fn nonzero_exit_without_stderr_reports_status() {
    let err = filtered_output(false, "exit status: 3", b"", b"").unwrap_err();
    assert!(err.contains("3") || err.to_lowercase().contains("failed"));
    assert_eq!(err, "SHIKIGAMI_DIFF_FILTER failed with exit status: 3");
}

#[test]
fn cat_is_available_for_sanity() {
    let cat_cmd = "cat";
    assert!(check_command(cat_cmd).is_ok());
}

#[test]
fn ansi_output_is_kept_as_it_is() {
    let colored = "\u{1b}[32m+added\u{1b}[0m\n";
    assert_eq!(filtered_output(true, "exit status: 0", colored.as_bytes(), b"").unwrap(), colored);
}

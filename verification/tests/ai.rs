use shikigami::ai::{check_command, message_from_output, AI_CMD_ENV};

#[test]
fn runs_the_configured_command_and_trims_output() {
    // What `echo 'feat: add thing'` writes.
    let out = message_from_output(true, "exit status: 0", b"feat: add thing\n", b"").unwrap();
    assert_eq!(out, "feat: add thing");
}

#[test]
fn empty_command_is_rejected() {
    let err = check_command("   ").unwrap_err();
    assert!(err.contains(AI_CMD_ENV), "{err}");
    assert_eq!(err, "SHIKIGAMI_AI_CMD is empty");
    assert!(check_command("cat").is_ok());
}

#[test]
fn nonzero_exit_surfaces_stderr() {
    // What `echo boom 1>&2; exit 1` leaves.
    let err = message_from_output(false, "exit status: 1", b"", b"boom\n").unwrap_err();
    assert!(err.contains("boom"), "{err}");
    assert_eq!(err, "boom");
}

#[test]
fn multiline_output_is_folded_into_one_line() {
    let out = message_from_output(true, "exit status: 0", b"line one\nline two\n", b"").unwrap();
    assert_eq!(out, "line one line two");
}

#[test]
fn stdin_carries_the_diff_through() {
    // `cat` hands the diff back.
    let out = message_from_output(true, "exit status: 0", b"hello from diff", b"").unwrap();
    assert_eq!(out, "hello from diff");
}

#[test]
fn silent_failure_names_the_status() {
    let err = message_from_output(false, "exit status: 3", b"ignored", b"  \n").unwrap_err();
    assert_eq!(err, "SHIKIGAMI_AI_CMD failed with exit status: 3");
}

#[test]
fn blank_output_is_an_error() {
    let err = message_from_output(true, "exit status: 0", b"\n   \n\t\n", b"").unwrap_err();
    assert_eq!(err, "SHIKIGAMI_AI_CMD produced no output");
}

#[test]
fn message_is_one_line_with_blank_lines_dropped() {
    let out = message_from_output(true, "exit status: 0", b"  feat: x  \r\n\n  body\r\n", b"").unwrap();
    assert_eq!(out, "feat: x body");
    assert!(!out.contains('\n'));
}

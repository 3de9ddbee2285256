use shikigami::cli::{run, Cli, Commands, Invocation, Shell};

#[test]
fn repository_and_revset_flags_parse_in_short_form() {
    // `shikigami -R /tmp/repo -r all()` as parsed.
    let cli = Cli { repository: Some("/tmp/repo".to_string()), revisions: Some("all()".to_string()), command: None };
    assert!(cli.command.is_none());
    assert_eq!(
        run(cli),
        Invocation::Launch { repository: Some("/tmp/repo".to_string()), revisions: Some("all()".to_string()) }
    );
}

#[test]
fn subcommands_take_precedence_over_launching() {
    let cli = Cli {
        repository: Some("/r".to_string()),
        revisions: None,
        command: Some(Commands::Completion { shell: Shell::Zsh }),
    };
    assert_eq!(run(cli), Invocation::Completion { shell: Shell::Zsh });
    let cli = Cli { repository: None, revisions: None, command: Some(Commands::SelfUpdate { yes: true, check: false }) };
    assert_eq!(run(cli), Invocation::SelfUpdate { yes: true, check: false });
}

#[test]
fn bare_invocation_launches_in_the_current_directory() {
    let cli = Cli { repository: None, revisions: None, command: None };
    assert_eq!(run(cli), Invocation::Launch { repository: None, revisions: None });
}

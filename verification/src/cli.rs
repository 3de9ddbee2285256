//! The command line as plain values, and what each form of it asks for.
//! Parsing the arguments and carrying out the request are the caller's
//! part.
use vstd::prelude::*;

use crate::text::opt_string_view;

verus! {

/// A shell that a completion script can be printed for.
#[derive(Debug, Clone, Copy, PartialEq, Eq, Structural)]
pub enum Shell {
    Bash,
    Elvish,
    Fish,
    PowerShell,
    Zsh,
}

/// A subcommand.
#[derive(Debug, Clone, PartialEq, Eq)]
pub enum Commands {
    /// Print a shell completion script.
    Completion { shell: Shell },
    /// Update the binary to the latest release; `yes` skips the prompt,
    /// `check` only reports whether an update exists.
    SelfUpdate { yes: bool, check: bool },
}

/// The command line: `-R <path>`, `-r <revset>` and an optional
/// subcommand.
#[derive(Debug, Clone, PartialEq, Eq)]
pub struct Cli {
    /// Operate on this repo instead of the current directory.
    pub repository: Option<String>,
    /// The initial revset of the log pane.
    pub revisions: Option<String>,
    pub command: Option<Commands>,
}

/// What a command line asks for.
#[derive(Debug, Clone, PartialEq, Eq)]
pub enum Invocation {
    /// Print the completion script for `shell`.
    Completion { shell: Shell },
    /// Run the self-update.
    SelfUpdate { yes: bool, check: bool },
    /// Open the TUI on `repository` (the current directory when `None`)
    /// with the log revset `revisions` (jj's own default when `None`).
    Launch { repository: Option<String>, revisions: Option<String> },
}

/// What `cli` asks for: the subcommand when there is one, else the TUI
/// with the repository and revset given.
pub open spec fn spec_run(cli: Cli, inv: Invocation) -> bool {
    match cli.command {
        Some(Commands::Completion { shell }) => inv == Invocation::Completion { shell },
        Some(Commands::SelfUpdate { yes, check }) => inv == Invocation::SelfUpdate { yes, check },
        None => match inv {
            Invocation::Launch { repository, revisions } => opt_string_view(repository) == opt_string_view(
                cli.repository,
            ) && opt_string_view(revisions) == opt_string_view(cli.revisions),
            _ => false,
        },
    }
}

/// What the command line `cli` asks for.
pub fn run(cli: Cli) -> (r: Invocation)
    ensures
        spec_run(cli, r),
{
    match cli.command {
        Some(Commands::Completion { shell }) => Invocation::Completion { shell },
        Some(Commands::SelfUpdate { yes, check }) => Invocation::SelfUpdate { yes, check },
        None => Invocation::Launch { repository: cli.repository, revisions: cli.revisions },
    }
}

} // verus!

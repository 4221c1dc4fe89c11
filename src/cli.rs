//! What the command line asks for.

use vstd::prelude::*;

verus! {

/// The command line: where to start, and an optional subcommand.
pub struct Cli {
    /// Solution file, project file, or a directory holding one.
    pub path: Option<std::path::PathBuf>,
    pub command: Option<Command>,
}

/// The subcommands.
pub enum Command {
    /// Run tests, optionally those whose names match a pattern.
    Run { filter: Option<String> },
    /// Run the tests changed by a pull request.
    Pr { url: String, path: Option<std::path::PathBuf>, no_tui: bool },
}

} // verus!

//! The commands of the tool, as plain values.
use vstd::prelude::*;

verus! {

/// The tool's command line: one command.
#[derive(Debug)]
pub struct Cli {
    pub commands: Commands,
}

/// The tool's commands.
#[allow(inconsistent_fields)]
#[derive(Debug)]
pub enum Commands {
    /// Add a repository's status file, or a directory holding one, to the watch list.
    Watch { file_path: String, repo_name: Option<String> },
    /// List every watched repository.
    ListAll,
    /// Stop watching a repository.
    Remove { repo_name: String },
    /// Start the background instance.
    Start,
    /// Stop the background instance.
    Stop,
}

} // verus!

//! The commands the tool runs: what a caller asks of the library, held
//! as plain values. The surrounding binary parses its command line into
//! these.
use vstd::prelude::*;

verus! {

/// One request to the tool.
pub enum Command {
    /// Show the items of a project board, filtered by status and
    /// optionally by assignee.
    List {
        url: String,
        user_session: String,
        github_session: String,
        status: String,
        user: Option<String>,
    },
    /// Show a user's latest contribution counts.
    Contributions { user: String, days: u32 },
}

/// The parsed command line: the one command to run.
pub struct Cli {
    pub cmd: Command,
}

} // verus!

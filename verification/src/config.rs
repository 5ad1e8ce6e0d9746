//! Sheet-level display configuration and the owner name.

use vstd::prelude::*;

verus! {

/// Display configuration carried by a timesheet: whether reports show git
/// commit details, an optional repository URL used to link commit hashes,
/// and the owner's name.
pub struct Config {
    pub show_commits: bool,
    pub repository: Option<String>,
    pub user_name: Option<String>,
}

impl Config {
    /// The default configuration: commits shown, no repository, no owner yet.
    pub fn new() -> (c: Config)
        ensures
            c.show_commits,
            c.repository is None,
            c.user_name is None,
    {
        Config { show_commits: true, repository: None, user_name: None }
    }
}

} // verus!

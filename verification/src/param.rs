//! The command line.

use vstd::prelude::*;

verus! {

/// The arguments of the command line.
#[derive(Debug)]
pub struct Args {
    /// The path of the configuration file.
    pub config: String,
}

impl Default for Args {
    /// The arguments of a command line that names nothing.
    fn default() -> (args: Args)
        ensures
            args.config@ == "/etc/leaderboard/leaderboard.toml"@,
    {
        Args { config: "/etc/leaderboard/leaderboard.toml".to_owned() }
    }
}

} // verus!

//! The configuration: read once at startup, never changed afterwards.

use crate::gate::Gate;
use vstd::prelude::*;

verus! {

/// The seconds between two periodic flushes where the configuration names
/// none.
pub const DEFAULT_FLUSH_INTERVAL: u64 = 5;

/// Where to listen.
#[derive(Debug)]
pub struct Listen {
    /// The address to bind.
    pub address: String,
    /// The port to bind.
    pub port: u16,
}

/// Where the history is kept, and who may add to it.
#[derive(Debug)]
pub struct Static {
    /// The path of the history's snapshot.
    pub data: String,
    /// The secret that a submission has to present.
    pub secret: String,
    /// The seconds between two periodic flushes.
    pub interval: u64,
}

/// What the pages say about the competition.
#[derive(Debug)]
pub struct Metadata {
    /// The year of the competition.
    pub year: u16,
}

/// The whole configuration.
#[derive(Debug)]
pub struct Config {
    pub listen: Listen,
    pub store: Static,
    pub meta: Metadata,
}

impl Static {
    /// The seconds to wait between two periodic flushes: the configured
    /// interval, and one second where it is zero.
    pub fn flush_period(&self) -> (secs: u64)
        ensures
            secs == (if self.interval == 0 {
                1
            } else {
                self.interval
            }),
            secs >= 1,
    {
        if self.interval == 0 {
            1
        } else {
            self.interval
        }
    }

    /// A submission gate that admits whoever presents the configured secret.
    pub fn gate(&self) -> (gate: Gate)
        ensures
            gate.secret() == self.secret@,
    {
        Gate::new(self.secret.clone())
    }
}

} // verus!

//! A competition scoreboard: per-team score histories, the leaderboard
//! derived from them, the checks that a submission passes, and the decisions of
//! the process that keeps the store on disk.
//!
//! Everything here works on plain values. Scores are finite binary64 numbers
//! held as the integers that order them; times are seconds and nanoseconds
//! since the Unix epoch.

pub mod assoc;
pub mod config;
pub mod error;
pub mod gate;
pub mod history;
pub mod leaderboard;
pub mod lifecycle;
pub mod param;
pub mod record;
pub mod score;
pub mod store;

//! Scores the contributors of a repository from its commit log and awards
//! one-time badges for patterns in that history.
//!
//! The crate is the computing core of such a tool. It turns the text of a
//! commit log into commit records, gives each commit its points, adds them
//! up by author, ranks the authors, and decides which badges a user has
//! newly earned against a ledger of earlier awards. Running the version
//! control tool and reading and writing the state files are left to the
//! caller, which hands text in and takes text back.
//!
//! - [`parser`] reads the log; [`timestamp`] reads its dates.
//! - [`score`] holds the points, the score table, the leaderboard and the
//!   text of the score file.
//! - [`badge`] holds the badges and their rules; [`award`] the ledger and
//!   the run that awards badges once.
//! - [`identity`] takes the user's name from the reply of the identity
//!   source.
//! - [`text`], [`number`] and [`counter`] are the tools of the others.

pub mod counter;
pub mod text;
pub mod number;
pub mod timestamp;
pub mod commit;
pub mod parser;
pub mod score;
pub mod badge;
pub mod award;
pub mod identity;

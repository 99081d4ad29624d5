//! Commit records.

use crate::timestamp::Timestamp;
use vstd::prelude::*;

verus! {

/// One commit of the log.
#[derive(Clone, Debug, PartialEq, Eq)]
pub struct Commit {
    /// Who made the commit. Authors are told apart by this text as it
    /// stands: case and whitespace count.
    pub author: String,
    /// When the commit was made.
    pub date: Timestamp,
    /// The first line of the commit message.
    pub message: String,
    /// Lines added, over all files of the commit.
    pub lines_added: u64,
    /// Lines deleted, over all files of the commit.
    pub lines_deleted: u64,
    /// The number of files with line counts.
    pub files_changed: u64,
}

/// A commit as the contracts speak of it.
pub struct CommitView {
    pub author: Seq<char>,
    pub date: Timestamp,
    pub message: Seq<char>,
    pub lines_added: nat,
    pub lines_deleted: nat,
    pub files_changed: nat,
}

impl View for Commit {
    type V = CommitView;

    open spec fn view(&self) -> CommitView {
        CommitView {
            author: self.author@,
            date: self.date,
            message: self.message@,
            lines_added: self.lines_added as nat,
            lines_deleted: self.lines_deleted as nat,
            files_changed: self.files_changed as nat,
        }
    }
}

/// Commits as the contracts speak of them, in the same order.
pub open spec fn commit_views(commits: Seq<Commit>) -> Seq<CommitView> {
    Seq::new(commits.len(), |i: int| commits[i]@)
}

} // verus!

//! Badges and the rules by which they are earned.
//!
//! A badge is earned by a user with a score and a history of commits. Some
//! badges go by the number of the user's commits, some by a word in one of
//! the user's commit messages, one by a run of consecutive days, some by
//! the score. A rule looks at nothing else: whether the badge was awarded
//! before is the ledger's business.

use crate::commit::{Commit, CommitView, commit_views};
use crate::text::{chars_of, contains, contains_text, lowercase_of};
use vstd::prelude::*;

verus! {

/// The badges, in the order in which they are judged and announced.
#[derive(Clone, Copy, Debug, PartialEq, Eq, Structural)]
pub enum Badge {
    FirstCommit,
    FirstMerge,
    FirstRevert,
    CodeReviewer,
    BugSquasher,
    FeatureImplementer,
    DocumentationWriter,
    RefactorMaster,
    CommitStreak,
    HundredCommits,
    FiveHundredCommits,
    ThousandPoints,
    FiveThousandPoints,
}

/// All badges, in the order in which they are judged and announced.
pub open spec fn all_badges() -> Seq<Badge> {
    seq![
        Badge::FirstCommit,
        Badge::FirstMerge,
        Badge::FirstRevert,
        Badge::CodeReviewer,
        Badge::BugSquasher,
        Badge::FeatureImplementer,
        Badge::DocumentationWriter,
        Badge::RefactorMaster,
        Badge::CommitStreak,
        Badge::HundredCommits,
        Badge::FiveHundredCommits,
        Badge::ThousandPoints,
        Badge::FiveThousandPoints,
    ]
}

/// The length of the run of days that earns the streak badge.
pub const STREAK_DAYS: usize = 7;

impl Badge {
    /// The name under which the badge is announced and kept in the ledger.
    pub open spec fn name_text(self) -> Seq<char> {
        match self {
            Badge::FirstCommit => "First Commit"@,
            Badge::FirstMerge => "First Merge"@,
            Badge::FirstRevert => "First Revert"@,
            Badge::CodeReviewer => "Code\x20Reviewer"@,
            Badge::BugSquasher => "Bug Squasher"@,
            Badge::FeatureImplementer => "Feature Implementer"@,
            Badge::DocumentationWriter => "Documentation Writer"@,
            Badge::RefactorMaster => "Refactor Master"@,
            Badge::CommitStreak => "Commit Streak"@,
            Badge::HundredCommits => "100 Commits"@,
            Badge::FiveHundredCommits => "500 Commits"@,
            Badge::ThousandPoints => "1000 Points"@,
            Badge::FiveThousandPoints => "5000 Points"@,
        }
    }

    /// The name under which the badge is announced and kept in the ledger.
    pub fn name(&self) -> (name: &'static str)
        ensures
            name@ == self.name_text(),
    {
        match self {
            Badge::FirstCommit => "First Commit",
            Badge::FirstMerge => "First Merge",
            Badge::FirstRevert => "First Revert",
            Badge::CodeReviewer => "Code\x20Reviewer",
            Badge::BugSquasher => "Bug Squasher",
            Badge::FeatureImplementer => "Feature Implementer",
            Badge::DocumentationWriter => "Documentation Writer",
            Badge::RefactorMaster => "Refactor Master",
            Badge::CommitStreak => "Commit Streak",
            Badge::HundredCommits => "100 Commits",
            Badge::FiveHundredCommits => "500 Commits",
            Badge::ThousandPoints => "1000 Points",
            Badge::FiveThousandPoints => "5000 Points",
        }
    }

    /// The words of which a commit message must hold one, in lower case,
    /// for a badge that is earned by a message. Other badges have none.
    pub open spec fn words_text(self) -> Seq<Seq<char>> {
        match self {
            Badge::FirstMerge => seq!["merge"@],
            Badge::FirstRevert => seq!["revert"@],
            Badge::CodeReviewer => seq!["merge pull request"@],
            Badge::BugSquasher => seq!["fix"@, "bug"@],
            Badge::FeatureImplementer => seq!["feature"@, "add"@],
            Badge::DocumentationWriter => seq!["doc"@],
            Badge::RefactorMaster => seq!["refactor"@, "clean up"@],
            _ => Seq::empty(),
        }
    }

    /// The words of which a commit message must hold one for the badge.
    pub fn words(&self) -> (words: Vec<&'static str>)
        ensures
            word_views(words@) == self.words_text(),
    {
        match self {
            Badge::FirstMerge => vec!["merge"],
            Badge::FirstRevert => vec!["revert"],
            Badge::CodeReviewer => vec!["merge pull request"],
            Badge::BugSquasher => vec!["fix", "bug"],
            Badge::FeatureImplementer => vec!["feature", "add"],
            Badge::DocumentationWriter => vec!["doc"],
            Badge::RefactorMaster => vec!["refactor", "clean up"],
            _ => Vec::new(),
        }
    }

    /// All badges, in the order in which they are judged and announced.
    pub fn all() -> (badges: Vec<Badge>)
        ensures
            badges@ == all_badges(),
    {
        vec![
            Badge::FirstCommit,
            Badge::FirstMerge,
            Badge::FirstRevert,
            Badge::CodeReviewer,
            Badge::BugSquasher,
            Badge::FeatureImplementer,
            Badge::DocumentationWriter,
            Badge::RefactorMaster,
            Badge::CommitStreak,
            Badge::HundredCommits,
            Badge::FiveHundredCommits,
            Badge::ThousandPoints,
            Badge::FiveThousandPoints,
        ]
    }
}

/// Words as the contracts speak of them.
pub open spec fn word_views(words: Seq<&'static str>) -> Seq<Seq<char>> {
    Seq::new(words.len(), |i: int| words[i]@)
}

/// Whether a text holds one of the words.
pub open spec fn holds_any(text: Seq<char>, words: Seq<Seq<char>>) -> bool {
    exists|k: int| 0 <= k < words.len() && contains_text(text, #[trigger] words[k])
}

/// Whether a message, put in lower case, holds one of the words.
pub open spec fn mentions_any(message: Seq<char>, words: Seq<Seq<char>>) -> bool {
    holds_any(lowercase_of(message), words)
}

/// Tests whether a text holds one of the words.
pub fn holds_one_of(lowered: &[char], words: &[&'static str]) -> (yes: bool)
    ensures
        yes == holds_any(lowered@, word_views(words@)),
{
    let mut k: usize = 0;
    while k < words.len()
        invariant
            k <= words@.len(),
            forall|j: int|
                0 <= j < k ==> !contains_text(lowered@, #[trigger] word_views(words@)[j]),
        decreases words@.len() - k,
    {
        let word = chars_of(words[k]);
        if contains(lowered, word.as_slice()) {
            assert(contains_text(lowered@, word_views(words@)[k as int]));
            return true;
        }
        k += 1;
    }
    false
}

/// Whether the user has a commit whose message, put in lower case, holds
/// one of the words.
pub open spec fn wrote_about(
    commits: Seq<CommitView>,
    user: Seq<char>,
    words: Seq<Seq<char>>,
) -> bool {
    exists|i: int|
        0 <= i < commits.len() && (#[trigger] commits[i]).author == user && mentions_any(
            commits[i].message,
            words,
        )
}

/// The days of the user's commits, in the order of the log.
pub open spec fn days_of(commits: Seq<CommitView>, user: Seq<char>) -> Seq<i32>
    decreases commits.len(),
{
    if commits.len() == 0 {
        Seq::empty()
    } else {
        let before = days_of(commits.drop_last(), user);
        if commits.last().author == user {
            before.push(commits.last().date.day)
        } else {
            before
        }
    }
}

/// Whether the day at place `at + 1` is the day before the day at place
/// `at`.
pub open spec fn steps_back(days: Seq<i32>, at: int) -> bool {
    days[at] - days[at + 1] == 1
}

/// Whether the `run` days from place `from` on are consecutive, latest
/// first: each is the day before the one listed before it.
pub open spec fn consecutive(days: Seq<i32>, from: int, run: int) -> bool {
    &&& 0 <= from
    &&& from + run <= days.len()
    &&& forall|j: int| from <= j < from + run - 1 ==> #[trigger] steps_back(days, j)
}

/// Whether the days hold a run of the given length.
pub open spec fn has_streak(days: Seq<i32>, run: int) -> bool {
    exists|from: int| consecutive(days, from, run)
}

/// The length of the run of consecutive days that ends at place `at`.
pub open spec fn run_ending(days: Seq<i32>, at: int) -> nat
    decreases at,
{
    if at > 0 && steps_back(days, at - 1) {
        run_ending(days, at - 1) + 1
    } else {
        1
    }
}

/// A run of a given length ends at a place just when the days up to that
/// place are that many consecutive days.
pub proof fn lemma_run_ending(days: Seq<i32>, at: int, run: int)
    requires
        0 <= at < days.len(),
        run >= 1,
    ensures
        run_ending(days, at) >= run <==> consecutive(days, at - run + 1, run),
    decreases run,
{
    if run > 1 && at > 0 {
        lemma_run_ending(days, at - 1, run - 1);
    }
}

/// Tests whether the days hold a run of the given length.
pub fn has_run(days: &[i32], run: usize) -> (yes: bool)
    ensures
        yes == has_streak(days@, run as int),
{
    if run == 0 {
        assert(consecutive(days@, 0, 0));
        return true;
    }
    if days.len() == 0 {
        return false;
    }
    let len: usize = days.len();
    let mut at: usize = 0;
    let mut current: usize = 1;
    loop
        invariant
            run >= 1,
            at < days@.len() == len,
            1 <= current <= at + 1,
            current == run_ending(days@, at as int),
            forall|k: int| 0 <= k < at ==> run_ending(days@, k) < run,
        decreases days@.len() - at,
    {
        if current >= run {
            proof {
                lemma_run_ending(days@, at as int, run as int);
            }
            return true;
        }
        if at + 1 == len {
            proof {
                assert forall|from: int| !consecutive(days@, from, run as int) by {
                    if consecutive(days@, from, run as int) {
                        lemma_run_ending(days@, from + run - 1, run as int);
                    }
                }
            }
            return false;
        }
        at += 1;
        if days[at - 1] as i64 - days[at] as i64 == 1 {
            current += 1;
        } else {
            current = 1;
        }
    }
}

/// The days of the user's commits, in the order of the log.
pub fn commit_days(user: &str, commits: &[Commit]) -> (days: Vec<i32>)
    ensures
        days@ == days_of(commit_views(commits@), user@),
{
    let name: String = user.to_owned();
    let ghost all = commit_views(commits@);
    let mut days: Vec<i32> = Vec::new();
    let mut at: usize = 0;
    while at < commits.len()
        invariant
            at <= commits@.len(),
            all == commit_views(commits@),
            name@ == user@,
            days@ == days_of(all.take(at as int), user@),
        decreases commits@.len() - at,
    {
        assert(all.take(at as int + 1).drop_last() =~= all.take(at as int));
        if commits[at].author == name {
            days.push(commits[at].date.day);
        }
        at += 1;
    }
    assert(all.take(at as int) =~= all);
    days
}

/// Tests whether the user has a commit whose message, put in lower case,
/// holds one of the words.
pub fn has_written_about(user: &str, commits: &[Commit], words: &[&'static str]) -> (yes: bool)
    ensures
        yes == wrote_about(commit_views(commits@), user@, word_views(words@)),
{
    let name: String = user.to_owned();
    let ghost all = commit_views(commits@);
    let mut at: usize = 0;
    while at < commits.len()
        invariant
            at <= commits@.len(),
            all == commit_views(commits@),
            name@ == user@,
            forall|i: int|
                0 <= i < at ==> !((#[trigger] all[i]).author == user@ && mentions_any(
                    all[i].message,
                    word_views(words@),
                )),
        decreases commits@.len() - at,
    {
        if commits[at].author == name {
            let lowered = chars_of(commits[at].message.as_str().to_lowercase().as_str());
            if holds_one_of(lowered.as_slice(), words) {
                assert(all[at as int].author == user@ && mentions_any(
                    all[at as int].message,
                    word_views(words@),
                ));
                return true;
            }
        }
        at += 1;
    }
    false
}

/// Whether the user has earned the badge with this score and these
/// commits.
pub open spec fn earned(
    badge: Badge,
    user: Seq<char>,
    score: nat,
    commits: Seq<CommitView>,
) -> bool {
    match badge {
        Badge::FirstCommit => days_of(commits, user).len() == 1,
        Badge::HundredCommits => days_of(commits, user).len() >= 100,
        Badge::FiveHundredCommits => days_of(commits, user).len() >= 500,
        Badge::CommitStreak => has_streak(days_of(commits, user), STREAK_DAYS as int),
        Badge::ThousandPoints => score >= 1000,
        Badge::FiveThousandPoints => score >= 5000,
        Badge::FirstMerge
        | Badge::FirstRevert
        | Badge::CodeReviewer
        | Badge::BugSquasher
        | Badge::FeatureImplementer
        | Badge::DocumentationWriter
        | Badge::RefactorMaster => wrote_about(commits, user, badge.words_text()),
    }
}

/// Judges one badge: whether the user has earned it with this score and
/// these commits.
pub fn evaluate(badge: Badge, user: &str, score: u64, commits: &[Commit]) -> (yes: bool)
    ensures
        yes == earned(badge, user@, score as nat, commit_views(commits@)),
{
    match badge {
        Badge::FirstCommit => commit_days(user, commits).len() == 1,
        Badge::HundredCommits => commit_days(user, commits).len() >= 100,
        Badge::FiveHundredCommits => commit_days(user, commits).len() >= 500,
        Badge::CommitStreak => has_run(commit_days(user, commits).as_slice(), STREAK_DAYS),
        Badge::ThousandPoints => score >= 1000,
        Badge::FiveThousandPoints => score >= 5000,
        Badge::FirstMerge
        | Badge::FirstRevert
        | Badge::CodeReviewer
        | Badge::BugSquasher
        | Badge::FeatureImplementer
        | Badge::DocumentationWriter
        | Badge::RefactorMaster => has_written_about(user, commits, badge.words().as_slice()),
    }
}

} // verus!

use git_gamification::award::{badge_line, check_badges, Ledger};
use git_gamification::badge::{
    commit_days, evaluate, has_run, has_written_about, holds_one_of, Badge, STREAK_DAYS,
};
use git_gamification::commit::Commit;
use git_gamification::text::chars_of;
use git_gamification::timestamp::Timestamp;

fn commit(author: &str, day: i32, message: &str) -> Commit {
    Commit {
        author: author.to_string(),
        date: Timestamp { day, second: 0 },
        message: message.to_string(),
        lines_added: 1,
        lines_deleted: 0,
        files_changed: 1,
    }
}

fn on_days(author: &str, days: &[i32]) -> Vec<Commit> {
    days.iter().map(|&day| commit(author, day, "work")).collect()
}

fn ledger_of(lines: &[&str]) -> Ledger {
    Ledger::from_lines(lines.iter().map(|line| line.to_string()).collect())
}

#[test]
fn badge_names_in_order() {
    let names: Vec<&str> = Badge::all().iter().map(|badge| badge.name()).collect();
    assert_eq!(
        names,
        vec![
            "First Commit",
            "First Merge",
            "First Revert",
            "Code\x20Reviewer",
            "Bug Squasher",
            "Feature Implementer",
            "Documentation Writer",
            "Refactor Master",
            "Commit Streak",
            "100 Commits",
            "500 Commits",
            "1000 Points",
            "5000 Points",
        ]
    );
}

#[test]
fn words_of_the_message_badges() {
    assert_eq!(Badge::FirstMerge.words(), vec!["merge"]);
    assert_eq!(Badge::FirstRevert.words(), vec!["revert"]);
    assert_eq!(Badge::CodeReviewer.words(), vec!["merge pull request"]);
    assert_eq!(Badge::BugSquasher.words(), vec!["fix", "bug"]);
    assert_eq!(Badge::FeatureImplementer.words(), vec!["feature", "add"]);
    assert_eq!(Badge::DocumentationWriter.words(), vec!["doc"]);
    assert_eq!(Badge::RefactorMaster.words(), vec!["refactor", "clean up"]);
    assert_eq!(Badge::FirstCommit.words(), Vec::<&str>::new());
    assert_eq!(Badge::CommitStreak.words(), Vec::<&str>::new());
    assert_eq!(Badge::ThousandPoints.words(), Vec::<&str>::new());
}

#[test]
fn fix_login_bug_is_a_bug_squasher_and_no_feature() {
    let commits = vec![commit("A", 10, "Fix login bug")];
    assert!(evaluate(Badge::BugSquasher, "A", 0, &commits));
    assert!(!evaluate(Badge::FeatureImplementer, "A", 0, &commits));
}

#[test]
fn messages_are_matched_without_regard_to_case() {
    let commits = vec![commit("A", 10, "MERGE Pull Request #4"), commit("A", 9, "ReFaCtOr things")];
    assert!(evaluate(Badge::FirstMerge, "A", 0, &commits));
    assert!(evaluate(Badge::CodeReviewer, "A", 0, &commits));
    assert!(evaluate(Badge::RefactorMaster, "A", 0, &commits));
    assert!(!evaluate(Badge::FirstRevert, "A", 0, &commits));
    assert!(!evaluate(Badge::DocumentationWriter, "A", 0, &commits));
}

#[test]
fn each_word_of_a_badge_earns_it() {
    let one = |message: &str, badge: Badge| evaluate(badge, "A", 0, &[commit("A", 1, message)]);
    assert!(one("squash a Bug", Badge::BugSquasher));
    assert!(one("prefix", Badge::BugSquasher));
    assert!(one("new Feature", Badge::FeatureImplementer));
    assert!(one("Add tests", Badge::FeatureImplementer));
    assert!(one("padding", Badge::FeatureImplementer));
    assert!(one("update Docs", Badge::DocumentationWriter));
    assert!(one("Clean up imports", Badge::RefactorMaster));
    assert!(!one("cleanup imports", Badge::RefactorMaster));
    assert!(one("Revert \"x\"", Badge::FirstRevert));
    assert!(one("Merge branch 'main'", Badge::FirstMerge));
    assert!(!one("Merge branch 'main'", Badge::CodeReviewer));
    assert!(!one("merge  pull request", Badge::CodeReviewer));
    assert!(!one("", Badge::FirstMerge));
}

#[test]
fn lower_case_is_that_of_unicode() {
    let one = |message: &str, badge: Badge| evaluate(badge, "A", 0, &[commit("A", 1, message)]);
    assert!(one("\u{212A}ILL BUG", Badge::BugSquasher));
    assert!(one("FI\u{0058}", Badge::BugSquasher));
    assert!(!one("ＦＩＸ", Badge::BugSquasher));
}

#[test]
fn only_the_users_own_messages_count() {
    let commits = vec![commit("B", 10, "Fix login bug"), commit("A", 9, "tidy")];
    assert!(!evaluate(Badge::BugSquasher, "A", 0, &commits));
    assert!(evaluate(Badge::BugSquasher, "B", 0, &commits));
    assert!(!evaluate(Badge::BugSquasher, "b", 0, &commits));
    assert!(has_written_about("B", &commits, &["login"]));
    assert!(!has_written_about("B", &commits, &["Login"]));
    assert!(!has_written_about("B", &commits, &[]));
}

#[test]
fn words_in_a_lowered_message() {
    assert!(holds_one_of(&chars_of("fix login bug"), &["fix", "bug"]));
    assert!(holds_one_of(&chars_of("a bug"), &["fix", "bug"]));
    assert!(!holds_one_of(&chars_of("fix login bug"), &["feature", "add"]));
    assert!(!holds_one_of(&chars_of("fix login bug"), &[]));
    assert!(!holds_one_of(&chars_of("Fix"), &["fix"]));
}

#[test]
fn first_commit_needs_exactly_one() {
    assert!(!evaluate(Badge::FirstCommit, "A", 0, &[]));
    assert!(evaluate(Badge::FirstCommit, "A", 0, &on_days("A", &[5])));
    assert!(!evaluate(Badge::FirstCommit, "A", 0, &on_days("A", &[5, 4])));
    let mut mixed = on_days("B", &[9, 8, 7]);
    mixed.extend(on_days("A", &[6]));
    assert!(evaluate(Badge::FirstCommit, "A", 0, &mixed));
    assert!(!evaluate(Badge::FirstCommit, "B", 0, &mixed));
    assert!(!evaluate(Badge::FirstCommit, "C", 0, &mixed));
}

#[test]
fn commit_count_badges() {
    let ninety_nine = on_days("A", &[1; 99]);
    let hundred = on_days("A", &[1; 100]);
    let four_ninety_nine = on_days("A", &[1; 499]);
    let five_hundred = on_days("A", &[1; 500]);
    assert!(!evaluate(Badge::HundredCommits, "A", 0, &ninety_nine));
    assert!(evaluate(Badge::HundredCommits, "A", 0, &hundred));
    assert!(evaluate(Badge::HundredCommits, "A", 0, &four_ninety_nine));
    assert!(!evaluate(Badge::FiveHundredCommits, "A", 0, &four_ninety_nine));
    assert!(evaluate(Badge::FiveHundredCommits, "A", 0, &five_hundred));
    assert!(!evaluate(Badge::HundredCommits, "B", 0, &five_hundred));
}

#[test]
fn point_badges() {
    assert!(!evaluate(Badge::ThousandPoints, "A", 999, &[]));
    assert!(evaluate(Badge::ThousandPoints, "A", 1000, &[]));
    assert!(evaluate(Badge::ThousandPoints, "A", 4999, &[]));
    assert!(!evaluate(Badge::FiveThousandPoints, "A", 4999, &[]));
    assert!(evaluate(Badge::FiveThousandPoints, "A", 5000, &[]));
    assert!(evaluate(Badge::FiveThousandPoints, "A", u64::MAX, &[]));
}

#[test]
fn seven_consecutive_days_latest_first_are_a_streak() {
    let commits = on_days("A", &[107, 106, 105, 104, 103, 102, 101]);
    assert!(evaluate(Badge::CommitStreak, "A", 0, &commits));
    assert_eq!(STREAK_DAYS, 7);
}

#[test]
fn a_gap_breaks_the_streak() {
    for gap_after in 0..6usize {
        let mut days: Vec<i32> = Vec::new();
        let mut day: i32 = 200;
        for i in 0..7usize {
            days.push(day);
            day -= if i == gap_after { 8 } else { 1 };
        }
        assert!(!evaluate(Badge::CommitStreak, "A", 0, &on_days("A", &days)));
    }
}

#[test]
fn a_streak_after_a_gap_counts_from_one() {
    assert!(evaluate(Badge::CommitStreak, "A", 0, &on_days("A", &[120, 119, 111, 110, 109, 108, 107, 106, 105])));
    assert!(!evaluate(Badge::CommitStreak, "A", 0, &on_days("A", &[120, 119, 118, 110, 109, 108, 107, 106, 105])));
}

#[test]
fn streaks_go_by_the_order_of_the_log() {
    assert!(!evaluate(Badge::CommitStreak, "A", 0, &on_days("A", &[101, 102, 103, 104, 105, 106, 107])));
    assert!(!evaluate(Badge::CommitStreak, "A", 0, &on_days("A", &[107, 106, 106, 105, 104, 103, 102])));
    assert!(!evaluate(Badge::CommitStreak, "A", 0, &on_days("A", &[106, 105, 104, 103, 102, 101])));
    assert!(!evaluate(Badge::CommitStreak, "A", 0, &[]));
}

#[test]
fn streaks_skip_the_commits_of_others() {
    let mut commits: Vec<Commit> = Vec::new();
    for day in (101..=107).rev() {
        commits.push(commit("A", day, "work"));
        commits.push(commit("B", 50, "other"));
    }
    assert!(evaluate(Badge::CommitStreak, "A", 0, &commits));
    assert!(!evaluate(Badge::CommitStreak, "B", 0, &commits));
    assert_eq!(commit_days("A", &commits), vec![107, 106, 105, 104, 103, 102, 101]);
    assert_eq!(commit_days("B", &commits), vec![50; 7]);
    assert_eq!(commit_days("C", &commits), Vec::<i32>::new());
}

#[test]
fn runs_of_days() {
    assert!(has_run(&[], 0));
    assert!(!has_run(&[], 1));
    assert!(has_run(&[5], 1));
    assert!(!has_run(&[5], 2));
    assert!(has_run(&[5, 4], 2));
    assert!(!has_run(&[4, 5], 2));
    assert!(has_run(&[9, 5, 4, 3, 1], 3));
    assert!(!has_run(&[9, 5, 4, 3, 1], 4));
    assert!(has_run(&[i32::MIN + 1, i32::MIN], 2));
    assert!(!has_run(&[i32::MAX, i32::MIN], 2));
    assert!(!has_run(&[i32::MIN, i32::MAX], 2));
}

#[test]
fn ledger_lines() {
    assert_eq!(badge_line("alice", Badge::FirstCommit), "alice:First Commit");
    assert_eq!(badge_line("Bob B", Badge::FiveThousandPoints), "Bob B:5000 Points");
    assert_eq!(badge_line("", Badge::CommitStreak), ":Commit Streak");
}

#[test]
fn ledger_holds_what_was_put_in() {
    let mut ledger = Ledger::new();
    assert!(!ledger.contains("alice:First Commit"));
    ledger.record("alice:First Commit".to_string());
    assert!(ledger.contains("alice:First Commit"));
    assert!(!ledger.contains("alice:First Merge"));
    assert!(!ledger.contains("alice:First Commit "));
    let loaded = ledger_of(&["bob:100 Commits", "no colon here", "", "bob:100 Commits"]);
    assert!(loaded.contains("bob:100 Commits"));
    assert!(loaded.contains("no colon here"));
    assert!(loaded.contains(""));
    assert!(!loaded.contains("bob"));
    assert_eq!(loaded.lines().len(), 4);
}

#[test]
fn first_commit_in_the_ledger_is_not_awarded_again() {
    let mut ledger = ledger_of(&["alice:First Commit"]);
    let commits = vec![commit("alice", 10, "start")];
    let earned = check_badges("alice", 6, &commits, &mut ledger);
    assert_eq!(earned, Vec::<Badge>::new());
    assert_eq!(ledger.lines(), &["alice:First Commit".to_string()]);
}

#[test]
fn badges_are_awarded_once() {
    let mut ledger = Ledger::new();
    let mut commits = on_days("alice", &[107, 106, 105, 104, 103, 102, 101]);
    commits.push(commit("alice", 90, "Fix the docs, add a feature"));
    commits.push(commit("bob", 90, "Revert it"));
    let first = check_badges("alice", 1200, &commits, &mut ledger);
    assert_eq!(
        first,
        vec![
            Badge::BugSquasher,
            Badge::FeatureImplementer,
            Badge::DocumentationWriter,
            Badge::CommitStreak,
            Badge::ThousandPoints,
        ]
    );
    let kept: Vec<String> = first.iter().map(|&badge| badge_line("alice", badge)).collect();
    assert_eq!(ledger.lines(), kept.as_slice());
    let second = check_badges("alice", 1200, &commits, &mut ledger);
    assert_eq!(second, Vec::<Badge>::new());
    assert_eq!(ledger.lines(), kept.as_slice());
    let reloaded_lines: Vec<String> = ledger.lines().to_vec();
    let mut reloaded = Ledger::from_lines(reloaded_lines);
    assert_eq!(check_badges("alice", 1200, &commits, &mut reloaded), Vec::<Badge>::new());
}

#[test]
fn badges_of_one_user_do_not_stop_those_of_another() {
    let mut ledger = ledger_of(&["alice:First Commit"]);
    let commits = vec![commit("alice", 10, "start"), commit("bob", 9, "start")];
    assert_eq!(check_badges("bob", 0, &commits, &mut ledger), vec![Badge::FirstCommit]);
    assert!(ledger.contains("bob:First Commit"));
    assert!(ledger.contains("alice:First Commit"));
    assert_eq!(ledger.lines().len(), 2);
}

#[test]
fn a_later_run_awards_what_was_earned_since() {
    let mut ledger = Ledger::new();
    let commits = vec![commit("alice", 10, "start")];
    assert_eq!(check_badges("alice", 6, &commits, &mut ledger), vec![Badge::FirstCommit]);
    let more = vec![commit("alice", 11, "Merge pull request #1"), commit("alice", 10, "start")];
    assert_eq!(
        check_badges("alice", 5000, &more, &mut ledger),
        vec![Badge::FirstMerge, Badge::CodeReviewer, Badge::ThousandPoints, Badge::FiveThousandPoints]
    );
    assert_eq!(check_badges("alice", 5000, &more, &mut ledger), Vec::<Badge>::new());
    assert_eq!(ledger.lines().len(), 5);
}

#[test]
fn nothing_earned_nothing_kept() {
    let mut ledger = Ledger::new();
    assert_eq!(check_badges("alice", 0, &[], &mut ledger), Vec::<Badge>::new());
    assert_eq!(ledger.lines().len(), 0);
}

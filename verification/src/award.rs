//! Awards: the ledger of badges awarded so far, and the run that awards
//! what is newly earned.
//!
//! The ledger holds one line for each award, the user, a colon and the name
//! of the badge. A run judges every badge for one user, awards those that
//! are earned and not in the ledger, and adds their lines at its end. So a
//! badge that was awarded is never awarded again.

use crate::badge::{all_badges, earned, evaluate, Badge};
use crate::commit::{Commit, CommitView, commit_views};
use vstd::prelude::*;
use vstd::string::StringExecFns;

verus! {

/// The line that keeps an award in the ledger: the user, a colon and the
/// name of the badge.
pub open spec fn badge_key(user: Seq<char>, badge: Badge) -> Seq<char> {
    user + seq![':'] + badge.name_text()
}

/// The line that keeps an award in the ledger.
pub fn badge_line(user: &str, badge: Badge) -> (line: String)
    ensures
        line@ == badge_key(user@, badge),
{
    let mut line: String = user.to_owned();
    line.push(':');
    line.append(badge.name());
    assert(line@ =~= badge_key(user@, badge));
    line
}

/// The awards made so far, one line each, oldest first.
#[derive(Debug)]
pub struct Ledger {
    lines: Vec<String>,
}

impl View for Ledger {
    type V = Set<Seq<char>>;

    /// The lines that the ledger holds, as a set.
    open spec fn view(&self) -> Set<Seq<char>> {
        self.entries().to_set()
    }
}

/// Lines as the contracts speak of them.
pub open spec fn line_views(lines: Seq<String>) -> Seq<Seq<char>> {
    Seq::new(lines.len(), |i: int| lines[i]@)
}

impl Ledger {
    /// The lines of the ledger, oldest first.
    pub closed spec fn entries(&self) -> Seq<Seq<char>> {
        line_views(self.lines@)
    }

    /// A ledger without awards.
    pub fn new() -> (ledger: Ledger)
        ensures
            ledger.entries() == Seq::<Seq<char>>::empty(),
    {
        let ledger = Ledger { lines: Vec::new() };
        assert(ledger.entries() =~= Seq::<Seq<char>>::empty());
        ledger
    }

    /// The ledger that holds the given lines, in their order.
    pub fn from_lines(lines: Vec<String>) -> (ledger: Ledger)
        ensures
            ledger.entries() == line_views(lines@),
    {
        Ledger { lines }
    }

    /// Whether the ledger holds the line.
    pub fn contains(&self, line: &str) -> (yes: bool)
        ensures
            yes == self@.contains(line@),
    {
        let wanted: String = line.to_owned();
        let mut at: usize = 0;
        while at < self.lines.len()
            invariant
                at <= self.lines@.len(),
                wanted@ == line@,
                forall|i: int| 0 <= i < at ==> (#[trigger] self.entries()[i]) != line@,
            decreases self.lines@.len() - at,
        {
            if self.lines[at] == wanted {
                assert(self.entries()[at as int] == line@);
                return true;
            }
            at += 1;
        }
        false
    }

    /// Adds a line at the end of the ledger.
    pub fn record(&mut self, line: String)
        ensures
            final(self).entries() == old(self).entries().push(line@),
    {
        self.lines.push(line);
        assert(self.entries() =~= old(self).entries().push(line@));
    }

    /// The lines of the ledger, oldest first.
    pub fn lines(&self) -> (lines: &[String])
        ensures
            line_views(lines@) == self.entries(),
    {
        self.lines.as_slice()
    }
}

/// Whether a badge is due: the ledger does not hold it for the user, and
/// the user has earned it.
pub open spec fn due(
    badge: Badge,
    user: Seq<char>,
    score: nat,
    commits: Seq<CommitView>,
    ledger: Set<Seq<char>>,
) -> bool {
    !ledger.contains(badge_key(user, badge)) && earned(badge, user, score, commits)
}

/// Those of the given badges that are due, in their order.
pub open spec fn awards_among(
    badges: Seq<Badge>,
    user: Seq<char>,
    score: nat,
    commits: Seq<CommitView>,
    ledger: Set<Seq<char>>,
) -> Seq<Badge>
    decreases badges.len(),
{
    if badges.len() == 0 {
        Seq::empty()
    } else {
        let before = awards_among(badges.drop_last(), user, score, commits, ledger);
        if due(badges.last(), user, score, commits, ledger) {
            before.push(badges.last())
        } else {
            before
        }
    }
}

/// The badges to award to the user in one run: those that are due, in the
/// order of the badges.
pub open spec fn awards(
    user: Seq<char>,
    score: nat,
    commits: Seq<CommitView>,
    ledger: Set<Seq<char>>,
) -> Seq<Badge> {
    awards_among(all_badges(), user, score, commits, ledger)
}

/// The lines that keep the given badges for the user, in the order of the
/// badges.
pub open spec fn award_lines(user: Seq<char>, badges: Seq<Badge>) -> Seq<Seq<char>> {
    Seq::new(badges.len(), |i: int| badge_key(user, badges[i]))
}

/// The ledger after a run: what it held, and a line for each award of the
/// run.
pub open spec fn ledger_after(
    user: Seq<char>,
    score: nat,
    commits: Seq<CommitView>,
    ledger: Set<Seq<char>>,
) -> Set<Seq<char>> {
    ledger.union(award_lines(user, awards(user, score, commits, ledger)).to_set())
}

/// Judges every badge for the user and returns those newly earned, in the
/// order of the badges. A badge that the ledger holds for the user is not
/// awarded again. Each award is recorded at the end of the ledger, in the
/// same order, as the line that `badge_line` gives.
pub fn check_badges(user: &str, score: u64, commits: &[Commit], ledger: &mut Ledger) -> (earned:
    Vec<Badge>)
    ensures
        earned@ == awards(user@, score as nat, commit_views(commits@), old(ledger)@),
        final(ledger).entries() == old(ledger).entries() + award_lines(user@, earned@),
        final(ledger)@ == ledger_after(user@, score as nat, commit_views(commits@), old(ledger)@),
{
    let badges = Badge::all();
    let ghost all = commit_views(commits@);
    let mut earned: Vec<Badge> = Vec::new();
    let mut at: usize = 0;
    assert(badges@.take(0) =~= Seq::<Badge>::empty());
    while at < badges.len()
        invariant
            at <= badges@.len(),
            badges@ == all_badges(),
            all == commit_views(commits@),
            *ledger == *old(ledger),
            earned@ == awards_among(badges@.take(at as int), user@, score as nat, all, ledger@),
        decreases badges@.len() - at,
    {
        let badge = badges[at];
        assert(badges@.take(at as int + 1).drop_last() =~= badges@.take(at as int));
        let line = badge_line(user, badge);
        if !ledger.contains(line.as_str()) && evaluate(badge, user, score, commits) {
            earned.push(badge);
        }
        at += 1;
    }
    assert(badges@.take(at as int) =~= badges@);
    let mut kept: usize = 0;
    assert(ledger.entries() + award_lines(user@, earned@.take(0)) =~= ledger.entries());
    while kept < earned.len()
        invariant
            kept <= earned@.len(),
            ledger.entries() == old(ledger).entries() + award_lines(
                user@,
                earned@.take(kept as int),
            ),
        decreases earned@.len() - kept,
    {
        ledger.record(badge_line(user, earned[kept]));
        kept += 1;
    }
    proof {
        lemma_lines_joined(old(ledger).entries(), award_lines(user@, earned@));
    }
    earned
}

/// The lines of two runs of lines put together are the lines of the one
/// and the lines of the other.
proof fn lemma_lines_joined(first: Seq<Seq<char>>, second: Seq<Seq<char>>)
    ensures
        (first + second).to_set() == first.to_set().union(second.to_set()),
{
    assert forall|line: Seq<char>|
        (first + second).to_set().contains(line) == first.to_set().union(
            second.to_set(),
        ).contains(line) by {
        if (first + second).contains(line) {
            let i = choose|i: int| 0 <= i < (first + second).len() && (first + second)[i] == line;
            if i < first.len() {
                assert(first[i] == line);
            } else {
                assert(second[i - first.len()] == line);
            }
        }
        if first.contains(line) {
            let i = choose|i: int| 0 <= i < first.len() && first[i] == line;
            assert((first + second)[i] == line);
        }
        if second.contains(line) {
            let i = choose|i: int| 0 <= i < second.len() && second[i] == line;
            assert((first + second)[i + first.len()] == line);
        }
    }
}

/// Every badge among the awards is due, and every badge that is due is
/// among the awards.
pub proof fn lemma_awards_among(
    badges: Seq<Badge>,
    user: Seq<char>,
    score: nat,
    commits: Seq<CommitView>,
    ledger: Set<Seq<char>>,
)
    ensures
        forall|i: int|
            0 <= i < awards_among(badges, user, score, commits, ledger).len() ==> due(
                #[trigger] awards_among(badges, user, score, commits, ledger)[i],
                user,
                score,
                commits,
                ledger,
            ),
        forall|i: int|
            0 <= i < badges.len() && due(#[trigger] badges[i], user, score, commits, ledger)
                ==> awards_among(badges, user, score, commits, ledger).contains(badges[i]),
        (forall|i: int|
            0 <= i < badges.len() ==> !due(#[trigger] badges[i], user, score, commits, ledger))
            ==> awards_among(badges, user, score, commits, ledger) == Seq::<Badge>::empty(),
    decreases badges.len(),
{
    if badges.len() > 0 {
        let front = badges.drop_last();
        let before = awards_among(front, user, score, commits, ledger);
        let now = awards_among(badges, user, score, commits, ledger);
        lemma_awards_among(front, user, score, commits, ledger);
        assert forall|i: int|
            0 <= i < badges.len() && due(
                #[trigger] badges[i],
                user,
                score,
                commits,
                ledger,
            ) implies now.contains(badges[i]) by {
            if i < front.len() {
                assert(front[i] == badges[i]);
                let k = choose|k: int| 0 <= k < before.len() && before[k] == badges[i];
                assert(now[k] == badges[i]);
            } else {
                assert(now[now.len() - 1] == badges[i]);
            }
        }
    }
}

/// A badge is awarded once. The first of two runs on the same commits and
/// the same score awards every badge that is due. The second, on the ledger
/// that the first has left, awards nothing and leaves the ledger as it
/// is. No run takes a line out of the ledger.
pub proof fn lemma_badges_awarded_once(
    user: Seq<char>,
    score: nat,
    commits: Seq<CommitView>,
    ledger: Set<Seq<char>>,
)
    ensures
        forall|i: int|
            0 <= i < all_badges().len() ==> (awards(user, score, commits, ledger).contains(
                #[trigger] all_badges()[i],
            ) <==> due(all_badges()[i], user, score, commits, ledger)),
        awards(user, score, commits, ledger_after(user, score, commits, ledger)) == Seq::<
            Badge,
        >::empty(),
        ledger_after(user, score, commits, ledger_after(user, score, commits, ledger))
            == ledger_after(user, score, commits, ledger),
        ledger.subset_of(ledger_after(user, score, commits, ledger)),
{
    let first = awards(user, score, commits, ledger);
    let after = ledger_after(user, score, commits, ledger);
    lemma_awards_among(all_badges(), user, score, commits, ledger);
    lemma_awards_among(all_badges(), user, score, commits, after);
    assert forall|i: int| 0 <= i < all_badges().len() implies !due(
        #[trigger] all_badges()[i],
        user,
        score,
        commits,
        after,
    ) by {
        let badge = all_badges()[i];
        if due(badge, user, score, commits, ledger) {
            let k = choose|k: int| 0 <= k < first.len() && first[k] == badge;
            assert(award_lines(user, first)[k] == badge_key(user, badge));
        }
    }
}

/// No two badges have the same name.
pub proof fn lemma_names_differ(a: Badge, b: Badge)
    requires
        a != b,
    ensures
        a.name_text() != b.name_text(),
{
    reveal_strlit("First Commit");
    reveal_strlit("First Merge");
    reveal_strlit("First Revert");
    reveal_strlit("Code\x20Reviewer");
    reveal_strlit("Bug Squasher");
    reveal_strlit("Feature Implementer");
    reveal_strlit("Documentation Writer");
    reveal_strlit("Refactor Master");
    reveal_strlit("Commit Streak");
    reveal_strlit("100 Commits");
    reveal_strlit("500 Commits");
    reveal_strlit("1000 Points");
    reveal_strlit("5000 Points");
    if a.name_text().len() == b.name_text().len() {
        assert(a.name_text()[0] != b.name_text()[0] || a.name_text()[6] != b.name_text()[6]);
    }
}

/// No two badges have the same line for one user.
pub proof fn lemma_lines_differ(user: Seq<char>, a: Badge, b: Badge)
    requires
        a != b,
    ensures
        badge_key(user, a) != badge_key(user, b),
{
    lemma_names_differ(a, b);
    assert(badge_key(user, a).skip(user.len() as int + 1) =~= a.name_text());
    assert(badge_key(user, b).skip(user.len() as int + 1) =~= b.name_text());
}

/// The awards among badges that are all different are all different, and
/// each is one of those badges.
proof fn lemma_awards_distinct(
    badges: Seq<Badge>,
    user: Seq<char>,
    score: nat,
    commits: Seq<CommitView>,
    ledger: Set<Seq<char>>,
)
    requires
        badges.no_duplicates(),
    ensures
        awards_among(badges, user, score, commits, ledger).no_duplicates(),
        forall|i: int|
            0 <= i < awards_among(badges, user, score, commits, ledger).len() ==> badges.contains(
                #[trigger] awards_among(badges, user, score, commits, ledger)[i],
            ),
    decreases badges.len(),
{
    if badges.len() > 0 {
        lemma_awards_distinct(badges.drop_last(), user, score, commits, ledger);
    }
}

/// A ledger in which no line stands twice stays so through a run: the
/// lines that the run adds are new to it and differ from each other.
pub proof fn lemma_ledger_stays_distinct(
    user: Seq<char>,
    score: nat,
    commits: Seq<CommitView>,
    entries: Seq<Seq<char>>,
)
    requires
        entries.no_duplicates(),
    ensures
        (entries + award_lines(
            user,
            awards(user, score, commits, entries.to_set()),
        )).no_duplicates(),
{
    let ledger = entries.to_set();
    let earned = awards(user, score, commits, ledger);
    let all = entries + award_lines(user, earned);
    lemma_awards_distinct(all_badges(), user, score, commits, ledger);
    lemma_awards_among(all_badges(), user, score, commits, ledger);
    assert forall|i: int, j: int| 0 <= i < all.len() && 0 <= j < all.len() && i != j implies all[i]
        != all[j] by {
        let n = entries.len() as int;
        if i >= n && j >= n {
            lemma_lines_differ(user, earned[i - n], earned[j - n]);
        }
    }
}

} // verus!

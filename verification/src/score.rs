//! Points for a commit and the score of each author.

use crate::commit::{Commit, CommitView, commit_views};
use crate::counter::{add_capped, capped, lemma_capped_add, lemma_capped_monotonic};
use crate::number::{decimal, push_decimal};
use vstd::prelude::*;
use vstd::string::StringExecFns;

verus! {

/// The points of a commit: one for each line added, one for every two
/// lines deleted, five for each file changed.
pub open spec fn points_for(added: nat, deleted: nat, files: nat) -> nat {
    added + deleted / 2 + files * 5
}

/// The points of a commit with the given counts.
pub fn calculate_points(lines_added: u64, lines_deleted: u64, files_changed: u64) -> (points: u64)
    ensures
        points == capped(
            points_for(lines_added as nat, lines_deleted as nat, files_changed as nat),
        ),
{
    let for_files: u64 = if files_changed > u64::MAX / 5 {
        u64::MAX
    } else {
        files_changed * 5
    };
    let for_lines: u64 = add_capped(lines_added, lines_deleted / 2);
    proof {
        lemma_capped_add(lines_added as nat + lines_deleted as nat / 2, files_changed as nat * 5);
    }
    add_capped(for_lines, for_files)
}

/// More lines added, more lines deleted or more files changed never give
/// fewer points.
pub proof fn lemma_points_monotonic(
    added: nat,
    deleted: nat,
    files: nat,
    more_added: nat,
    more_deleted: nat,
    more_files: nat,
)
    requires
        added <= more_added,
        deleted <= more_deleted,
        files <= more_files,
    ensures
        points_for(added, deleted, files) <= points_for(more_added, more_deleted, more_files),
        capped(points_for(added, deleted, files)) <= capped(
            points_for(more_added, more_deleted, more_files),
        ),
{
    lemma_capped_monotonic(
        points_for(added, deleted, files),
        points_for(more_added, more_deleted, more_files),
    );
}

/// The points of one commit.
pub open spec fn commit_points(commit: CommitView) -> nat {
    points_for(commit.lines_added, commit.lines_deleted, commit.files_changed)
}

/// What one commit adds to the score of an author.
pub open spec fn share_of(commit: CommitView, author: Seq<char>) -> nat {
    if commit.author == author {
        commit_points(commit)
    } else {
        0
    }
}

/// The points of all commits of an author.
pub open spec fn score_of(commits: Seq<CommitView>, author: Seq<char>) -> nat
    decreases commits.len(),
{
    if commits.len() == 0 {
        0
    } else {
        score_of(commits.drop_last(), author) + share_of(commits.last(), author)
    }
}

/// Whether an author has a commit.
pub open spec fn wrote(commits: Seq<CommitView>, author: Seq<char>) -> bool {
    exists|i: int| 0 <= i < commits.len() && (#[trigger] commits[i]).author == author
}

/// The score of every author who has a commit.
pub open spec fn score_table(commits: Seq<CommitView>) -> Map<Seq<char>, nat> {
    Map::new(
        |author: Seq<char>| wrote(commits, author),
        |author: Seq<char>| capped(score_of(commits, author)),
    )
}

/// The authors of the commits, each once, in the order of their first
/// commits.
pub open spec fn authors_of(commits: Seq<CommitView>) -> Seq<Seq<char>>
    decreases commits.len(),
{
    if commits.len() == 0 {
        Seq::empty()
    } else {
        let before = authors_of(commits.drop_last());
        if before.contains(commits.last().author) {
            before
        } else {
            before.push(commits.last().author)
        }
    }
}

/// A row of a score table: an author and a score.
pub type Row = (Seq<char>, nat);

/// The rows of the score table of the commits: one for each author, in the
/// order of their first commits.
pub open spec fn score_rows(commits: Seq<CommitView>) -> Seq<Row> {
    Seq::new(
        authors_of(commits).len(),
        |i: int| (authors_of(commits)[i], capped(score_of(commits, authors_of(commits)[i]))),
    )
}

/// Whether a row for the author is among the rows.
pub open spec fn listed(rows: Seq<Row>, author: Seq<char>) -> bool {
    exists|i: int| 0 <= i < rows.len() && (#[trigger] rows[i]).0 == author
}

/// The score in the row for the author.
pub open spec fn score_in(rows: Seq<Row>, author: Seq<char>) -> nat {
    let i = choose|i: int| 0 <= i < rows.len() && (#[trigger] rows[i]).0 == author;
    rows[i].1
}

/// Whether no two rows are for the same author.
pub open spec fn distinct_authors(rows: Seq<Row>) -> bool {
    forall|i: int, j: int|
        0 <= i < rows.len() && 0 <= j < rows.len() && i != j ==> (#[trigger] rows[i]).0 != (
        #[trigger] rows[j]).0
}

/// One author with a score.
#[derive(Clone, Debug, PartialEq, Eq)]
pub struct ScoreEntry {
    pub author: String,
    pub score: u64,
}

/// Entries as rows.
pub open spec fn rows_of(entries: Seq<ScoreEntry>) -> Seq<Row> {
    Seq::new(entries.len(), |i: int| (entries[i].author@, entries[i].score as nat))
}

/// The authors of the commits are those, and only those, who wrote one, and
/// none is listed twice.
pub proof fn lemma_authors_of(commits: Seq<CommitView>)
    ensures
        authors_of(commits).no_duplicates(),
        forall|author: Seq<char>| #[trigger]
            authors_of(commits).contains(author) <==> wrote(commits, author),
    decreases commits.len(),
{
    if commits.len() > 0 {
        let front = commits.drop_last();
        let last = commits.last();
        lemma_authors_of(front);
        assert forall|author: Seq<char>| #[trigger]
            authors_of(commits).contains(author) <==> wrote(commits, author) by {
            if wrote(commits, author) {
                let i = choose|i: int| 0 <= i < commits.len() && (#[trigger] commits[i]).author
                    == author;
                if i < front.len() {
                    assert(front[i].author == author);
                    assert(authors_of(front).contains(author));
                }
                if authors_of(front).contains(last.author) {
                } else {
                    assert(authors_of(front).push(last.author).last() == last.author);
                    if i < front.len() {
                        let k = choose|k: int|
                            0 <= k < authors_of(front).len() && authors_of(front)[k] == author;
                        assert(authors_of(front).push(last.author)[k] == author);
                    }
                }
            }
            if authors_of(front).contains(author) {
                let i = choose|i: int| 0 <= i < front.len() && (#[trigger] front[i]).author
                    == author;
                assert(commits[i].author == author);
            }
        }
    }
}

/// An author without a commit has no points.
pub proof fn lemma_no_commit_no_score(commits: Seq<CommitView>, author: Seq<char>)
    requires
        !wrote(commits, author),
    ensures
        score_of(commits, author) == 0,
    decreases commits.len(),
{
    if commits.len() > 0 {
        lemma_no_commit_no_score(commits.drop_last(), author);
    }
}

/// The scores of authors: one entry for each author. No author has two
/// entries.
#[derive(Debug)]
pub struct ScoreTable {
    entries: Vec<ScoreEntry>,
}

impl View for ScoreTable {
    type V = Map<Seq<char>, nat>;

    /// The score of every author of the table.
    open spec fn view(&self) -> Map<Seq<char>, nat> {
        Map::new(
            |author: Seq<char>| listed(self.rows(), author),
            |author: Seq<char>| score_in(self.rows(), author),
        )
    }
}

impl ScoreTable {
    /// The rows of the table, in its order.
    pub closed spec fn rows(&self) -> Seq<Row> {
        rows_of(self.entries@)
    }

    /// What holds of every table: no author has two rows.
    #[verifier::type_invariant]
    spec fn no_author_twice(&self) -> bool {
        distinct_authors(rows_of(self.entries@))
    }

    /// The entries of the table, in its order.
    pub fn entries(&self) -> (entries: &[ScoreEntry])
        ensures
            rows_of(entries@) == self.rows(),
            distinct_authors(self.rows()),
    {
        proof {
            use_type_invariant(self);
        }
        self.entries.as_slice()
    }

    /// The score of an author, 0 for one without an entry.
    pub fn score_of(&self, author: &str) -> (score: u64)
        ensures
            score == if self@.contains_key(author@) {
                self@[author@]
            } else {
                0
            },
    {
        proof {
            use_type_invariant(self);
        }
        let name: String = author.to_owned();
        match position(&self.entries, &name) {
            Some(k) => self.entries[k].score,
            None => 0,
        }
    }
}

/// Finds the entry of an author.
fn position(entries: &Vec<ScoreEntry>, author: &String) -> (found: Option<usize>)
    ensures
        match found {
            Some(k) => k < entries@.len() && rows_of(entries@)[k as int].0 == author@,
            None => !listed(rows_of(entries@), author@),
        },
{
    let mut k: usize = 0;
    while k < entries.len()
        invariant
            k <= entries@.len(),
            forall|j: int| 0 <= j < k ==> (#[trigger] rows_of(entries@)[j]).0 != author@,
        decreases entries@.len() - k,
    {
        if entries[k].author == *author {
            return Some(k);
        }
        k += 1;
    }
    None
}

/// Adds up the points of every commit under its author.
pub fn calculate_scores(commits: &[Commit]) -> (table: ScoreTable)
    ensures
        table.rows() == score_rows(commit_views(commits@)),
        table@ == score_table(commit_views(commits@)),
{
    let ghost all = commit_views(commits@);
    let mut entries: Vec<ScoreEntry> = Vec::new();
    let mut at: usize = 0;
    while at < commits.len()
        invariant
            at <= commits@.len(),
            all == commit_views(commits@),
            rows_of(entries@) == score_rows(all.take(at as int)),
        decreases commits@.len() - at,
    {
        let commit = &commits[at];
        let points = calculate_points(
            commit.lines_added,
            commit.lines_deleted,
            commit.files_changed,
        );
        let ghost seen = all.take(at as int);
        let ghost next = all.take(at as int + 1);
        let ghost old_rows = rows_of(entries@);
        proof {
            assert(next.drop_last() =~= seen);
            lemma_authors_of(seen);
            assert(old_rows.len() == authors_of(seen).len());
        }
        match position(&entries, &commit.author) {
            Some(k) => {
                let entry = ScoreEntry {
                    author: commit.author.clone(),
                    score: add_capped(entries[k].score, points),
                };
                entries.set(k, entry);
                proof {
                    lemma_capped_add(score_of(seen, commit@.author), commit_points(commit@));
                    lemma_capped_add(
                        score_of(seen, commit@.author),
                        capped(commit_points(commit@)),
                    );
                    assert forall|j: int| 0 <= j < authors_of(next).len() implies rows_of(
                        entries@,
                    )[j] == score_rows(next)[j] by {
                        if j != k {
                            assert(rows_of(entries@)[j] == old_rows[j]);
                        }
                    }
                }
            },
            None => {
                entries.push(ScoreEntry { author: commit.author.clone(), score: points });
                proof {
                    assert(!authors_of(seen).contains(commit@.author)) by {
                        if authors_of(seen).contains(commit@.author) {
                            let k = choose|k: int|
                                0 <= k < authors_of(seen).len() && authors_of(seen)[k]
                                    == commit@.author;
                            assert(old_rows[k].0 == commit@.author);
                        }
                    }
                    lemma_no_commit_no_score(seen, commit@.author);
                    assert forall|j: int| 0 <= j < authors_of(next).len() implies rows_of(
                        entries@,
                    )[j] == score_rows(next)[j] by {
                        if j < authors_of(seen).len() {
                            assert(rows_of(entries@)[j] == old_rows[j]);
                        }
                    }
                }
            },
        }
        at += 1;
    }
    proof {
        assert(all.take(at as int) =~= all);
        lemma_score_rows(all);
    }
    ScoreTable { entries }
}

/// The rows of a log's score table list each author once, and give the
/// score of every author with a commit.
pub proof fn lemma_score_rows(commits: Seq<CommitView>)
    ensures
        distinct_authors(score_rows(commits)),
        forall|author: Seq<char>| #[trigger]
            listed(score_rows(commits), author) <==> wrote(commits, author),
        forall|author: Seq<char>|
            wrote(commits, author) ==> #[trigger] score_in(score_rows(commits), author)
                == capped(score_of(commits, author)),
        Map::new(
            |author: Seq<char>| listed(score_rows(commits), author),
            |author: Seq<char>| score_in(score_rows(commits), author),
        ) == score_table(commits),
{
    let rows = score_rows(commits);
    let authors = authors_of(commits);
    lemma_authors_of(commits);
    assert forall|author: Seq<char>| #[trigger]
        listed(rows, author) <==> wrote(commits, author) by {
        if listed(rows, author) {
            let i = choose|i: int| 0 <= i < rows.len() && (#[trigger] rows[i]).0 == author;
            assert(authors.contains(author));
        }
        if wrote(commits, author) {
            assert(authors.contains(author));
            let i = choose|i: int| 0 <= i < authors.len() && authors[i] == author;
            assert(rows[i].0 == author);
        }
    }
    assert forall|author: Seq<char>| wrote(commits, author) implies #[trigger] score_in(
        rows,
        author,
    ) == capped(score_of(commits, author)) by {
        assert(listed(rows, author));
    }
}

/// Taking one commit out of a log takes its share out of the score.
pub proof fn lemma_score_remove(commits: Seq<CommitView>, at: int, author: Seq<char>)
    requires
        0 <= at < commits.len(),
    ensures
        score_of(commits, author) == score_of(commits.remove(at), author) + share_of(
            commits[at],
            author,
        ),
    decreases commits.len(),
{
    if at < commits.len() - 1 {
        lemma_score_remove(commits.drop_last(), at, author);
        assert(commits.remove(at).drop_last() =~= commits.drop_last().remove(at));
    }
}

/// The score of an author is the same for the same commits in another
/// order.
pub proof fn lemma_score_permuted(
    first: Seq<CommitView>,
    second: Seq<CommitView>,
    author: Seq<char>,
)
    requires
        first.to_multiset() == second.to_multiset(),
    ensures
        score_of(first, author) == score_of(second, author),
    decreases first.len(),
{
    vstd::seq_lib::to_multiset_len(first);
    vstd::seq_lib::to_multiset_len(second);
    if first.len() > 0 {
        let last = first.last();
        vstd::seq_lib::to_multiset_contains(first, last);
        vstd::seq_lib::to_multiset_contains(second, last);
        let at = choose|at: int| 0 <= at < second.len() && second[at] == last;
        vstd::seq_lib::to_multiset_remove(first, first.len() - 1);
        vstd::seq_lib::to_multiset_remove(second, at);
        lemma_score_permuted(first.drop_last(), second.remove(at), author);
        lemma_score_remove(second, at, author);
    }
}

/// The score table does not depend on the order of the commits: the same
/// commits, each as often, in any order give the same table.
pub proof fn lemma_scores_order_independent(first: Seq<CommitView>, second: Seq<CommitView>)
    requires
        first.to_multiset() == second.to_multiset(),
    ensures
        score_table(first) == score_table(second),
{
    assert forall|author: Seq<char>| wrote(first, author) == wrote(second, author) by {
        if wrote(first, author) {
            lemma_same_authors(first, second, author);
        }
        if wrote(second, author) {
            lemma_same_authors(second, first, author);
        }
    }
    assert forall|author: Seq<char>|
        capped(score_of(first, author)) == capped(score_of(second, author)) by {
        lemma_score_permuted(first, second, author);
    }
}

/// Who wrote a commit of a log wrote one of the same commits in another
/// order.
proof fn lemma_same_authors(first: Seq<CommitView>, second: Seq<CommitView>, author: Seq<char>)
    requires
        first.to_multiset() == second.to_multiset(),
        wrote(first, author),
    ensures
        wrote(second, author),
{
    let i = choose|i: int| 0 <= i < first.len() && (#[trigger] first[i]).author == author;
    vstd::seq_lib::to_multiset_contains(first, first[i]);
    vstd::seq_lib::to_multiset_contains(second, first[i]);
    let k = choose|k: int| 0 <= k < second.len() && second[k] == first[i];
}

/// The place of the row that leads: the first of those with the highest
/// score.
pub open spec fn leader(rows: Seq<Row>) -> int
    decreases rows.len(),
{
    if rows.len() <= 1 {
        0
    } else {
        let best = leader(rows.drop_last());
        if rows.last().1 > rows[best].1 {
            rows.len() - 1
        } else {
            best
        }
    }
}

/// The first `limit` rows of the ranking: the leader, then the leader of
/// the rows that are left, and so on. Rows with the same score keep the
/// order they have in the table.
pub open spec fn ranking(rows: Seq<Row>, limit: nat) -> Seq<Row>
    decreases limit,
{
    if limit == 0 || rows.len() == 0 {
        Seq::empty()
    } else {
        seq![rows[leader(rows)]] + ranking(rows.remove(leader(rows)), (limit - 1) as nat)
    }
}

/// No row has a higher score than the leader, and no row before it has the
/// same.
pub proof fn lemma_leader(rows: Seq<Row>)
    requires
        rows.len() > 0,
    ensures
        0 <= leader(rows) < rows.len(),
        forall|i: int| 0 <= i < rows.len() ==> (#[trigger] rows[i]).1 <= rows[leader(rows)].1,
        forall|i: int| 0 <= i < leader(rows) ==> (#[trigger] rows[i]).1 < rows[leader(rows)].1,
    decreases rows.len(),
{
    if rows.len() > 1 {
        lemma_leader(rows.drop_last());
        assert forall|i: int| 0 <= i < rows.len() implies (#[trigger] rows[i]).1 <= rows[leader(
            rows,
        )].1 by {
            if i < rows.len() - 1 {
                assert(rows.drop_last()[i] == rows[i]);
            }
        }
        assert forall|i: int| 0 <= i < leader(rows) implies (#[trigger] rows[i]).1 < rows[leader(
            rows,
        )].1 by {
            if i < rows.len() - 1 {
                assert(rows.drop_last()[i] == rows[i]);
            }
        }
    }
}

/// A ranking holds `limit` rows, or all where there are fewer; each is a
/// row of the table; and no row has a higher score than one before it.
pub proof fn lemma_ranking(rows: Seq<Row>, limit: nat)
    ensures
        ranking(rows, limit).len() == if limit <= rows.len() {
            limit
        } else {
            rows.len()
        },
        forall|i: int|
            0 <= i < ranking(rows, limit).len() ==> rows.contains(
                #[trigger] ranking(rows, limit)[i],
            ),
        forall|i: int, j: int|
            0 <= i <= j < ranking(rows, limit).len() ==> (#[trigger] ranking(rows, limit)[i]).1 >= (
            #[trigger] ranking(rows, limit)[j]).1,
    decreases limit,
{
    if limit > 0 && rows.len() > 0 {
        lemma_leader(rows);
        lemma_ranking(rows.remove(leader(rows)), (limit - 1) as nat);
    }
}

/// The number of authors that a leaderboard shows.
pub const LEADERBOARD_SIZE: usize = 10;

/// The leaderboard: the ten entries with the highest scores, highest
/// first, or all entries where there are fewer. Entries with the same score
/// keep the order they have in the table.
pub fn leaderboard(table: &ScoreTable) -> (board: Vec<ScoreEntry>)
    ensures
        rows_of(board@) == ranking(table.rows(), LEADERBOARD_SIZE as nat),
        board@.len() == if table.rows().len() < LEADERBOARD_SIZE {
            table.rows().len()
        } else {
            LEADERBOARD_SIZE as nat
        },
        forall|i: int, j: int|
            0 <= i <= j < board@.len() ==> (#[trigger] board@[i]).score >= (
            #[trigger] board@[j]).score,
{
    let entries = table.entries();
    let ghost rows = table.rows();
    let mut left: Vec<usize> = Vec::new();
    let mut n: usize = 0;
    while n < entries.len()
        invariant
            n <= entries@.len(),
            left@.len() == n,
            forall|i: int| 0 <= i < n ==> left@[i] == i,
        decreases entries@.len() - n,
    {
        left.push(n);
        n += 1;
    }
    let mut board: Vec<ScoreEntry> = Vec::new();
    assert(left_rows(rows, left@) =~= rows);
    while board.len() < LEADERBOARD_SIZE && left.len() > 0
        invariant
            rows == rows_of(entries@),
            board@.len() <= LEADERBOARD_SIZE,
            forall|i: int| 0 <= i < left@.len() ==> (#[trigger] left@[i]) < entries@.len(),
            rows_of(board@) + ranking(
                left_rows(rows, left@),
                (LEADERBOARD_SIZE - board@.len()) as nat,
            ) == ranking(rows, LEADERBOARD_SIZE as nat),
        decreases left@.len(),
    {
        let ghost candidates = left_rows(rows, left@);
        let mut best: usize = 0;
        let mut k: usize = 1;
        while k < left.len()
            invariant
                1 <= k <= left@.len(),
                best < k,
                rows == rows_of(entries@),
                candidates == left_rows(rows, left@),
                forall|i: int| 0 <= i < left@.len() ==> (#[trigger] left@[i]) < entries@.len(),
                best == leader(candidates.take(k as int)),
            decreases left@.len() - k,
        {
            assert(candidates.take(k as int + 1).drop_last() =~= candidates.take(k as int));
            if entries[left[k]].score > entries[left[best]].score {
                best = k;
            }
            k += 1;
        }
        assert(candidates.take(k as int) =~= candidates);
        let which: usize = left.remove(best);
        board.push(
            ScoreEntry { author: entries[which].author.clone(), score: entries[which].score },
        );
        assert(left_rows(rows, left@) =~= candidates.remove(best as int));
    }
    proof {
        lemma_ranking(rows, LEADERBOARD_SIZE as nat);
        assert forall|i: int, j: int| 0 <= i <= j < board@.len() implies (
        #[trigger] board@[i]).score >= (#[trigger] board@[j]).score by {
            assert(rows_of(board@)[i].1 >= rows_of(board@)[j].1);
        }
    }
    board
}

/// The rows at the given places of a table.
pub open spec fn left_rows(rows: Seq<Row>, places: Seq<usize>) -> Seq<Row> {
    Seq::new(places.len(), |i: int| rows[places[i] as int])
}

/// The line that keeps a row in the score file: the author, a colon, the
/// score in decimal digits and a line feed.
pub open spec fn score_line(row: Row) -> Seq<char> {
    row.0 + seq![':'] + decimal(row.1) + seq!['\n']
}

/// The text of the score file for the rows: the line of each row, in their
/// order.
pub open spec fn rows_text(rows: Seq<Row>) -> Seq<char>
    decreases rows.len(),
{
    if rows.len() == 0 {
        Seq::empty()
    } else {
        rows_text(rows.drop_last()) + score_line(rows.last())
    }
}

/// The text of the score file for a table: one line for each author, in
/// the order of the table.
pub fn scores_text(table: &ScoreTable) -> (text: String)
    ensures
        text@ == rows_text(table.rows()),
{
    let entries = table.entries();
    let ghost rows = table.rows();
    let mut text = String::new();
    let mut at: usize = 0;
    while at < entries.len()
        invariant
            at <= entries@.len(),
            rows == rows_of(entries@),
            text@ == rows_text(rows.take(at as int)),
        decreases entries@.len() - at,
    {
        text.append(entries[at].author.as_str());
        text.push(':');
        push_decimal(&mut text, entries[at].score);
        text.push('\n');
        assert(rows.take(at as int + 1).drop_last() =~= rows.take(at as int));
        at += 1;
    }
    assert(rows.take(at as int) =~= rows);
    text
}

} // verus!

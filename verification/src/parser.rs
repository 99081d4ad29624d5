//! Reading a commit log.
//!
//! A log is a run of records. A record is four lines, the commit's
//! identifier, its author, its date and the first line of its message,
//! then any number of lines with line counts, one per file. An empty line
//! closes the record; the last record needs none.
//!
//! A line with line counts holds the lines added, the lines deleted and
//! the path, with whitespace between them. Only its first two words are
//! read. A word that writes no number counts as 0, and a line with such a
//! word among its first two stands for no changed file. A line of fewer
//! than two words is passed over.

use crate::commit::{Commit, CommitView, commit_views};
use crate::counter::{add_capped, capped, lemma_capped_add};
use crate::number::{count_of, number_in, read_number};
use crate::text::{
    chars_of, line_spans, lines_of, past_spaces, past_word, span_texts, spans_within,
    string_of, words_from, words_of,
};
use crate::timestamp::{stamp_view, timestamp_of, Timestamp};
use vstd::prelude::*;
use vstd::slice::slice_subrange;

verus! {

/// What one line of line counts gives.
pub struct StatView {
    /// The lines added: what the first word writes, 0 where it writes no
    /// number.
    pub added: nat,
    /// The lines deleted: what the second word writes, 0 where it writes
    /// no number.
    pub deleted: nat,
    /// Whether the line stands for a changed file: both words write a
    /// number.
    pub file: bool,
}

/// What a line of line counts gives. A line of fewer than two words gives
/// nothing. A line whose first two words do not both write a number, such
/// as the line of a binary file, stands for no changed file.
pub open spec fn stat_of(line: Seq<char>) -> Option<StatView> {
    let words = words_of(line);
    if words.len() >= 2 {
        Some(
            StatView {
                added: count_of(words[0]),
                deleted: count_of(words[1]),
                file: number_in(words[0]) is Some && number_in(words[1]) is Some,
            },
        )
    } else {
        None
    }
}

/// What one line of line counts gives.
#[derive(Clone, Copy, Debug, PartialEq, Eq)]
pub struct Stat {
    pub added: u32,
    pub deleted: u32,
    pub file: bool,
}

impl View for Stat {
    type V = StatView;

    open spec fn view(&self) -> StatView {
        StatView { added: self.added as nat, deleted: self.deleted as nat, file: self.file }
    }
}

/// Reads a line of line counts.
pub fn read_stat(line: &[char]) -> (stat: Option<Stat>)
    ensures
        match stat {
            Some(found) => stat_of(line@) == Some(found@),
            None => stat_of(line@) is None,
        },
{
    let first = past_spaces(line, 0);
    let first_end = past_word(line, first);
    let second = past_spaces(line, first_end);
    let second_end = past_word(line, second);
    proof {
        reveal_with_fuel(words_from, 3);
    }
    if first == first_end || second == second_end {
        return None;
    }
    let added = read_number(slice_subrange(line, first, first_end));
    let deleted = read_number(slice_subrange(line, second, second_end));
    Some(
        Stat {
            added: match added {
                Some(n) => n,
                None => 0,
            },
            deleted: match deleted {
                Some(n) => n,
                None => 0,
            },
            file: added.is_some() && deleted.is_some(),
        },
    )
}

/// What the lines of line counts of one commit add up to.
pub struct StatTotals {
    pub added: nat,
    pub deleted: nat,
    pub files: nat,
}

/// The totals of a block of lines: the lines added and deleted that its
/// lines give, and the number of its lines that stand for a changed file.
pub open spec fn totals_of(lines: Seq<Seq<char>>) -> StatTotals
    decreases lines.len(),
{
    if lines.len() == 0 {
        StatTotals { added: 0, deleted: 0, files: 0 }
    } else {
        let before = totals_of(lines.drop_last());
        match stat_of(lines.last()) {
            Some(stat) => StatTotals {
                added: before.added + stat.added,
                deleted: before.deleted + stat.deleted,
                files: if stat.file {
                    before.files + 1
                } else {
                    before.files
                },
            },
            None => before,
        }
    }
}

/// The first empty line at or after `from`, or the number of lines.
pub open spec fn block_end(lines: Seq<Seq<char>>, from: int) -> int
    decreases lines.len() - from,
{
    if 0 <= from < lines.len() && lines[from].len() > 0 {
        block_end(lines, from + 1)
    } else {
        from
    }
}

/// One record of the log, its date still as text.
#[derive(Clone, Debug, PartialEq, Eq)]
pub struct LogRecord {
    pub author: String,
    pub date: String,
    pub message: String,
    pub lines_added: u64,
    pub lines_deleted: u64,
    pub files_changed: u64,
}

/// A record as the contracts speak of it.
pub struct LogRecordView {
    pub author: Seq<char>,
    pub date: Seq<char>,
    pub message: Seq<char>,
    pub lines_added: nat,
    pub lines_deleted: nat,
    pub files_changed: nat,
}

impl View for LogRecord {
    type V = LogRecordView;

    open spec fn view(&self) -> LogRecordView {
        LogRecordView {
            author: self.author@,
            date: self.date@,
            message: self.message@,
            lines_added: self.lines_added as nat,
            lines_deleted: self.lines_deleted as nat,
            files_changed: self.files_changed as nat,
        }
    }
}

/// Records as the contracts speak of them, in the same order.
pub open spec fn record_views(records: Seq<LogRecord>) -> Seq<LogRecordView> {
    Seq::new(records.len(), |i: int| records[i]@)
}

/// The record whose four header lines start at line `from` and whose line
/// counts end before line `stop`.
pub open spec fn record_at(lines: Seq<Seq<char>>, from: int, stop: int) -> LogRecordView {
    let totals = totals_of(lines.subrange(from + 4, stop));
    LogRecordView {
        author: lines[from + 1],
        date: lines[from + 2],
        message: lines[from + 3],
        lines_added: capped(totals.added),
        lines_deleted: capped(totals.deleted),
        files_changed: totals.files,
    }
}

/// The records that start at line `from` or later. Fewer than four lines
/// make no record.
pub open spec fn records_from(lines: Seq<Seq<char>>, from: int) -> Seq<LogRecordView>
    decreases lines.len() - from,
{
    let stop = block_end(lines, from + 4);
    if 0 <= from && from + 4 <= stop < lines.len() {
        seq![record_at(lines, from, stop)] + records_from(lines, stop + 1)
    } else if 0 <= from && from + 4 <= stop == lines.len() {
        seq![record_at(lines, from, stop)]
    } else {
        Seq::empty()
    }
}

/// The records of a log, in its order.
pub open spec fn log_records(text: Seq<char>) -> Seq<LogRecordView> {
    records_from(lines_of(text), 0)
}

/// Splits a log into its records.
pub fn read_records(text: &str) -> (records: Vec<LogRecord>)
    ensures
        record_views(records@) == log_records(text@),
{
    let chars = chars_of(text);
    let spans = line_spans(&chars);
    let ghost lines = lines_of(chars@);
    let count: usize = spans.len();
    let mut records: Vec<LogRecord> = Vec::new();
    let mut at: usize = 0;
    while count >= 4 && at <= count - 4
        invariant
            count == spans@.len() == lines.len(),
            at <= count,
            lines == span_texts(chars@, spans@),
            spans_within(spans@, chars@.len()),
            record_views(records@) + records_from(lines, at as int) == records_from(lines, 0),
        decreases count - at,
    {
        let author = string_of(&chars, spans[at + 1].start, spans[at + 1].end);
        let date = string_of(&chars, spans[at + 2].start, spans[at + 2].end);
        let message = string_of(&chars, spans[at + 3].start, spans[at + 3].end);
        let start: usize = at + 4;
        let mut stop: usize = start;
        let mut added: u64 = 0;
        let mut deleted: u64 = 0;
        let mut files: u64 = 0;
        while stop < count && spans[stop].start < spans[stop].end
            invariant
                count == spans@.len() == lines.len(),
                start <= stop <= count,
                lines == span_texts(chars@, spans@),
                spans_within(spans@, chars@.len()),
                block_end(lines, stop as int) == block_end(lines, start as int),
                added == capped(totals_of(lines.subrange(start as int, stop as int)).added),
                deleted == capped(totals_of(lines.subrange(start as int, stop as int)).deleted),
                files == totals_of(lines.subrange(start as int, stop as int)).files,
                files <= stop - start,
            decreases count - stop,
        {
            let line = slice_subrange(chars.as_slice(), spans[stop].start, spans[stop].end);
            let ghost block = lines.subrange(start as int, stop as int);
            assert(lines.subrange(start as int, stop as int + 1).drop_last() =~= block);
            match read_stat(line) {
                Some(stat) => {
                    proof {
                        lemma_capped_add(totals_of(block).added, stat.added as nat);
                        lemma_capped_add(totals_of(block).deleted, stat.deleted as nat);
                    }
                    added = add_capped(added, stat.added as u64);
                    deleted = add_capped(deleted, stat.deleted as u64);
                    if stat.file {
                        files = files + 1;
                    }
                },
                None => {},
            }
            stop += 1;
        }
        records.push(
            LogRecord {
                author,
                date,
                message,
                lines_added: added,
                lines_deleted: deleted,
                files_changed: files,
            },
        );
        if stop < count {
            at = stop + 1;
        } else {
            at = stop;
        }
    }
    records
}

/// A record whose date line could not be read.
#[derive(Clone, Debug, PartialEq, Eq)]
pub struct DateError {
    /// The place of the record in the log, counted from 0.
    pub record: usize,
    /// The date line as the log has it.
    pub text: String,
    /// Why it was refused.
    pub reason: String,
}

/// A date error as the contracts speak of it.
pub struct DateErrorView {
    pub record: nat,
    pub text: Seq<char>,
    pub reason: Seq<char>,
}

impl View for DateError {
    type V = DateErrorView;

    open spec fn view(&self) -> DateErrorView {
        DateErrorView { record: self.record as nat, text: self.text@, reason: self.reason@ }
    }
}

/// The commit that a record makes with the timestamp read from its date
/// line, or the error where none was read.
pub open spec fn dated(
    record: LogRecordView,
    index: nat,
    stamp: Result<Timestamp, Seq<char>>,
) -> Result<CommitView, DateErrorView> {
    match stamp {
        Ok(date) => Ok(
            CommitView {
                author: record.author,
                date,
                message: record.message,
                lines_added: record.lines_added,
                lines_deleted: record.lines_deleted,
                files_changed: record.files_changed,
            },
        ),
        Err(reason) => Err(DateErrorView { record: index, text: record.date, reason }),
    }
}

/// The outcome for one record as the contracts speak of it.
pub open spec fn dated_view(outcome: Result<Commit, DateError>) -> Result<
    CommitView,
    DateErrorView,
> {
    match outcome {
        Ok(commit) => Ok(commit@),
        Err(error) => Err(error@),
    }
}

/// Makes the commit of a record from the timestamp read from its date line.
pub fn dated_commit(record: &LogRecord, index: usize, stamp: Result<Timestamp, String>) -> (outcome:
    Result<Commit, DateError>)
    ensures
        dated_view(outcome) == dated(record@, index as nat, stamp_view(stamp)),
{
    match stamp {
        Ok(date) => Ok(
            Commit {
                author: record.author.clone(),
                date,
                message: record.message.clone(),
                lines_added: record.lines_added,
                lines_deleted: record.lines_deleted,
                files_changed: record.files_changed,
            },
        ),
        Err(reason) => Err(DateError { record: index, text: record.date.clone(), reason }),
    }
}

/// The commits of a run of records: every record with its timestamp, or
/// the error of the first record whose date line cannot be read.
pub open spec fn commits_of(records: Seq<LogRecordView>) -> Result<Seq<CommitView>, DateErrorView>
    decreases records.len(),
{
    if records.len() == 0 {
        Ok(Seq::empty())
    } else {
        match commits_of(records.drop_last()) {
            Ok(commits) => match dated(
                records.last(),
                (records.len() - 1) as nat,
                timestamp_of(records.last().date),
            ) {
                Ok(commit) => Ok(commits.push(commit)),
                Err(error) => Err(error),
            },
            Err(error) => Err(error),
        }
    }
}

/// The commits of a log, in its order, or the error of its first record
/// whose date line cannot be read.
pub open spec fn log_commits(text: Seq<char>) -> Result<Seq<CommitView>, DateErrorView> {
    commits_of(log_records(text))
}

/// The outcome for a log as the contracts speak of it.
pub open spec fn log_view(outcome: Result<Vec<Commit>, DateError>) -> Result<
    Seq<CommitView>,
    DateErrorView,
> {
    match outcome {
        Ok(commits) => Ok(commit_views(commits@)),
        Err(error) => Err(error@),
    }
}

/// Reads a commit log. The commits come in the order of the log. A record
/// cut short before its fourth line is left out. The first date line that
/// cannot be read ends the reading with its error.
pub fn parse_log(text: &str) -> (outcome: Result<Vec<Commit>, DateError>)
    ensures
        log_view(outcome) == log_commits(text@),
{
    let records = read_records(text);
    let ghost views = record_views(records@);
    let mut commits: Vec<Commit> = Vec::new();
    let mut at: usize = 0;
    assert(commit_views(commits@) =~= Seq::<CommitView>::empty());
    while at < records.len()
        invariant
            at <= records@.len(),
            views == record_views(records@),
            views == log_records(text@),
            commits_of(views.take(at as int)) == Ok::<Seq<CommitView>, DateErrorView>(
                commit_views(commits@),
            ),
        decreases records@.len() - at,
    {
        let record = &records[at];
        let stamp = Timestamp::parse(record.date.as_str());
        let ghost before = commits@;
        assert(views.take(at as int + 1).drop_last() =~= views.take(at as int));
        match dated_commit(record, at, stamp) {
            Ok(commit) => {
                commits.push(commit);
                assert(commit_views(commits@) =~= commit_views(before).push(commit@));
            },
            Err(error) => {
                proof {
                    lemma_first_error_stays(views, at as int + 1);
                }
                return Err(error);
            },
        }
        at += 1;
    }
    assert(views.take(at as int) =~= views);
    Ok(commits)
}

/// Once the first records of a log give an error, the whole log gives it.
pub proof fn lemma_first_error_stays(records: Seq<LogRecordView>, k: int)
    requires
        0 <= k <= records.len(),
        commits_of(records.take(k)) is Err,
    ensures
        commits_of(records) == commits_of(records.take(k)),
    decreases records.len() - k,
{
    if k < records.len() {
        assert(records.take(k + 1).drop_last() =~= records.take(k));
        lemma_first_error_stays(records, k + 1);
    } else {
        assert(records.take(k) =~= records);
    }
}

/// Reading is a function of the text alone: whatever two readings of one
/// log return, they return the same commits or the same error.
pub proof fn lemma_parse_deterministic(
    text: Seq<char>,
    first: Result<Vec<Commit>, DateError>,
    second: Result<Vec<Commit>, DateError>,
)
    requires
        log_view(first) == log_commits(text),
        log_view(second) == log_commits(text),
    ensures
        log_view(first) == log_view(second),
{
}

} // verus!

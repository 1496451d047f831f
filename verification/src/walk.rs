//! The scan of a directory tree, from a record of what the tree holds.

use crate::classify::{classify, get_language_name};
use crate::stats::{
    contribution, lemma_record_all_any_order, lemma_record_all_concat, try_process_file,
    Contribution, FileReport, Stats, StatsView,
};
use vstd::pervasive::unreached;
use vstd::prelude::*;

verus! {

/// Why a scan gave no tallies.
#[derive(Debug, PartialEq, Eq)]
pub enum ScanError {
    /// The path to scan is no directory.
    NotADirectory(String),
    /// A directory could not be listed or a file could not be read; the
    /// message of the failure.
    Io(String),
}

impl ScanError {
    /// The error in words.
    pub open spec fn text(self) -> Seq<char> {
        match self {
            ScanError::NotADirectory(path) => "The path '"@ + path@ + "' is not a directory."@,
            ScanError::Io(message) => message@,
        }
    }

    /// The error in words.
    pub fn message(&self) -> (text: String)
        ensures
            text@ == self.text(),
    {
        match self {
            ScanError::NotADirectory(path) => {
                let mut text = "The path '".to_owned();
                text.append(path.as_str());
                text.append("' is not a directory.");
                text
            },
            ScanError::Io(message) => message.clone(),
        }
    }
}

/// What stands at one place of a directory tree.
#[derive(Debug)]
pub enum Entry {
    /// A regular file: its path, and what reading and attributing it gave
    /// or why it could not be read. The report of a file in no language
    /// that is counted is not looked at.
    File(String, Result<FileReport, String>),
    /// A directory: what it holds, in the order of its listing.
    Directory(Vec<Entry>),
    /// A place where the listing failed; the message of the failure.
    Unreadable(String),
    /// Anything else.
    Other,
}

/// The tallies after the scan of one entry, or the failure that ends the
/// scan there.
pub open spec fn scan_entry(stats: StatsView, entry: Entry) -> Result<StatsView, ScanError>
    decreases entry,
{
    match entry {
        Entry::File(path, report) => match classify(path@) {
            Some(_) => match report {
                Ok(report) => Ok(stats.record(contribution(path@, report)->0)),
                Err(message) => Err(ScanError::Io(message)),
            },
            None => Ok(stats),
        },
        Entry::Directory(entries) => scan_entries(stats, entries@),
        Entry::Unreadable(message) => Err(ScanError::Io(message)),
        Entry::Other => Ok(stats),
    }
}

/// The tallies after the scan of the entries one after the other, each
/// directory with all that is below it before what follows it, or the first
/// failure.
pub open spec fn scan_entries(stats: StatsView, entries: Seq<Entry>) -> Result<
    StatsView,
    ScanError,
>
    decreases entries,
{
    if entries.len() == 0 {
        Ok(stats)
    } else {
        match scan_entries(stats, entries.drop_last()) {
            Ok(stats) => scan_entry(stats, entries.last()),
            Err(error) => Err(error),
        }
    }
}

/// Whether the scan of one entry from these tallies can count what it comes
/// to: the lines of each file are shared out, and no counter is asked to
/// hold more than it can.
pub open spec fn entry_fits(stats: StatsView, entry: Entry) -> bool
    decreases entry,
{
    match entry {
        Entry::File(path, Ok(report)) => stats.takes(path@, report),
        Entry::Directory(entries) => entries_fit(stats, entries@),
        _ => true,
    }
}

/// Whether the scan of the entries from these tallies can count what it
/// comes to, as far as it goes: up to its end or its first failure.
pub open spec fn entries_fit(stats: StatsView, entries: Seq<Entry>) -> bool
    decreases entries,
{
    entries.len() == 0 || (entries_fit(stats, entries.drop_last()) && (scan_entries(
        stats,
        entries.drop_last(),
    ) matches Ok(before) ==> entry_fits(before, entries.last())))
}

/// The files that a scan of the entries counts, in the order in which it
/// comes to them.
pub open spec fn counted_files(entries: Seq<Entry>) -> Seq<Contribution>
    decreases entries,
{
    if entries.len() == 0 {
        Seq::empty()
    } else {
        counted_files(entries.drop_last()) + counted_below(entries.last())
    }
}

/// The files that a scan of one entry counts.
pub open spec fn counted_below(entry: Entry) -> Seq<Contribution>
    decreases entry,
{
    match entry {
        Entry::File(path, Ok(report)) => match contribution(path@, report) {
            Some(file) => seq![file],
            None => Seq::empty(),
        },
        Entry::Directory(entries) => counted_files(entries@),
        _ => Seq::empty(),
    }
}

/// A scan that fails among the first entries fails in the same way on all
/// of them.
pub proof fn lemma_scan_stops_at_failure(stats: StatsView, entries: Seq<Entry>, k: int)
    requires
        0 <= k <= entries.len(),
        scan_entries(stats, entries.take(k)) is Err,
    ensures
        scan_entries(stats, entries) == scan_entries(stats, entries.take(k)),
    decreases entries.len(),
{
    if k == entries.len() {
        assert(entries.take(k) =~= entries);
    } else {
        assert(entries.drop_last().take(k) =~= entries.take(k));
        lemma_scan_stops_at_failure(stats, entries.drop_last(), k);
    }
}

/// A scan of one entry that does not fail counts the files at and below
/// it, one after the other.
pub proof fn lemma_scan_entry_counts_files(stats: StatsView, entry: Entry)
    requires
        scan_entry(stats, entry) is Ok,
    ensures
        scan_entry(stats, entry) == Ok::<StatsView, ScanError>(
            stats.record_all(counted_below(entry)),
        ),
    decreases entry,
{
    match entry {
        Entry::File(path, report) => {
            if classify(path@) is Some {
                let file = contribution(path@, report->Ok_0)->0;
                assert(stats.record_all(seq![file]) == stats.record(file)) by {
                    reveal_with_fuel(StatsView::record_all, 2);
                }
            }
        },
        Entry::Directory(entries) => {
            lemma_scan_counts_files(stats, entries@);
        },
        _ => {},
    }
}

/// A scan that does not fail counts the files of the tree one after the
/// other, so its tallies are those of the same files in any order.
pub proof fn lemma_scan_counts_files(stats: StatsView, entries: Seq<Entry>)
    requires
        scan_entries(stats, entries) is Ok,
    ensures
        scan_entries(stats, entries) == Ok::<StatsView, ScanError>(
            stats.record_all(counted_files(entries)),
        ),
    decreases entries,
{
    if entries.len() > 0 {
        lemma_scan_counts_files(stats, entries.drop_last());
        let before = stats.record_all(counted_files(entries.drop_last()));
        lemma_scan_entry_counts_files(before, entries.last());
        lemma_record_all_concat(
            stats,
            counted_files(entries.drop_last()),
            counted_below(entries.last()),
        );
    }
}

/// Two scans that do not fail and count the same files, in whatever order
/// and however the files are spread over directories, come to the same
/// tallies.
pub proof fn lemma_scans_of_the_same_files_agree(
    stats: StatsView,
    entries: Seq<Entry>,
    others: Seq<Entry>,
)
    requires
        scan_entries(stats, entries) is Ok,
        scan_entries(stats, others) is Ok,
        counted_files(entries).to_multiset() == counted_files(others).to_multiset(),
    ensures
        scan_entries(stats, entries) == scan_entries(stats, others),
{
    lemma_scan_counts_files(stats, entries);
    lemma_scan_counts_files(stats, others);
    lemma_record_all_any_order(stats, counted_files(entries), counted_files(others));
}

/// A scan that can count all it comes to can count what it comes to
/// first; and one that can do so up to a failure has nothing left to count.
pub proof fn lemma_fit_prefix(stats: StatsView, entries: Seq<Entry>, k: int)
    requires
        0 <= k <= entries.len(),
    ensures
        entries_fit(stats, entries) ==> entries_fit(stats, entries.take(k)),
        entries_fit(stats, entries.take(k)) && scan_entries(stats, entries.take(k)) is Err
            ==> entries_fit(stats, entries),
    decreases entries.len(),
{
    if k == entries.len() {
        assert(entries.take(k) =~= entries);
    } else {
        lemma_fit_prefix(stats, entries.drop_last(), k);
        assert(entries.drop_last().take(k) =~= entries.take(k));
        if scan_entries(stats, entries.take(k)) is Err {
            lemma_scan_stops_at_failure(stats, entries.drop_last(), k);
        }
    }
}

/// Counts the files among the entries and below them: each entry in its
/// turn, a directory with all that is below it before what follows it.
/// A file in a language that is counted but that could not be read, and an
/// entry that the listing failed on, end the scan with that failure. Where
/// the scan comes to a file that cannot be counted, it stops and gives
/// nothing.
pub fn try_process_directory(entries: &Vec<Entry>, stats: &mut Stats) -> (done: Option<
    Result<(), ScanError>,
>)
    requires
        old(stats).wf(),
    ensures
        final(stats).wf(),
        done is Some <==> entries_fit(old(stats)@, entries@),
        done matches Some(result) ==> match scan_entries(old(stats)@, entries@) {
            Ok(counted) => result is Ok && final(stats)@ == counted,
            Err(error) => result == Err::<(), ScanError>(error),
        },
    decreases entries,
{
    let ghost start = stats@;
    let mut k: usize = 0;
    assert(entries@.take(0) =~= Seq::<Entry>::empty());
    while k < entries.len()
        invariant
            k <= entries.len(),
            start == old(stats)@,
            stats.wf(),
            entries_fit(start, entries@.take(k as int)),
            scan_entries(start, entries@.take(k as int)) == Ok::<StatsView, ScanError>(stats@),
        decreases entries.len() - k,
    {
        proof {
            assert(entries@.take(k + 1).drop_last() =~= entries@.take(k as int));
            assert(entries@.take(k + 1).last() == entries@[k as int]);
            assert(scan_entries(start, entries@.take(k + 1)) == scan_entry(
                stats@,
                entries@[k as int],
            ));
            assert(entries_fit(start, entries@.take(k + 1)) == entry_fits(
                stats@,
                entries@[k as int],
            ));
            lemma_fit_prefix(start, entries@, k + 1);
            if scan_entries(start, entries@.take(k + 1)) is Err {
                lemma_scan_stops_at_failure(start, entries@, k + 1);
            }
        }
        match &entries[k] {
            Entry::File(path, report) => {
                if get_language_name(path.as_str()).is_some() {
                    match report {
                        Ok(report) => {
                            if !try_process_file(path.as_str(), report, stats) {
                                return None;
                            }
                        },
                        Err(message) => {
                            return Some(Err(ScanError::Io(message.clone())));
                        },
                    }
                }
            },
            Entry::Directory(below) => {
                match try_process_directory(below, stats) {
                    Some(Ok(())) => {},
                    Some(Err(error)) => {
                        return Some(Err(error));
                    },
                    None => {
                        return None;
                    },
                }
            },
            Entry::Unreadable(message) => {
                return Some(Err(ScanError::Io(message.clone())));
            },
            Entry::Other => {},
        }
        k = k + 1;
    }
    assert(entries@.take(k as int) =~= entries@);
    Some(Ok(()))
}

/// Counts the files among the entries and below them: each entry in its
/// turn, a directory with all that is below it before what follows it.
/// A file in a language that is counted but that could not be read, and an
/// entry that the listing failed on, end the scan with that failure.
pub fn process_directory(entries: &Vec<Entry>, stats: &mut Stats) -> (done: Result<(), ScanError>)
    requires
        old(stats).wf(),
        entries_fit(old(stats)@, entries@),
    ensures
        final(stats).wf(),
        match scan_entries(old(stats)@, entries@) {
            Ok(counted) => done is Ok && final(stats)@ == counted,
            Err(error) => done == Err::<(), ScanError>(error),
        },
{
    match try_process_directory(entries, stats) {
        Some(done) => done,
        None => unreached(),
    }
}

/// The tallies of the tree under `path`, of which `root` tells what it
/// holds: those of a scan of all that is below it, from no tallies. A path
/// that is no directory is an error, and so is the first failure of the
/// scan.
pub fn get_stats(path: &str, root: &Entry) -> (scan: Result<Stats, ScanError>)
    requires
        root matches Entry::Directory(entries) ==> entries_fit(
            StatsView { languages: Map::empty(), contributors: Map::empty() },
            entries@,
        ),
    ensures
        match *root {
            Entry::Directory(entries) => match scan_entries(
                StatsView { languages: Map::empty(), contributors: Map::empty() },
                entries@,
            ) {
                Ok(counted) => scan matches Ok(stats) && stats@ == counted && stats.wf(),
                Err(error) => scan == Err::<Stats, ScanError>(error),
            },
            _ => scan matches Err(ScanError::NotADirectory(named)) && named@ == path@,
        },
{
    match root {
        Entry::Directory(entries) => {
            let mut stats = Stats::default();
            match process_directory(entries, &mut stats) {
                Ok(()) => Ok(stats),
                Err(error) => Err(error),
            }
        },
        _ => Err(ScanError::NotADirectory(path.to_owned())),
    }
}

/// The tallies of the tree under `path` as `get_stats` gives them, or
/// nothing where the scan comes to a file that cannot be counted: one whose
/// lines are not shared out, or that asks a counter to hold more than it
/// can.
pub fn try_get_stats(path: &str, root: &Entry) -> (scan: Option<Result<Stats, ScanError>>)
    ensures
        scan is Some <==> (root matches Entry::Directory(entries) ==> entries_fit(
            StatsView { languages: Map::empty(), contributors: Map::empty() },
            entries@,
        )),
        scan matches Some(scan) ==> match *root {
            Entry::Directory(entries) => match scan_entries(
                StatsView { languages: Map::empty(), contributors: Map::empty() },
                entries@,
            ) {
                Ok(counted) => scan matches Ok(stats) && stats@ == counted && stats.wf(),
                Err(error) => scan == Err::<Stats, ScanError>(error),
            },
            _ => scan matches Err(ScanError::NotADirectory(named)) && named@ == path@,
        },
{
    match root {
        Entry::Directory(entries) => {
            let mut stats = Stats::default();
            match try_process_directory(entries, &mut stats) {
                Some(Ok(())) => Some(Ok(stats)),
                Some(Err(error)) => Some(Err(error)),
                None => None,
            }
        },
        _ => Some(Err(ScanError::NotADirectory(path.to_owned()))),
    }
}

} // verus!

//! The tallies of a scan: lines and files by language and by contributor.

use crate::classify::{classify, get_language_name};
use crate::git::{
    is_valid_file_info, shares_of, shares_total, valid_file_info, FileInfo, GitError,
};
use crate::table::{
    by_name, distinct, lemma_by_name_at, lemma_by_name_dom, lemma_by_name_push,
    lemma_by_name_update, position,
};
use vstd::prelude::*;

verus! {

/// What a scan has counted under one name.
pub struct Tally {
    pub lines: nat,
    pub files: nat,
}

/// The tallies of a table by name.
pub type Tallies = Map<Seq<char>, Tally>;

/// What is counted under `name`: nothing where the name is unknown.
pub open spec fn tally_of(tallies: Tallies, name: Seq<char>) -> Tally {
    if tallies.dom().contains(name) {
        tallies[name]
    } else {
        Tally { lines: 0, files: 0 }
    }
}

/// The tallies after one file with `lines` lines is counted under `name`.
pub open spec fn credit(tallies: Tallies, name: Seq<char>, lines: nat) -> Tallies {
    tallies.insert(
        name,
        Tally {
            lines: tally_of(tallies, name).lines + lines,
            files: tally_of(tallies, name).files + 1,
        },
    )
}

/// The tallies after each share of one file is counted under its name.
pub open spec fn credit_all(tallies: Tallies, shares: Seq<(Seq<char>, nat)>) -> Tallies
    decreases shares.len(),
{
    if shares.len() == 0 {
        tallies
    } else {
        credit(credit_all(tallies, shares.drop_last()), shares.last().0, shares.last().1)
    }
}

/// Whether one more file with `lines` lines can be counted under `name`:
/// both counters of the name can hold what they come to.
pub open spec fn credit_fits(tallies: Tallies, name: Seq<char>, lines: nat) -> bool {
    &&& tally_of(tallies, name).lines + lines <= usize::MAX
    &&& tally_of(tallies, name).files + 1 <= usize::MAX
}

/// Whether each share of one file can be counted under its name, one after
/// the other.
pub open spec fn credit_all_fits(tallies: Tallies, shares: Seq<(Seq<char>, nat)>) -> bool
    decreases shares.len(),
{
    shares.len() == 0 || (credit_all_fits(tallies, shares.drop_last()) && credit_fits(
        credit_all(tallies, shares.drop_last()),
        shares.last().0,
        shares.last().1,
    ))
}

/// Every counter of the tallies is one that a counter can hold.
pub open spec fn tallies_fit(tallies: Tallies) -> bool {
    forall|name: Seq<char>|
        (#[trigger] tally_of(tallies, name)).lines <= usize::MAX && tally_of(tallies, name).files
            <= usize::MAX
}

/// All lines of the rows together.
pub open spec fn lines_total(rows: Seq<(Seq<char>, Tally)>) -> nat
    decreases rows.len(),
{
    if rows.len() == 0 {
        0
    } else {
        lines_total(rows.drop_last()) + rows.last().1.lines
    }
}

/// A new tally in a row changes the lines of the rows by the difference.
pub proof fn lemma_lines_total_update(rows: Seq<(Seq<char>, Tally)>, i: int, tally: Tally)
    requires
        0 <= i < rows.len(),
    ensures
        lines_total(rows.update(i, (rows[i].0, tally))) + rows[i].1.lines == lines_total(rows)
            + tally.lines,
    decreases rows.len(),
{
    let updated = rows.update(i, (rows[i].0, tally));
    let front = rows.drop_last();
    if i == rows.len() - 1 {
        assert(updated.drop_last() =~= front);
    } else {
        lemma_lines_total_update(front, i, tally);
        assert(updated.drop_last() =~= front.update(i, (front[i].0, tally)));
    }
}

/// Where all shares of a file can be counted, the first of them can.
pub proof fn lemma_credit_all_fits_prefix(tallies: Tallies, shares: Seq<(Seq<char>, nat)>, k: int)
    requires
        0 <= k <= shares.len(),
        credit_all_fits(tallies, shares),
    ensures
        credit_all_fits(tallies, shares.take(k)),
    decreases shares.len(),
{
    if k == shares.len() {
        assert(shares.take(k) =~= shares);
    } else {
        lemma_credit_all_fits_prefix(tallies, shares.drop_last(), k);
        assert(shares.drop_last().take(k) =~= shares.take(k));
    }
}

/// The shares of a file leave the tally of a name that is not among them
/// as it is.
pub proof fn lemma_credit_all_other(
    tallies: Tallies,
    shares: Seq<(Seq<char>, nat)>,
    name: Seq<char>,
)
    requires
        forall|i: int| 0 <= i < shares.len() ==> (#[trigger] shares[i]).0 != name,
    ensures
        tally_of(credit_all(tallies, shares), name) == tally_of(tallies, name),
    decreases shares.len(),
{
    if shares.len() > 0 {
        assert forall|i: int| 0 <= i < shares.drop_last().len() implies (
        #[trigger] shares.drop_last()[i]).0 != name by {
            assert(shares[i].0 != name);
        }
        lemma_credit_all_other(tallies, shares.drop_last(), name);
        assert(shares[shares.len() - 1].0 != name);
    }
}

/// Lines and files counted for one language.
#[derive(Debug, Clone, Copy, PartialEq, Eq)]
pub struct LanguageInfo {
    pub lines: usize,
    pub files: usize,
}

/// Lines and files counted for one contributor. A file counts for every
/// contributor who has a line in it.
#[derive(Debug, Clone, Copy, PartialEq, Eq)]
pub struct ContributorInfo {
    pub lines: usize,
    pub files: usize,
}

impl View for LanguageInfo {
    type V = Tally;

    open spec fn view(&self) -> Tally {
        Tally { lines: self.lines as nat, files: self.files as nat }
    }
}

impl View for ContributorInfo {
    type V = Tally;

    open spec fn view(&self) -> Tally {
        Tally { lines: self.lines as nat, files: self.files as nat }
    }
}

impl Default for LanguageInfo {
    fn default() -> (info: LanguageInfo)
        ensures
            info.lines == 0,
            info.files == 0,
    {
        LanguageInfo { lines: 0, files: 0 }
    }
}

impl Default for ContributorInfo {
    fn default() -> (info: ContributorInfo)
        ensures
            info.lines == 0,
            info.files == 0,
    {
        ContributorInfo { lines: 0, files: 0 }
    }
}

/// The tallies of a scan. Each table has one row for each name.
#[derive(Debug)]
pub struct Stats {
    pub languages: Vec<(String, LanguageInfo)>,
    pub contributors: Vec<(String, ContributorInfo)>,
}

/// The rows of a language table.
pub open spec fn language_counts(table: Seq<(String, LanguageInfo)>) -> Seq<(Seq<char>, Tally)> {
    table.map_values(|row: (String, LanguageInfo)| (row.0@, row.1@))
}

/// The rows of a contributor table.
pub open spec fn contributor_counts(table: Seq<(String, ContributorInfo)>) -> Seq<
    (Seq<char>, Tally),
> {
    table.map_values(|row: (String, ContributorInfo)| (row.0@, row.1@))
}

/// What one file adds to the tallies: its lines under its language, and
/// each share of them under a contributor.
pub struct Contribution {
    pub language: Seq<char>,
    pub lines: nat,
    pub shares: Seq<(Seq<char>, nat)>,
}

/// The tallies of a scan by name.
pub struct StatsView {
    pub languages: Tallies,
    pub contributors: Tallies,
}

impl StatsView {
    /// The tallies after one more file.
    pub open spec fn record(self, file: Contribution) -> StatsView {
        StatsView {
            languages: credit(self.languages, file.language, file.lines),
            contributors: credit_all(self.contributors, file.shares),
        }
    }

    /// Whether one more file can be counted: every counter that it adds to
    /// can hold what it comes to.
    pub open spec fn record_fits(self, file: Contribution) -> bool {
        &&& credit_fits(self.languages, file.language, file.lines)
        &&& credit_all_fits(self.contributors, file.shares)
    }

    /// Whether the files can be counted one after the other.
    pub open spec fn record_all_fits(self, files: Seq<Contribution>) -> bool
        decreases files.len(),
    {
        files.len() == 0 || (self.record_all_fits(files.drop_last()) && self.record_all(
            files.drop_last(),
        ).record_fits(files.last()))
    }

    /// Every counter is one that a counter can hold.
    pub open spec fn fits(self) -> bool {
        tallies_fit(self.languages) && tallies_fit(self.contributors)
    }

    /// The tallies after more files, one after the other.
    pub open spec fn record_all(self, files: Seq<Contribution>) -> StatsView
        decreases files.len(),
    {
        if files.len() == 0 {
            self
        } else {
            self.record_all(files.drop_last()).record(files.last())
        }
    }
}

/// A count adds to the tally of its name and leaves every other tally as
/// it is: no counter ever falls.
pub proof fn lemma_credit_grows(tallies: Tallies, name: Seq<char>, lines: nat, other: Seq<char>)
    ensures
        tally_of(credit(tallies, name, lines), name).lines == tally_of(tallies, name).lines
            + lines,
        tally_of(credit(tallies, name, lines), name).files == tally_of(tallies, name).files + 1,
        other != name ==> tally_of(credit(tallies, name, lines), other) == tally_of(tallies, other),
        tally_of(credit(tallies, name, lines), other).lines >= tally_of(tallies, other).lines,
        tally_of(credit(tallies, name, lines), other).files >= tally_of(tallies, other).files,
{
}

/// The shares of a file take nothing away from any tally.
pub proof fn lemma_credit_all_grows(
    tallies: Tallies,
    shares: Seq<(Seq<char>, nat)>,
    other: Seq<char>,
)
    ensures
        tally_of(credit_all(tallies, shares), other).lines >= tally_of(tallies, other).lines,
        tally_of(credit_all(tallies, shares), other).files >= tally_of(tallies, other).files,
    decreases shares.len(),
{
    if shares.len() > 0 {
        lemma_credit_all_grows(tallies, shares.drop_last(), other);
        lemma_credit_grows(
            credit_all(tallies, shares.drop_last()),
            shares.last().0,
            shares.last().1,
            other,
        );
    }
}

/// During a scan no counter of any language or contributor ever falls.
pub proof fn lemma_record_grows(stats: StatsView, file: Contribution, name: Seq<char>)
    ensures
        tally_of(stats.record(file).languages, name).lines >= tally_of(stats.languages, name).lines,
        tally_of(stats.record(file).languages, name).files >= tally_of(stats.languages, name).files,
        tally_of(stats.record(file).contributors, name).lines >= tally_of(
            stats.contributors,
            name,
        ).lines,
        tally_of(stats.record(file).contributors, name).files >= tally_of(
            stats.contributors,
            name,
        ).files,
{
    lemma_credit_grows(stats.languages, file.language, file.lines, name);
    lemma_credit_all_grows(stats.contributors, file.shares, name);
}

/// Two counts under names come to the same tallies in either order.
pub proof fn lemma_credit_commutes(
    tallies: Tallies,
    first: Seq<char>,
    first_lines: nat,
    second: Seq<char>,
    second_lines: nat,
)
    ensures
        credit(credit(tallies, first, first_lines), second, second_lines) == credit(
            credit(tallies, second, second_lines),
            first,
            first_lines,
        ),
{
    assert(credit(credit(tallies, first, first_lines), second, second_lines) =~= credit(
        credit(tallies, second, second_lines),
        first,
        first_lines,
    ));
}

/// One count and the shares of a file come to the same tallies in either
/// order.
pub proof fn lemma_credit_all_commutes_with_credit(
    tallies: Tallies,
    name: Seq<char>,
    lines: nat,
    shares: Seq<(Seq<char>, nat)>,
)
    ensures
        credit_all(credit(tallies, name, lines), shares) == credit(
            credit_all(tallies, shares),
            name,
            lines,
        ),
    decreases shares.len(),
{
    if shares.len() > 0 {
        lemma_credit_all_commutes_with_credit(tallies, name, lines, shares.drop_last());
        lemma_credit_commutes(
            credit_all(tallies, shares.drop_last()),
            name,
            lines,
            shares.last().0,
            shares.last().1,
        );
    }
}

/// The shares of two files come to the same tallies in either order.
pub proof fn lemma_credit_all_commutes(
    tallies: Tallies,
    first: Seq<(Seq<char>, nat)>,
    second: Seq<(Seq<char>, nat)>,
)
    ensures
        credit_all(credit_all(tallies, first), second) == credit_all(
            credit_all(tallies, second),
            first,
        ),
    decreases second.len(),
{
    if second.len() > 0 {
        lemma_credit_all_commutes(tallies, first, second.drop_last());
        lemma_credit_all_commutes_with_credit(
            credit_all(tallies, second.drop_last()),
            second.last().0,
            second.last().1,
            first,
        );
    }
}

/// Two files come to the same tallies in either order.
pub proof fn lemma_record_commutes(stats: StatsView, first: Contribution, second: Contribution)
    ensures
        stats.record(first).record(second) == stats.record(second).record(first),
{
    lemma_credit_commutes(
        stats.languages,
        first.language,
        first.lines,
        second.language,
        second.lines,
    );
    lemma_credit_all_commutes(stats.contributors, first.shares, second.shares);
}

/// Counting two runs of files one after the other is counting them all in
/// one run.
pub proof fn lemma_record_all_concat(
    stats: StatsView,
    first: Seq<Contribution>,
    second: Seq<Contribution>,
)
    ensures
        stats.record_all(first + second) == stats.record_all(first).record_all(second),
    decreases second.len(),
{
    if second.len() > 0 {
        lemma_record_all_concat(stats, first, second.drop_last());
        assert((first + second).drop_last() =~= first + second.drop_last());
    }
}

/// The file at place `i` may as well be counted last.
pub proof fn lemma_record_all_moves_last(stats: StatsView, files: Seq<Contribution>, i: int)
    requires
        0 <= i < files.len(),
    ensures
        stats.record_all(files) == stats.record_all(files.remove(i)).record(files[i]),
    decreases files.len(),
{
    if i < files.len() - 1 {
        let front = files.drop_last();
        lemma_record_all_moves_last(stats, front, i);
        assert(files.remove(i).drop_last() =~= front.remove(i));
        lemma_record_commutes(stats.record_all(front.remove(i)), files[i], files.last());
    }
}

/// The tallies of a scan do not depend on the order in which the files were
/// counted: the same files in any order come to the same tallies.
pub proof fn lemma_record_all_any_order(
    stats: StatsView,
    files: Seq<Contribution>,
    shuffled: Seq<Contribution>,
)
    requires
        files.to_multiset() == shuffled.to_multiset(),
    ensures
        stats.record_all(files) == stats.record_all(shuffled),
    decreases files.len(),
{
    files.to_multiset_ensures();
    shuffled.to_multiset_ensures();
    if files.len() > 0 {
        let last = files.last();
        assert(shuffled.to_multiset().count(last) > 0);
        let i = choose|i: int| 0 <= i < shuffled.len() && shuffled[i] == last;
        files.drop_last().to_multiset_ensures();
        assert(files.drop_last().to_multiset() =~= files.to_multiset().remove(last)) by {
            assert(files.remove(files.len() - 1) =~= files.drop_last());
        }
        lemma_record_all_any_order(stats, files.drop_last(), shuffled.remove(i));
        lemma_record_all_moves_last(stats, shuffled, i);
    }
}

/// Two counts that can be made in one order can be made in the other.
pub proof fn lemma_credit_fits_any_order(
    tallies: Tallies,
    first: Seq<char>,
    first_lines: nat,
    second: Seq<char>,
    second_lines: nat,
)
    requires
        credit_fits(tallies, first, first_lines),
        credit_fits(credit(tallies, first, first_lines), second, second_lines),
    ensures
        credit_fits(tallies, second, second_lines),
        credit_fits(credit(tallies, second, second_lines), first, first_lines),
{
}

/// A count can be made exactly when no counter is too large after it.
pub proof fn lemma_credit_fit(tallies: Tallies, name: Seq<char>, lines: nat)
    requires
        tallies_fit(tallies),
    ensures
        credit_fits(tallies, name, lines) <==> tallies_fit(credit(tallies, name, lines)),
{
    let after = credit(tallies, name, lines);
    if credit_fits(tallies, name, lines) {
        assert forall|other: Seq<char>|
            (#[trigger] tally_of(after, other)).lines <= usize::MAX && tally_of(after, other).files
                <= usize::MAX by {
            lemma_credit_grows(tallies, name, lines, other);
            assert(tally_of(tallies, other).lines <= usize::MAX);
        }
    }
    if tallies_fit(after) {
        assert(tally_of(after, name).lines <= usize::MAX);
    }
}

/// Tallies that fit after a count did so before it.
pub proof fn lemma_credit_fit_before(tallies: Tallies, name: Seq<char>, lines: nat)
    requires
        tallies_fit(credit(tallies, name, lines)),
    ensures
        tallies_fit(tallies),
{
    assert forall|other: Seq<char>|
        (#[trigger] tally_of(tallies, other)).lines <= usize::MAX && tally_of(tallies, other).files
            <= usize::MAX by {
        lemma_credit_grows(tallies, name, lines, other);
        assert(tally_of(credit(tallies, name, lines), other).lines <= usize::MAX);
    }
}

/// The shares of a file can be counted exactly when no counter is too large
/// after them.
pub proof fn lemma_credit_all_fit(tallies: Tallies, shares: Seq<(Seq<char>, nat)>)
    requires
        tallies_fit(tallies),
    ensures
        credit_all_fits(tallies, shares) <==> tallies_fit(credit_all(tallies, shares)),
        tallies_fit(credit_all(tallies, shares)) ==> shares.len() == 0 || tallies_fit(
            credit_all(tallies, shares.drop_last()),
        ),
    decreases shares.len(),
{
    if shares.len() > 0 {
        let before = credit_all(tallies, shares.drop_last());
        lemma_credit_all_fit(tallies, shares.drop_last());
        if tallies_fit(credit_all(tallies, shares)) {
            lemma_credit_fit_before(before, shares.last().0, shares.last().1);
        }
        if tallies_fit(before) {
            lemma_credit_fit(before, shares.last().0, shares.last().1);
        }
    }
}

/// A file can be counted exactly when no counter is too large after it.
pub proof fn lemma_record_fit(stats: StatsView, file: Contribution)
    requires
        stats.fits(),
    ensures
        stats.record_fits(file) <==> stats.record(file).fits(),
{
    lemma_credit_fit(stats.languages, file.language, file.lines);
    lemma_credit_all_fit(stats.contributors, file.shares);
}

/// Files can be counted one after the other exactly when no counter is too
/// large after the last of them.
pub proof fn lemma_record_all_fit(stats: StatsView, files: Seq<Contribution>)
    requires
        stats.fits(),
    ensures
        stats.record_all_fits(files) <==> stats.record_all(files).fits(),
    decreases files.len(),
{
    if files.len() > 0 {
        let before = stats.record_all(files.drop_last());
        let last = files.last();
        lemma_record_all_fit(stats, files.drop_last());
        if stats.record_all(files).fits() {
            lemma_credit_fit_before(before.languages, last.language, last.lines);
            assert(tallies_fit(before.contributors)) by {
                assert forall|other: Seq<char>|
                    (#[trigger] tally_of(before.contributors, other)).lines <= usize::MAX
                        && tally_of(before.contributors, other).files <= usize::MAX by {
                    lemma_credit_all_grows(before.contributors, last.shares, other);
                    assert(tally_of(before.record(last).contributors, other).lines <= usize::MAX);
                }
            }
        }
        if before.fits() {
            lemma_record_fit(before, last);
        }
    }
}

/// Files that can be counted in one order can be counted in any order, and
/// come to the same tallies: whether a scan can count its files does not
/// depend on the order in which it comes to them.
pub proof fn lemma_countable_in_any_order(
    stats: StatsView,
    files: Seq<Contribution>,
    shuffled: Seq<Contribution>,
)
    requires
        stats.fits(),
        stats.record_all_fits(files),
        files.to_multiset() == shuffled.to_multiset(),
    ensures
        stats.record_all_fits(shuffled),
        stats.record_all(shuffled) == stats.record_all(files),
{
    lemma_record_all_any_order(stats, files, shuffled);
    lemma_record_all_fit(stats, files);
    lemma_record_all_fit(stats, shuffled);
}

/// What rows hold fits where each row does.
pub proof fn lemma_rows_fit(rows: Seq<(Seq<char>, Tally)>)
    requires
        forall|i: int|
            0 <= i < rows.len() ==> (#[trigger] rows[i]).1.lines <= usize::MAX && rows[i].1.files
                <= usize::MAX,
    ensures
        tallies_fit(by_name(rows)),
    decreases rows.len(),
{
    if rows.len() > 0 {
        assert forall|i: int| 0 <= i < rows.drop_last().len() implies (
        #[trigger] rows.drop_last()[i]).1.lines <= usize::MAX && rows.drop_last()[i].1.files
            <= usize::MAX by {
            assert(rows[i].1.lines <= usize::MAX);
        }
        lemma_rows_fit(rows.drop_last());
    }
    assert forall|name: Seq<char>|
        (#[trigger] tally_of(by_name(rows), name)).lines <= usize::MAX && tally_of(
            by_name(rows),
            name,
        ).files <= usize::MAX by {
        if rows.len() > 0 {
            if name == rows.last().0 {
                assert(rows[rows.len() - 1].1.lines <= usize::MAX);
            } else {
                assert(tally_of(by_name(rows), name) == tally_of(by_name(rows.drop_last()), name));
                assert(tally_of(by_name(rows.drop_last()), name).lines <= usize::MAX);
            }
        }
    }
}

/// The tallies that a `Stats` holds always fit.
pub proof fn lemma_stats_fit(stats: Stats)
    ensures
        stats@.fits(),
{
    lemma_rows_fit(language_counts(stats.languages@));
    lemma_rows_fit(contributor_counts(stats.contributors@));
}

impl View for Stats {
    type V = StatsView;

    open spec fn view(&self) -> StatsView {
        StatsView {
            languages: by_name(language_counts(self.languages@)),
            contributors: by_name(contributor_counts(self.contributors@)),
        }
    }
}

impl Stats {
    /// Each language and each contributor has one row.
    pub open spec fn wf(&self) -> bool {
        &&& distinct(language_counts(self.languages@))
        &&& distinct(contributor_counts(self.contributors@))
    }

    /// The lines of all languages together.
    pub open spec fn language_lines(&self) -> nat {
        lines_total(language_counts(self.languages@))
    }

    /// The lines of all contributors together.
    pub open spec fn contributor_lines(&self) -> nat {
        lines_total(contributor_counts(self.contributors@))
    }
}

impl Default for Stats {
    fn default() -> (stats: Stats)
        ensures
            stats.languages@.len() == 0,
            stats.contributors@.len() == 0,
            stats.wf(),
            stats.language_lines() == 0,
            stats.contributor_lines() == 0,
            stats@.languages == Map::<Seq<char>, Tally>::empty(),
            stats@.contributors == Map::<Seq<char>, Tally>::empty(),
    {
        Stats { languages: Vec::new(), contributors: Vec::new() }
    }
}


/// What reading one file and attributing its lines gave.
#[derive(Debug)]
pub struct FileReport {
    /// The lines of the file as it is on disk.
    pub lines: usize,
    /// The lines of the file and their shares by contributor, or why they
    /// could not be attributed.
    pub attribution: Result<FileInfo, GitError>,
}

impl FileReport {
    /// Where the lines were attributed they are shared out: no contributor
    /// is listed twice, and the shares come to the lines of the file.
    pub open spec fn valid(&self) -> bool {
        match self.attribution {
            Ok(info) => valid_file_info(info),
            Err(_) => true,
        }
    }

    /// The lines that the file counts with: those that were attributed, or
    /// those on disk where the attribution failed.
    pub open spec fn counted_lines(&self) -> nat {
        match self.attribution {
            Ok(info) => info.0 as nat,
            Err(_) => self.lines as nat,
        }
    }

    /// The shares of the file's lines: those of the attribution, or all
    /// lines for `Unknown` where there is none.
    pub open spec fn shares(&self) -> Seq<(Seq<char>, nat)> {
        match self.attribution {
            Ok(info) => shares_of(info.1@),
            Err(_) => seq![("Unknown"@, self.lines as nat)],
        }
    }
}

/// What the file at `path` adds to the tallies, if it is in a language that
/// is counted.
pub open spec fn contribution(path: Seq<char>, report: FileReport) -> Option<Contribution> {
    match classify(path) {
        Some(language) => Some(
            Contribution { language, lines: report.counted_lines(), shares: report.shares() },
        ),
        None => None,
    }
}

/// The lines that the file at `path` adds to the tallies: none where it is
/// in no language that is counted.
pub open spec fn added_lines(path: Seq<char>, report: FileReport) -> nat {
    match classify(path) {
        Some(_) => report.counted_lines(),
        None => 0,
    }
}

impl StatsView {
    /// Whether the file at `path` can be counted: it is in no language that
    /// is counted, or its lines are shared out and every counter that it
    /// adds to can hold what it comes to.
    pub open spec fn takes(self, path: Seq<char>, report: FileReport) -> bool {
        match contribution(path, report) {
            Some(file) => report.valid() && self.record_fits(file),
            None => true,
        }
    }
}

/// Every file adds as many lines to the contributors together as to its
/// language, and counts once for each of its contributors: on a failed
/// attribution all its lines on disk for `Unknown`.
pub proof fn lemma_file_lines_are_shared(path: Seq<char>, report: FileReport)
    requires
        report.valid(),
    ensures
        contribution(path, report) matches Some(file) ==> file.lines == shares_total(file.shares)
            && distinct(file.shares),
{
    if report.attribution is Err {
        let shares = seq![("Unknown"@, report.lines as nat)];
        assert(shares.drop_last() =~= Seq::<(Seq<char>, nat)>::empty());
        assert(shares_total(shares) == report.lines) by {
            reveal_with_fuel(shares_total, 2);
        }
    }
}

/// Whether one more file with `lines` lines of `language` can be counted.
pub fn language_has_room(
    languages: &Vec<(String, LanguageInfo)>,
    language: &str,
    lines: usize,
) -> (room: bool)
    requires
        distinct(language_counts(languages@)),
    ensures
        room == credit_fits(by_name(language_counts(languages@)), language@, lines as nat),
{
    let ghost rows = language_counts(languages@);
    match position(languages, language) {
        Some(i) => {
            proof {
                lemma_by_name_at(rows, i as int);
            }
            languages[i].1.lines <= usize::MAX - lines && languages[i].1.files < usize::MAX
        },
        None => {
            proof {
                lemma_by_name_dom(rows, language@);
            }
            true
        },
    }
}

/// Whether `lines` more lines of one more file can be counted for
/// `contributor`.
pub fn contributor_has_room(
    contributors: &Vec<(String, ContributorInfo)>,
    contributor: &str,
    lines: usize,
) -> (room: bool)
    requires
        distinct(contributor_counts(contributors@)),
    ensures
        room == credit_fits(by_name(contributor_counts(contributors@)), contributor@, lines as nat),
{
    let ghost rows = contributor_counts(contributors@);
    match position(contributors, contributor) {
        Some(i) => {
            proof {
                lemma_by_name_at(rows, i as int);
            }
            contributors[i].1.lines <= usize::MAX - lines && contributors[i].1.files < usize::MAX
        },
        None => {
            proof {
                lemma_by_name_dom(rows, contributor@);
            }
            true
        },
    }
}

/// Whether the shares of one file, which name no contributor twice, can all
/// be counted.
pub fn shares_have_room(
    contributors: &Vec<(String, ContributorInfo)>,
    shares: &Vec<(String, usize)>,
) -> (room: bool)
    requires
        distinct(contributor_counts(contributors@)),
        distinct(shares_of(shares@)),
    ensures
        room == credit_all_fits(by_name(contributor_counts(contributors@)), shares_of(shares@)),
{
    let ghost tallies = by_name(contributor_counts(contributors@));
    let ghost all = shares_of(shares@);
    let mut k: usize = 0;
    assert(all.take(0) =~= Seq::<(Seq<char>, nat)>::empty());
    while k < shares.len()
        invariant
            k <= shares.len(),
            all == shares_of(shares@),
            tallies == by_name(contributor_counts(contributors@)),
            distinct(contributor_counts(contributors@)),
            distinct(all),
            credit_all_fits(tallies, all.take(k as int)),
        decreases shares.len() - k,
    {
        proof {
            assert(all.take(k + 1).drop_last() =~= all.take(k as int));
            assert(all.take(k + 1).last() == all[k as int]);
            assert forall|i: int| 0 <= i < all.take(k as int).len() implies (#[trigger] all.take(
                k as int,
            )[i]).0 != all[k as int].0 by {
                assert(all[i].0 != all[k as int].0);
            }
            lemma_credit_all_other(tallies, all.take(k as int), all[k as int].0);
            if credit_all_fits(tallies, all) {
                lemma_credit_all_fits_prefix(tallies, all, k + 1);
            }
        }
        if !contributor_has_room(contributors, shares[k].0.as_str(), shares[k].1) {
            return false;
        }
        k = k + 1;
    }
    assert(all.take(k as int) =~= all);
    true
}

/// Counts one file with `lines` lines of `language`.
pub fn update_language_info(
    languages: &mut Vec<(String, LanguageInfo)>,
    language: &str,
    lines: usize,
)
    requires
        distinct(language_counts(old(languages)@)),
        credit_fits(by_name(language_counts(old(languages)@)), language@, lines as nat),
    ensures
        distinct(language_counts(final(languages)@)),
        by_name(language_counts(final(languages)@)) == credit(
            by_name(language_counts(old(languages)@)),
            language@,
            lines as nat,
        ),
        lines_total(language_counts(final(languages)@)) == lines_total(
            language_counts(old(languages)@),
        ) + lines,
{
    let ghost before = language_counts(languages@);
    match position(languages, language) {
        Some(i) => {
            let info = languages[i].1;
            let name = languages[i].0.clone();
            proof {
                lemma_by_name_at(before, i as int);
            }
            let ghost tally = Tally {
                lines: (info.lines + lines) as nat,
                files: (info.files + 1) as nat,
            };
            proof {
                lemma_lines_total_update(before, i as int, tally);
                lemma_by_name_update(before, i as int, tally);
            }
            languages.set(
                i,
                (name, LanguageInfo { lines: info.lines + lines, files: info.files + 1 }),
            );
            assert(language_counts(languages@) =~= before.update(
                i as int,
                (before[i as int].0, tally),
            ));
        },
        None => {
            proof {
                lemma_by_name_dom(before, language@);
                lemma_by_name_push(before, language@, Tally { lines: lines as nat, files: 1 });
            }
            languages.push((language.to_owned(), LanguageInfo { lines, files: 1 }));
            assert(language_counts(languages@) =~= before.push(
                (language@, Tally { lines: lines as nat, files: 1 }),
            ));
            assert(language_counts(languages@).drop_last() =~= before);
        },
    }
}

/// Counts `lines` lines of one file for `contributor`.
pub fn update_contributor_info(
    contributors: &mut Vec<(String, ContributorInfo)>,
    contributor: &str,
    lines: usize,
)
    requires
        distinct(contributor_counts(old(contributors)@)),
        credit_fits(by_name(contributor_counts(old(contributors)@)), contributor@, lines as nat),
    ensures
        distinct(contributor_counts(final(contributors)@)),
        by_name(contributor_counts(final(contributors)@)) == credit(
            by_name(contributor_counts(old(contributors)@)),
            contributor@,
            lines as nat,
        ),
        lines_total(contributor_counts(final(contributors)@)) == lines_total(
            contributor_counts(old(contributors)@),
        ) + lines,
{
    let ghost before = contributor_counts(contributors@);
    match position(contributors, contributor) {
        Some(i) => {
            let info = contributors[i].1;
            let name = contributors[i].0.clone();
            proof {
                lemma_by_name_at(before, i as int);
            }
            let ghost tally = Tally {
                lines: (info.lines + lines) as nat,
                files: (info.files + 1) as nat,
            };
            proof {
                lemma_lines_total_update(before, i as int, tally);
                lemma_by_name_update(before, i as int, tally);
            }
            contributors.set(
                i,
                (name, ContributorInfo { lines: info.lines + lines, files: info.files + 1 }),
            );
            assert(contributor_counts(contributors@) =~= before.update(
                i as int,
                (before[i as int].0, tally),
            ));
        },
        None => {
            proof {
                lemma_by_name_dom(before, contributor@);
                lemma_by_name_push(before, contributor@, Tally { lines: lines as nat, files: 1 });
            }
            contributors.push((contributor.to_owned(), ContributorInfo { lines, files: 1 }));
            assert(contributor_counts(contributors@) =~= before.push(
                (contributor@, Tally { lines: lines as nat, files: 1 }),
            ));
            assert(contributor_counts(contributors@).drop_last() =~= before);
        },
    }
}

/// Counts the file at `path` if it is in a language that is counted: its
/// lines for the language, and for the contributors the shares that the
/// attribution gave, which come to the same lines. Where the attribution
/// failed, the lines of the file on disk count, all of them for `Unknown`.
pub fn process_file(path: &str, report: &FileReport, stats: &mut Stats)
    requires
        old(stats).wf(),
        old(stats)@.takes(path@, *report),
    ensures
        final(stats).wf(),
        final(stats)@ == match contribution(path@, *report) {
            Some(file) => old(stats)@.record(file),
            None => old(stats)@,
        },
        final(stats).language_lines() == old(stats).language_lines() + added_lines(
            path@,
            *report,
        ),
        final(stats).contributor_lines() == old(stats).contributor_lines() + added_lines(
            path@,
            *report,
        ),
{
    if let Some(language) = get_language_name(path) {
        match &report.attribution {
            Ok(info) => {
                update_language_info(&mut stats.languages, language.as_str(), info.0);
                let shares = &info.1;
                let ghost start = by_name(contributor_counts(stats.contributors@));
                let ghost start_lines = lines_total(contributor_counts(stats.contributors@));
                let ghost languages = stats.languages@;
                let mut k: usize = 0;
                assert(shares_of(shares@).take(0) =~= Seq::<(Seq<char>, nat)>::empty());
                while k < shares.len()
                    invariant
                        k <= shares.len(),
                        stats.languages@ == languages,
                        distinct(language_counts(stats.languages@)),
                        distinct(contributor_counts(stats.contributors@)),
                        credit_all_fits(start, shares_of(shares@)),
                        by_name(contributor_counts(stats.contributors@)) == credit_all(
                            start,
                            shares_of(shares@).take(k as int),
                        ),
                        lines_total(contributor_counts(stats.contributors@)) == start_lines
                            + shares_total(shares_of(shares@).take(k as int)),
                    decreases shares.len() - k,
                {
                    proof {
                        lemma_credit_all_fits_prefix(start, shares_of(shares@), k + 1);
                        assert(shares_of(shares@).take(k + 1).drop_last() =~= shares_of(
                            shares@,
                        ).take(k as int));
                    }
                    update_contributor_info(
                        &mut stats.contributors,
                        shares[k].0.as_str(),
                        shares[k].1,
                    );
                    k = k + 1;
                }
                assert(shares_of(shares@).take(k as int) =~= shares_of(shares@));
            },
            Err(_) => {
                proof {
                    let shares = seq![("Unknown"@, report.lines as nat)];
                    assert(shares.drop_last() =~= Seq::<(Seq<char>, nat)>::empty());
                    reveal_with_fuel(credit_all, 2);
                    reveal_with_fuel(credit_all_fits, 2);
                }
                update_language_info(&mut stats.languages, language.as_str(), report.lines);
                update_contributor_info(&mut stats.contributors, "Unknown", report.lines);
            },
        }
    }
}

/// Counts the file at `path` as `process_file` does where it can be
/// counted, and leaves the tallies as they are where it cannot: where its
/// lines are not shared out, or a counter cannot hold what it would come to.
pub fn try_process_file(path: &str, report: &FileReport, stats: &mut Stats) -> (done: bool)
    requires
        old(stats).wf(),
    ensures
        done == old(stats)@.takes(path@, *report),
        final(stats).wf(),
        !done ==> *final(stats) == *old(stats),
        done ==> final(stats)@ == match contribution(path@, *report) {
            Some(file) => old(stats)@.record(file),
            None => old(stats)@,
        },
        done ==> final(stats).language_lines() == old(stats).language_lines() + added_lines(
            path@,
            *report,
        ),
        done ==> final(stats).contributor_lines() == old(stats).contributor_lines() + added_lines(
            path@,
            *report,
        ),
{
    match get_language_name(path) {
        Some(language) => {
            match &report.attribution {
                Ok(info) => {
                    if !is_valid_file_info(info) {
                        return false;
                    }
                    if !language_has_room(&stats.languages, language.as_str(), info.0) {
                        return false;
                    }
                    if !shares_have_room(&stats.contributors, &info.1) {
                        return false;
                    }
                },
                Err(_) => {
                    proof {
                        let shares = seq![("Unknown"@, report.lines as nat)];
                        assert(shares.drop_last() =~= Seq::<(Seq<char>, nat)>::empty());
                        reveal_with_fuel(credit_all, 2);
                        reveal_with_fuel(credit_all_fits, 2);
                    }
                    if !language_has_room(&stats.languages, language.as_str(), report.lines) {
                        return false;
                    }
                    if !contributor_has_room(&stats.contributors, "Unknown", report.lines) {
                        return false;
                    }
                },
            }
            process_file(path, report, stats);
            true
        },
        None => true,
    }
}

} // verus!

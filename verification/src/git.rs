//! Attribution of the lines of a file to contributors from what version
//! control reports about it.

use crate::table::{
    by_name, distinct, lemma_by_name_at, lemma_by_name_dom, lemma_by_name_push,
    lemma_by_name_update, position,
};
use vstd::prelude::*;

verus! {

/// Why the lines of a file could not be attributed.
#[derive(Debug, PartialEq, Eq)]
pub enum GitError {
    /// The repository has no branch that is its head.
    NoBranch,
    /// Version control failed; its message.
    Git(String),
    /// The file could not be read; the message of the failure.
    Io(String),
    /// Anything else, in words.
    Other(String),
}

impl GitError {
    /// The error in words.
    pub open spec fn text(self) -> Seq<char> {
        match self {
            GitError::NoBranch => "No default branch found"@,
            GitError::Git(message) => "Git error: "@ + message@,
            GitError::Io(message) => "IO error: "@ + message@,
            GitError::Other(message) => "Other error: "@ + message@,
        }
    }

    /// The error in words.
    pub fn message(&self) -> (text: String)
        ensures
            text@ == self.text(),
    {
        match self {
            GitError::NoBranch => "No default branch found".to_owned(),
            GitError::Git(message) => "Git error: ".to_owned().concat(message.as_str()),
            GitError::Io(message) => "IO error: ".to_owned().concat(message.as_str()),
            GitError::Other(message) => "Other error: ".to_owned().concat(message.as_str()),
        }
    }
}

/// The note that the lines of the file at `path` could not be attributed.
pub fn attribution_warning(path: &str, error: &GitError) -> (text: String)
    ensures
        text@ == "Git error for file "@ + path@ + ": "@ + error.text(),
{
    let mut text = "Git error for file ".to_owned();
    text.append(path);
    text.append(": ");
    text.append(error.message().as_str());
    text
}

/// The lines of a file, and how many of them each contributor has.
pub type FileInfo = (usize, Vec<(String, usize)>);

/// The shares of a file by the contributors' names.
pub open spec fn shares_of(list: Seq<(String, usize)>) -> Seq<(Seq<char>, nat)> {
    list.map_values(|share: (String, usize)| (share.0@, share.1 as nat))
}

/// All lines of the shares together.
pub open spec fn shares_total(shares: Seq<(Seq<char>, nat)>) -> nat
    decreases shares.len(),
{
    if shares.len() == 0 {
        0
    } else {
        shares_total(shares.drop_last()) + shares.last().1
    }
}

/// The first shares come to no more lines than all of them.
pub proof fn lemma_shares_total_grows(shares: Seq<(Seq<char>, nat)>, k: int)
    requires
        0 <= k <= shares.len(),
    ensures
        shares_total(shares.take(k)) <= shares_total(shares),
    decreases shares.len(),
{
    if k == shares.len() {
        assert(shares.take(k) =~= shares);
    } else {
        lemma_shares_total_grows(shares.drop_last(), k);
        assert(shares.drop_last().take(k) =~= shares.take(k));
    }
}

/// The lines of a file are shared out: no contributor is listed twice, and
/// the shares come to the lines of the file.
pub open spec fn valid_file_info(info: FileInfo) -> bool {
    &&& distinct(shares_of(info.1@))
    &&& shares_total(shares_of(info.1@)) == info.0
}

/// Whether the lines of a file are shared out.
pub fn is_valid_file_info(info: &FileInfo) -> (valid: bool)
    ensures
        valid == valid_file_info(*info),
{
    let shares = &info.1;
    let mut sum: usize = 0;
    let mut k: usize = 0;
    assert(shares_of(shares@).take(0) =~= Seq::<(Seq<char>, nat)>::empty());
    while k < shares.len()
        invariant
            k <= shares.len(),
            shares@ == info.1@,
            distinct(shares_of(shares@).take(k as int)),
            sum == shares_total(shares_of(shares@).take(k as int)),
            sum <= info.0,
        decreases shares.len() - k,
    {
        proof {
            lemma_shares_total_grows(shares_of(shares@), k + 1);
            assert(shares_of(shares@).take(k + 1).drop_last() =~= shares_of(shares@).take(
                k as int,
            ));
        }
        match position(shares, shares[k].0.as_str()) {
            Some(first) => {
                if first != k {
                    assert(shares_of(shares@)[first as int].0 == shares_of(shares@)[k as int].0);
                    return false;
                }
            },
            None => {
                assert(shares@[k as int].0@ == shares@[k as int].0@);
                return false;
            },
        }
        assert forall|a: int, b: int| 0 <= a < b < k + 1 implies (#[trigger] shares_of(
            shares@,
        ).take(k + 1)[a]).0 != (#[trigger] shares_of(shares@).take(k + 1)[b]).0 by {
            if b < k {
                assert(shares_of(shares@).take(k as int)[a].0 != shares_of(shares@).take(
                    k as int,
                )[b].0);
            } else {
                assert(shares@[a].0@ != shares@[k as int].0@);
            }
        }
        if shares[k].1 > info.0 - sum {
            return false;
        }
        sum = sum + shares[k].1;
        k = k + 1;
    }
    assert(shares_of(shares@).take(k as int) =~= shares_of(shares@));
    sum == info.0
}

/// A run of lines of a file that one revision changed last.
#[derive(Debug)]
pub struct BlameHunk {
    /// How many lines the hunk has.
    pub lines: usize,
    /// The name of the author of that revision, if it has one.
    pub author: Option<String>,
}

impl BlameHunk {
    /// The contributor that the hunk counts for: its author, and `Unknown`
    /// where the author has no name.
    pub open spec fn contributor(self) -> Seq<char> {
        match self.author {
            Some(name) => name@,
            None => "Unknown"@,
        }
    }
}

/// All lines of the hunks together.
pub open spec fn hunk_lines(hunks: Seq<BlameHunk>) -> nat
    decreases hunks.len(),
{
    if hunks.len() == 0 {
        0
    } else {
        hunk_lines(hunks.drop_last()) + hunks.last().lines as nat
    }
}

/// The lines of the hunks by contributor. A contributor with a hunk is
/// listed even where all its hunks are empty.
pub open spec fn blamed(hunks: Seq<BlameHunk>) -> Map<Seq<char>, nat>
    decreases hunks.len(),
{
    if hunks.len() == 0 {
        Map::empty()
    } else {
        let before = blamed(hunks.drop_last());
        let name = hunks.last().contributor();
        before.insert(
            name,
            if before.dom().contains(name) {
                before[name] + hunks.last().lines as nat
            } else {
                hunks.last().lines as nat
            },
        )
    }
}

/// The first hunks have no more lines than all of them.
pub proof fn lemma_hunk_lines_grows(hunks: Seq<BlameHunk>, k: int)
    requires
        0 <= k <= hunks.len(),
    ensures
        hunk_lines(hunks.take(k)) <= hunk_lines(hunks),
    decreases hunks.len(),
{
    if k == hunks.len() {
        assert(hunks.take(k) =~= hunks);
    } else {
        lemma_hunk_lines_grows(hunks.drop_last(), k);
        assert(hunks.drop_last().take(k) =~= hunks.take(k));
    }
}

/// A new count in a share changes the total by the difference, and no share
/// is larger than the total.
pub proof fn lemma_shares_total_update(shares: Seq<(Seq<char>, nat)>, i: int, lines: nat)
    requires
        0 <= i < shares.len(),
    ensures
        shares[i].1 <= shares_total(shares),
        shares_total(shares.update(i, (shares[i].0, lines))) + shares[i].1 == shares_total(shares)
            + lines,
    decreases shares.len(),
{
    let updated = shares.update(i, (shares[i].0, lines));
    let front = shares.drop_last();
    if i == shares.len() - 1 {
        assert(updated.drop_last() =~= front);
    } else {
        lemma_shares_total_update(front, i, lines);
        assert(updated.drop_last() =~= front.update(i, (front[i].0, lines)));
    }
}

/// All lines of the hunks together, or nothing where that is more than a
/// counter can hold.
pub fn count_hunk_lines(hunks: &Vec<BlameHunk>) -> (found: Option<usize>)
    ensures
        match found {
            Some(lines) => lines == hunk_lines(hunks@),
            None => hunk_lines(hunks@) > usize::MAX,
        },
{
    let mut lines: usize = 0;
    let mut k: usize = 0;
    while k < hunks.len()
        invariant
            k <= hunks.len(),
            lines == hunk_lines(hunks@.take(k as int)),
        decreases hunks.len() - k,
    {
        proof {
            lemma_hunk_lines_grows(hunks@, k + 1);
            assert(hunks@.take(k + 1).drop_last() =~= hunks@.take(k as int));
        }
        if hunks[k].lines > usize::MAX - lines {
            return None;
        }
        lines = lines + hunks[k].lines;
        k = k + 1;
    }
    assert(hunks@.take(k as int) =~= hunks@);
    Some(lines)
}

/// The lines of a blamed file and its shares by contributor: the hunks of
/// each contributor summed. The shares come to the lines of the file.
pub fn process_blame(hunks: &Vec<BlameHunk>) -> (info: FileInfo)
    requires
        hunk_lines(hunks@) <= usize::MAX,
    ensures
        info.0 == hunk_lines(hunks@),
        distinct(shares_of(info.1@)),
        by_name(shares_of(info.1@)) == blamed(hunks@),
        shares_total(shares_of(info.1@)) == info.0,
        valid_file_info(info),
{
    let mut lines: usize = 0;
    let mut contributors: Vec<(String, usize)> = Vec::new();
    let mut k: usize = 0;
    while k < hunks.len()
        invariant
            k <= hunks.len(),
            hunk_lines(hunks@) <= usize::MAX,
            lines == hunk_lines(hunks@.take(k as int)),
            distinct(shares_of(contributors@)),
            by_name(shares_of(contributors@)) == blamed(hunks@.take(k as int)),
            shares_total(shares_of(contributors@)) == lines,
        decreases hunks.len() - k,
    {
        let hunk = &hunks[k];
        let ghost before = shares_of(contributors@);
        proof {
            lemma_hunk_lines_grows(hunks@, k + 1);
            assert(hunks@.take(k + 1).drop_last() =~= hunks@.take(k as int));
        }
        let name: &str = match &hunk.author {
            Some(name) => name.as_str(),
            None => "Unknown",
        };
        match position(&contributors, name) {
            Some(i) => {
                let share = contributors[i].1;
                let owner = contributors[i].0.clone();
                proof {
                    lemma_by_name_at(before, i as int);
                    lemma_shares_total_update(before, i as int, (share + hunk.lines) as nat);
                    lemma_by_name_update(before, i as int, (share + hunk.lines) as nat);
                }
                contributors.set(i, (owner, share + hunk.lines));
                assert(shares_of(contributors@) =~= before.update(
                    i as int,
                    (before[i as int].0, (share + hunk.lines) as nat),
                ));
            },
            None => {
                proof {
                    lemma_by_name_dom(before, name@);
                    lemma_by_name_push(before, name@, hunk.lines as nat);
                }
                contributors.push((name.to_owned(), hunk.lines));
                assert(shares_of(contributors@) =~= before.push((name@, hunk.lines as nat)));
                assert(shares_of(contributors@).drop_last() =~= before);
            },
        }
        lines = lines + hunk.lines;
        k = k + 1;
    }
    assert(hunks@.take(k as int) =~= hunks@);
    (lines, contributors)
}

/// Where the name of the current user may come from, each source with what
/// it gave.
#[derive(Debug)]
pub struct IdentitySources {
    /// `user.name` in the configuration of the repository.
    pub local: Option<String>,
    /// `user.name` in the configuration of the user.
    pub global: Option<String>,
    /// `USER` in the environment.
    pub user: Option<String>,
    /// `USERNAME` in the environment.
    pub username: Option<String>,
}

impl IdentitySources {
    /// The name of the current user: that of the first source that has
    /// one, in the order repository, user, `USER`, `USERNAME`; `Unknown`
    /// where none has.
    pub open spec fn identity(self) -> Seq<char> {
        match self.local {
            Some(name) => name@,
            None => match self.global {
                Some(name) => name@,
                None => match self.user {
                    Some(name) => name@,
                    None => match self.username {
                        Some(name) => name@,
                        None => "Unknown"@,
                    },
                },
            },
        }
    }
}

/// The name of the current user.
pub fn get_current_user(sources: IdentitySources) -> (name: String)
    ensures
        name@ == sources.identity(),
{
    match sources.local {
        Some(name) => name,
        None => match sources.global {
            Some(name) => name,
            None => match sources.user {
                Some(name) => name,
                None => match sources.username {
                    Some(name) => name,
                    None => "Unknown".to_owned(),
                },
            },
        },
    }
}

/// A local branch of a repository.
#[derive(Debug)]
pub struct Branch {
    /// Whether the head of the repository points at this branch.
    pub is_head: bool,
    /// The commit at the tip of the branch, if the branch refers to one
    /// directly.
    pub target: Option<String>,
}

/// The first of the branches that is the head of the repository, by its
/// place; `NoBranch` where none is.
pub fn find_head_branch(branches: &Vec<Branch>) -> (found: Result<usize, GitError>)
    ensures
        match found {
            Ok(i) => i < branches@.len() && branches@[i as int].is_head && forall|j: int|
                0 <= j < i ==> !(#[trigger] branches@[j]).is_head,
            Err(error) => error == GitError::NoBranch && forall|j: int|
                0 <= j < branches@.len() ==> !(#[trigger] branches@[j]).is_head,
        },
{
    let mut i: usize = 0;
    while i < branches.len()
        invariant
            i <= branches@.len(),
            forall|j: int| 0 <= j < i ==> !(#[trigger] branches@[j]).is_head,
        decreases branches.len() - i,
    {
        if branches[i].is_head {
            return Ok(i);
        }
        i = i + 1;
    }
    Err(GitError::NoBranch)
}

/// What `Path::strip_prefix` of std leaves of `path` behind `base`, both
/// read as paths, or that `base` does not lead to `path`. It depends on the
/// two texts alone.
pub uninterp spec fn stripped(path: Seq<char>, base: Seq<char>) -> Option<Seq<char>>;

/// The text of what was left, if anything was.
pub open spec fn text_of(rest: Option<String>) -> Option<Seq<char>> {
    match rest {
        Some(text) => Some(text@),
        None => None,
    }
}

/// The path of a file relative to the working directory of its repository:
/// what is left of the path behind the working directory, or else behind
/// the current directory, or that it is behind neither.
pub open spec fn relative_path(path: Seq<char>, workdir: Seq<char>) -> Option<Seq<char>> {
    match stripped(path, workdir) {
        Some(rest) => Some(rest),
        None => stripped(path, "."@),
    }
}

/// `Path::strip_prefix` of std on two texts read as paths: what is left of
/// `path` behind `base`, where `base` leads to it component by component.
/// The contract gives what comes back its name, `stripped`, and claims no
/// more of it than that it is the same for the same two texts.
#[verifier::external_body]
fn strip_prefix(path: &str, base: &str) -> (rest: Option<String>)
    ensures
        text_of(rest) == stripped(path@, base@),
{
    match std::path::Path::new(path).strip_prefix(base) {
        Ok(rest) => match rest.to_str() {
            Some(text) => Some(text.to_owned()),
            None => None,
        },
        Err(_) => None,
    }
}

/// The path of a file in a repository from what is left of it behind the
/// working directory, or else behind the current directory; an error where
/// it is behind neither.
pub fn relative_path_from(under_workdir: Option<String>, under_current: Option<String>) -> (found:
    Result<String, GitError>)
    ensures
        match under_workdir {
            Some(rest) => found == Ok::<String, GitError>(rest),
            None => match under_current {
                Some(rest) => found == Ok::<String, GitError>(rest),
                None => found matches Err(GitError::Other(message)) && message@
                    == "Failed to create relative path: prefix not found"@,
            },
        },
{
    match under_workdir {
        Some(rest) => Ok(rest),
        None => match under_current {
            Some(rest) => Ok(rest),
            None => Err(
                GitError::Other("Failed to create relative path: prefix not found".to_owned()),
            ),
        },
    }
}

/// The path of a file relative to the working directory of its repository,
/// or else to the current directory; an error where it is under neither.
pub fn get_relative_path(path: &str, workdir: &str) -> (found: Result<String, GitError>)
    ensures
        match relative_path(path@, workdir@) {
            Some(rest) => found matches Ok(text) && text@ == rest,
            None => found matches Err(GitError::Other(message)) && message@
                == "Failed to create relative path: prefix not found"@,
        },
{
    relative_path_from(strip_prefix(path, workdir), strip_prefix(path, "."))
}

/// What the attribution of a file asks next.
#[derive(Debug)]
pub enum Query {
    /// Which repository encloses the file, and where is its working
    /// directory?
    Repository,
    /// What is the path of the file relative to this working directory?
    RelativePath(String),
    /// Do the ignore rules of the repository exclude this relative path?
    Ignored(String),
    /// Does the tree of the head commit hold this relative path?
    InTree(String),
    /// What do the configuration and the environment give as the user's
    /// name?
    Identity,
    /// How many lines has the file on disk?
    Lines,
    /// Which commit is at the tip of the branch that the head refers to?
    Head,
    /// Which local branches are there?
    Branches,
    /// The blame of this relative path, up to this commit where one is
    /// given.
    Blame(String, Option<String>),
}

/// What came back for a query.
#[derive(Debug)]
pub enum Answer {
    /// No repository encloses the file.
    NoRepository,
    /// The working directory of the repository, if it has one.
    Repository(Option<String>),
    /// The relative path of the file.
    RelativePath(String),
    /// Yes or no.
    Flag(bool),
    /// What each source gave as the user's name.
    Identity(IdentitySources),
    /// The lines of the file on disk.
    Lines(usize),
    /// The commit at the tip of the head's branch, if it refers to one
    /// directly.
    Head(Option<String>),
    /// The local branches that could be read.
    Branches(Vec<Branch>),
    /// The hunks of the blame, in the order of the file.
    Hunks(Vec<BlameHunk>),
    /// The query failed.
    Failed(GitError),
}

/// How far the attribution of a file has come: what it waits for, and what
/// it keeps for later.
#[derive(Debug)]
pub enum Attributor {
    /// Waits for the repository.
    Locating,
    /// Waits for the relative path.
    Relating,
    /// Waits to hear whether the relative path is ignored.
    CheckingIgnored(String),
    /// Waits to hear whether the head commit holds the relative path.
    CheckingTree(String),
    /// Waits for the sources of the user's name.
    Identifying,
    /// Waits for the lines of the file, to give them all to this user.
    Counting(String),
    /// Waits for the head's branch, to blame the relative path.
    ResolvingHead(String),
    /// Waits for the local branches, to blame the relative path.
    ListingBranches(String),
    /// Waits for the hunks.
    Blaming,
}

/// What follows an answer: the next query, or the result.
#[derive(Debug)]
pub enum Step {
    Ask(Attributor, Query),
    Done(Result<FileInfo, GitError>),
}

/// The step that gives all lines of the file to the current user: for a
/// file outside any repository, ignored, or new to it.
pub open spec fn falls_back(step: Step) -> bool {
    step == Step::Ask(Attributor::Identifying, Query::Identity)
}

/// The step that ends the attribution with the failure of a query.
pub open spec fn fails_with(step: Step, error: GitError) -> bool {
    step == Step::Done(Err(error))
}

/// `i` is the place of the first branch that is the head.
pub open spec fn is_first_head(branches: Seq<Branch>, i: int) -> bool {
    &&& 0 <= i < branches.len()
    &&& branches[i].is_head
    &&& forall|j: int| 0 <= j < i ==> !(#[trigger] branches[j]).is_head
}

/// `info` gives all of `lines` lines to `user`.
pub open spec fn credits_all_to(info: FileInfo, user: Seq<char>, lines: usize) -> bool {
    info.0 == lines && shares_of(info.1@) == seq![(user, lines as nat)]
}

/// `info` is the blame `hunks` by contributor.
pub open spec fn sums_up(info: FileInfo, hunks: Seq<BlameHunk>) -> bool {
    &&& info.0 == hunk_lines(hunks)
    &&& distinct(shares_of(info.1@))
    &&& by_name(shares_of(info.1@)) == blamed(hunks)
    &&& shares_total(shares_of(info.1@)) == info.0
}

/// Whether `step` is what follows `answer` at `stage`.
///
/// A file that no repository encloses, whose repository has no working
/// directory, whose relative path cannot be had, that is ignored or that
/// the head commit does not hold has all its lines on disk given to the
/// current user. Any
/// other file is blamed on the head's branch, or else on the first local
/// branch that is the head. A query that fails ends the attribution with
/// its error, but for the two that have a way on. An answer that does not
/// fit the stage ends it too.
pub open spec fn follows(stage: Attributor, answer: Answer, step: Step) -> bool {
    match (stage, answer) {
        (Attributor::Locating, Answer::NoRepository) => falls_back(step),
        (Attributor::Locating, Answer::Repository(None)) => falls_back(step),
        (Attributor::Locating, Answer::Repository(Some(workdir))) => step == Step::Ask(
            Attributor::Relating,
            Query::RelativePath(workdir),
        ),
        (Attributor::Locating, Answer::Failed(error)) => fails_with(step, error),
        (Attributor::Relating, Answer::RelativePath(relative)) => step == Step::Ask(
            Attributor::CheckingIgnored(relative),
            Query::Ignored(relative),
        ),
        (Attributor::Relating, Answer::Failed(_)) => falls_back(step),
        (Attributor::CheckingIgnored(relative), Answer::Flag(ignored)) => if ignored {
            falls_back(step)
        } else {
            step == Step::Ask(Attributor::CheckingTree(relative), Query::InTree(relative))
        },
        (Attributor::CheckingIgnored(_), Answer::Failed(error)) => fails_with(step, error),
        (Attributor::CheckingTree(relative), Answer::Flag(present)) => if present {
            step == Step::Ask(Attributor::ResolvingHead(relative), Query::Head)
        } else {
            falls_back(step)
        },
        (Attributor::CheckingTree(_), Answer::Failed(error)) => fails_with(step, error),
        (Attributor::Identifying, Answer::Identity(sources)) => {
            &&& step matches Step::Ask(Attributor::Counting(user), Query::Lines)
            &&& user@ == sources.identity()
        },
        (Attributor::Identifying, Answer::Failed(error)) => fails_with(step, error),
        (Attributor::Counting(user), Answer::Lines(lines)) => {
            &&& step matches Step::Done(Ok(info))
            &&& credits_all_to(info, user@, lines)
        },
        (Attributor::Counting(_), Answer::Failed(error)) => fails_with(step, error),
        (Attributor::ResolvingHead(relative), Answer::Head(target)) => step == Step::Ask(
            Attributor::Blaming,
            Query::Blame(relative, target),
        ),
        (Attributor::ResolvingHead(relative), Answer::Failed(_)) => step == Step::Ask(
            Attributor::ListingBranches(relative),
            Query::Branches,
        ),
        (Attributor::ListingBranches(relative), Answer::Branches(branches)) => {
            ||| exists|i: int| #[trigger]
                is_first_head(branches@, i) && step == Step::Ask(
                    Attributor::Blaming,
                    Query::Blame(relative, branches@[i].target),
                )
            ||| (forall|j: int| 0 <= j < branches@.len() ==> !(#[trigger] branches@[j]).is_head)
                && fails_with(step, GitError::NoBranch)
        },
        (Attributor::ListingBranches(_), Answer::Failed(error)) => fails_with(step, error),
        (Attributor::Blaming, Answer::Hunks(hunks)) => {
            &&& step matches Step::Done(Ok(info))
            &&& sums_up(info, hunks@)
        },
        (Attributor::Blaming, Answer::Failed(error)) => fails_with(step, error),
        _ => {
            &&& step matches Step::Done(Err(GitError::Other(message)))
            &&& message@ == "Unexpected answer"@
        },
    }
}

/// The first step of the attribution of a file: the question for its
/// repository.
pub fn start_file_info() -> (step: Step)
    ensures
        step == Step::Ask(Attributor::Locating, Query::Repository),
{
    Step::Ask(Attributor::Locating, Query::Repository)
}

/// Takes the answer to the last query of the attribution of a file and
/// gives the next query, or the lines of the file and the share of each
/// contributor.
pub fn get_file_info(stage: Attributor, answer: Answer) -> (step: Step)
    requires
        answer matches Answer::Hunks(hunks) ==> hunk_lines(hunks@) <= usize::MAX,
    ensures
        follows(stage, answer, step),
{
    match (stage, answer) {
        (Attributor::Locating, Answer::NoRepository) => Step::Ask(
            Attributor::Identifying,
            Query::Identity,
        ),
        (Attributor::Locating, Answer::Repository(None)) => Step::Ask(
            Attributor::Identifying,
            Query::Identity,
        ),
        (Attributor::Locating, Answer::Repository(Some(workdir))) => Step::Ask(
            Attributor::Relating,
            Query::RelativePath(workdir),
        ),
        (Attributor::Locating, Answer::Failed(error)) => Step::Done(Err(error)),
        (Attributor::Relating, Answer::RelativePath(relative)) => {
            let query = Query::Ignored(relative.clone());
            Step::Ask(Attributor::CheckingIgnored(relative), query)
        },
        (Attributor::Relating, Answer::Failed(_)) => Step::Ask(
            Attributor::Identifying,
            Query::Identity,
        ),
        (Attributor::CheckingIgnored(relative), Answer::Flag(ignored)) => {
            if ignored {
                Step::Ask(Attributor::Identifying, Query::Identity)
            } else {
                let query = Query::InTree(relative.clone());
                Step::Ask(Attributor::CheckingTree(relative), query)
            }
        },
        (Attributor::CheckingIgnored(_), Answer::Failed(error)) => Step::Done(Err(error)),
        (Attributor::CheckingTree(relative), Answer::Flag(present)) => {
            if present {
                Step::Ask(Attributor::ResolvingHead(relative), Query::Head)
            } else {
                Step::Ask(Attributor::Identifying, Query::Identity)
            }
        },
        (Attributor::CheckingTree(_), Answer::Failed(error)) => Step::Done(Err(error)),
        (Attributor::Identifying, Answer::Identity(sources)) => Step::Ask(
            Attributor::Counting(get_current_user(sources)),
            Query::Lines,
        ),
        (Attributor::Identifying, Answer::Failed(error)) => Step::Done(Err(error)),
        (Attributor::Counting(user), Answer::Lines(lines)) => {
            let ghost name = user@;
            let mut contributors: Vec<(String, usize)> = Vec::new();
            contributors.push((user, lines));
            assert(shares_of(contributors@) =~= seq![(name, lines as nat)]);
            Step::Done(Ok((lines, contributors)))
        },
        (Attributor::Counting(_), Answer::Failed(error)) => Step::Done(Err(error)),
        (Attributor::ResolvingHead(relative), Answer::Head(target)) => Step::Ask(
            Attributor::Blaming,
            Query::Blame(relative, target),
        ),
        (Attributor::ResolvingHead(relative), Answer::Failed(_)) => Step::Ask(
            Attributor::ListingBranches(relative),
            Query::Branches,
        ),
        (Attributor::ListingBranches(relative), Answer::Branches(branches)) => {
            let mut branches = branches;
            let ghost listed = branches@;
            match find_head_branch(&branches) {
                Ok(i) => {
                    let branch = branches.remove(i);
                    assert(is_first_head(listed, i as int));
                    Step::Ask(Attributor::Blaming, Query::Blame(relative, branch.target))
                },
                Err(error) => Step::Done(Err(error)),
            }
        },
        (Attributor::ListingBranches(_), Answer::Failed(error)) => Step::Done(Err(error)),
        (Attributor::Blaming, Answer::Hunks(hunks)) => Step::Done(Ok(process_blame(&hunks))),
        (Attributor::Blaming, Answer::Failed(error)) => Step::Done(Err(error)),
        _ => Step::Done(Err(GitError::Other("Unexpected answer".to_owned()))),
    }
}

/// The step that `get_file_info` gives, or nothing where the answer is a
/// blame with more lines than a counter can hold.
pub fn try_get_file_info(stage: Attributor, answer: Answer) -> (step: Option<Step>)
    ensures
        step is None <==> (answer matches Answer::Hunks(hunks) && hunk_lines(hunks@) > usize::MAX),
        step matches Some(step) ==> follows(stage, answer, step),
{
    let fits = match &answer {
        Answer::Hunks(hunks) => count_hunk_lines(hunks).is_some(),
        _ => true,
    };
    if fits {
        Some(get_file_info(stage, answer))
    } else {
        None
    }
}

/// Whatever the attribution of a file ends with, the lines are shared out:
/// no contributor is listed twice, and the shares come to the lines of the
/// file.
pub proof fn lemma_attribution_is_valid(stage: Attributor, answer: Answer, step: Step)
    requires
        follows(stage, answer, step),
        step matches Step::Done(Ok(_)),
    ensures
        step matches Step::Done(Ok(info)) && valid_file_info(info),
{
    let info = step->Done_0->Ok_0;
    match (stage, answer) {
        (Attributor::Counting(user), Answer::Lines(lines)) => {
            let shares = seq![(user@, lines as nat)];
            assert(shares.drop_last() =~= Seq::<(Seq<char>, nat)>::empty());
            assert(shares_total(shares) == lines) by {
                reveal_with_fuel(shares_total, 2);
            }
        },
        _ => {},
    }
}

/// A file that no repository encloses has all its lines on disk given to
/// the current user, whose name is the first that a source has, and no line
/// to anyone else.
pub proof fn lemma_outside_any_repository(
    sources: IdentitySources,
    lines: usize,
    first: Step,
    second: Step,
    third: Step,
)
    requires
        follows(Attributor::Locating, Answer::NoRepository, first),
        first is Ask ==> follows(first->Ask_0, Answer::Identity(sources), second),
        second is Ask ==> follows(second->Ask_0, Answer::Lines(lines), third),
    ensures
        first is Ask,
        second is Ask,
        third matches Step::Done(Ok(info)) && credits_all_to(info, sources.identity(), lines),
{
}

} // verus!

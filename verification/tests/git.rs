use rustylines::git::{
    attribution_warning, count_hunk_lines, find_head_branch, get_current_user, get_file_info,
    get_relative_path, is_valid_file_info, process_blame, relative_path_from, start_file_info, try_get_file_info,
    Answer, Attributor, BlameHunk, Branch, GitError, IdentitySources, Query, Step,
};

fn hunk(lines: usize, author: &str) -> BlameHunk {
    BlameHunk { lines, author: Some(author.to_string()) }
}

fn sources(
    local: Option<&str>,
    global: Option<&str>,
    user: Option<&str>,
    username: Option<&str>,
) -> IdentitySources {
    IdentitySources {
        local: local.map(str::to_string),
        global: global.map(str::to_string),
        user: user.map(str::to_string),
        username: username.map(str::to_string),
    }
}

fn ask(step: Step) -> (Attributor, Query) {
    match step {
        Step::Ask(stage, query) => (stage, query),
        Step::Done(result) => panic!("ended with {:?}", result),
    }
}

fn done(step: Step) -> Result<(usize, Vec<(String, usize)>), GitError> {
    match step {
        Step::Done(result) => result,
        Step::Ask(stage, query) => panic!("went on with {:?} and {:?}", stage, query),
    }
}

fn until_head(relative: &str) -> Attributor {
    let (stage, query) = ask(start_file_info());
    assert!(matches!(query, Query::Repository));
    let (stage, query) = ask(get_file_info(stage, Answer::Repository(Some("/repo/".to_string()))));
    assert!(matches!(query, Query::RelativePath(ref workdir) if workdir == "/repo/"));
    let (stage, query) = ask(get_file_info(stage, Answer::RelativePath(relative.to_string())));
    assert!(matches!(query, Query::Ignored(ref path) if path == relative));
    let (stage, query) = ask(get_file_info(stage, Answer::Flag(false)));
    assert!(matches!(query, Query::InTree(ref path) if path == relative));
    let (stage, query) = ask(get_file_info(stage, Answer::Flag(true)));
    assert!(matches!(query, Query::Head));
    stage
}

fn falls_back(step: Step) {
    let (stage, query) = ask(step);
    assert!(matches!(stage, Attributor::Identifying));
    assert!(matches!(query, Query::Identity));
    let (stage, query) =
        ask(get_file_info(stage, Answer::Identity(sources(Some("Me"), None, None, None))));
    assert!(matches!(query, Query::Lines));
    assert_eq!(done(get_file_info(stage, Answer::Lines(3))), Ok((3, vec![("Me".to_string(), 3)])));
}

#[test]
fn process_blame_sums_hunks_by_author() {
    let hunks = vec![hunk(5, "Alice"), hunk(5, "Bob")];
    assert_eq!(
        process_blame(&hunks),
        (10, vec![("Alice".to_string(), 5), ("Bob".to_string(), 5)])
    );
}

#[test]
fn process_blame_joins_the_hunks_of_one_author() {
    let hunks = vec![hunk(3, "Alice"), hunk(4, "Bob"), hunk(2, "Alice"), hunk(1, "Bob")];
    assert_eq!(
        process_blame(&hunks),
        (10, vec![("Alice".to_string(), 5), ("Bob".to_string(), 5)])
    );
}

#[test]
fn process_blame_of_no_hunks() {
    assert_eq!(process_blame(&Vec::new()), (0, Vec::new()));
}

#[test]
fn process_blame_names_an_author_without_name_unknown() {
    let hunks = vec![BlameHunk { lines: 2, author: None }, hunk(1, "Alice"), hunk(4, "Unknown")];
    assert_eq!(
        process_blame(&hunks),
        (7, vec![("Unknown".to_string(), 6), ("Alice".to_string(), 1)])
    );
}

#[test]
fn process_blame_lists_an_author_of_empty_hunks() {
    let hunks = vec![hunk(0, "Alice")];
    assert_eq!(process_blame(&hunks), (0, vec![("Alice".to_string(), 0)]));
}

#[test]
fn process_blame_shares_come_to_the_total() {
    let hunks = vec![
        hunk(11, "Alice"),
        hunk(7, "Bob"),
        hunk(1, "Carol"),
        hunk(30, "Alice"),
        BlameHunk { lines: 9, author: None },
        hunk(2, "Bob"),
    ];
    let known: usize = hunks.iter().map(|h| h.lines).sum();
    let (total, shares) = process_blame(&hunks);
    assert_eq!(total, known);
    assert_eq!(shares.iter().map(|s| s.1).sum::<usize>(), total);
    assert_eq!(total, 60);
}

#[test]
fn get_current_user_takes_the_first_source() {
    assert_eq!(get_current_user(sources(Some("l"), Some("g"), Some("u"), Some("n"))), "l");
    assert_eq!(get_current_user(sources(None, Some("g"), Some("u"), Some("n"))), "g");
    assert_eq!(get_current_user(sources(None, None, Some("u"), Some("n"))), "u");
    assert_eq!(get_current_user(sources(None, None, None, Some("n"))), "n");
}

#[test]
fn get_current_user_without_any_source() {
    assert_eq!(get_current_user(sources(None, None, None, None)), "Unknown");
}

#[test]
fn find_head_branch_gives_the_first_head() {
    let branches = vec![
        Branch { is_head: false, target: Some("a".to_string()) },
        Branch { is_head: true, target: Some("b".to_string()) },
        Branch { is_head: true, target: Some("c".to_string()) },
    ];
    assert_eq!(find_head_branch(&branches), Ok(1));
}

#[test]
fn find_head_branch_without_head() {
    let branches = vec![Branch { is_head: false, target: None }];
    assert_eq!(find_head_branch(&branches), Err(GitError::NoBranch));
    assert_eq!(find_head_branch(&Vec::new()), Err(GitError::NoBranch));
}

#[test]
fn get_relative_path_under_the_working_directory() {
    assert_eq!(get_relative_path("/repo/src/a.rs", "/repo/"), Ok("src/a.rs".to_string()));
    assert_eq!(get_relative_path("/repo/src/a.rs", "/repo"), Ok("src/a.rs".to_string()));
}

#[test]
fn get_relative_path_under_the_current_directory() {
    assert_eq!(get_relative_path("./src/a.rs", "/repo/"), Ok("src/a.rs".to_string()));
}

#[test]
fn get_relative_path_under_neither() {
    assert_eq!(
        get_relative_path("/elsewhere/a.rs", "/repo/"),
        Err(GitError::Other("Failed to create relative path: prefix not found".to_string()))
    );
    assert_eq!(
        get_relative_path("/repository/a.rs", "/repo"),
        Err(GitError::Other("Failed to create relative path: prefix not found".to_string()))
    );
}

#[test]
fn relative_path_from_prefers_the_working_directory() {
    assert_eq!(
        relative_path_from(Some("w".to_string()), Some("c".to_string())),
        Ok("w".to_string())
    );
    assert_eq!(relative_path_from(None, Some("c".to_string())), Ok("c".to_string()));
    assert_eq!(
        relative_path_from(None, None),
        Err(GitError::Other("Failed to create relative path: prefix not found".to_string()))
    );
}

#[test]
fn git_error_messages() {
    assert_eq!(GitError::NoBranch.message(), "No default branch found");
    assert_eq!(GitError::Git("boom".to_string()).message(), "Git error: boom");
    assert_eq!(GitError::Io("gone".to_string()).message(), "IO error: gone");
    assert_eq!(GitError::Other("odd".to_string()).message(), "Other error: odd");
}

#[test]
fn attribution_warning_names_file_and_error() {
    assert_eq!(
        attribution_warning("src/a.rs", &GitError::NoBranch),
        "Git error for file src/a.rs: No default branch found"
    );
}

#[test]
fn file_outside_any_repository_goes_to_the_current_user() {
    let (stage, query) = ask(start_file_info());
    assert!(matches!(stage, Attributor::Locating));
    assert!(matches!(query, Query::Repository));
    let (stage, query) = ask(get_file_info(stage, Answer::NoRepository));
    assert!(matches!(query, Query::Identity));
    let answer = Answer::Identity(sources(None, Some("Global Name"), Some("login"), None));
    let (stage, query) = ask(get_file_info(stage, answer));
    assert!(matches!(query, Query::Lines));
    assert_eq!(
        done(get_file_info(stage, Answer::Lines(10))),
        Ok((10, vec![("Global Name".to_string(), 10)]))
    );
}

#[test]
fn file_without_any_identity_goes_to_unknown() {
    let (stage, _) = ask(start_file_info());
    let (stage, _) = ask(get_file_info(stage, Answer::NoRepository));
    let (stage, _) = ask(get_file_info(stage, Answer::Identity(sources(None, None, None, None))));
    assert_eq!(
        done(get_file_info(stage, Answer::Lines(4))),
        Ok((4, vec![("Unknown".to_string(), 4)]))
    );
}

#[test]
fn bare_repository_falls_back() {
    let (stage, _) = ask(start_file_info());
    falls_back(get_file_info(stage, Answer::Repository(None)));
}

#[test]
fn missing_relative_path_falls_back() {
    let (stage, _) = ask(start_file_info());
    let (stage, _) = ask(get_file_info(stage, Answer::Repository(Some("/repo/".to_string()))));
    let failure = GitError::Other("Failed to create relative path: prefix not found".to_string());
    falls_back(get_file_info(stage, Answer::Failed(failure)));
}

#[test]
fn ignored_file_falls_back() {
    let (stage, _) = ask(start_file_info());
    let (stage, _) = ask(get_file_info(stage, Answer::Repository(Some("/repo/".to_string()))));
    let (stage, _) = ask(get_file_info(stage, Answer::RelativePath("target/x.rs".to_string())));
    falls_back(get_file_info(stage, Answer::Flag(true)));
}

#[test]
fn untracked_file_falls_back() {
    let (stage, _) = ask(start_file_info());
    let (stage, _) = ask(get_file_info(stage, Answer::Repository(Some("/repo/".to_string()))));
    let (stage, _) = ask(get_file_info(stage, Answer::RelativePath("new.rs".to_string())));
    let (stage, query) = ask(get_file_info(stage, Answer::Flag(false)));
    assert!(matches!(query, Query::InTree(ref path) if path == "new.rs"));
    falls_back(get_file_info(stage, Answer::Flag(false)));
}

#[test]
fn tracked_file_is_blamed_on_the_head() {
    let stage = until_head("src/a.rs");
    let (stage, query) = ask(get_file_info(stage, Answer::Head(Some("c0ffee".to_string()))));
    match query {
        Query::Blame(path, target) => {
            assert_eq!(path, "src/a.rs");
            assert_eq!(target, Some("c0ffee".to_string()));
        },
        other => panic!("asked {:?}", other),
    }
    let hunks = vec![hunk(5, "Alice"), hunk(5, "Bob")];
    assert_eq!(
        done(get_file_info(stage, Answer::Hunks(hunks))),
        Ok((10, vec![("Alice".to_string(), 5), ("Bob".to_string(), 5)]))
    );
}

#[test]
fn head_without_commit_is_blamed_up_to_the_newest() {
    let stage = until_head("a.rs");
    let (_, query) = ask(get_file_info(stage, Answer::Head(None)));
    assert!(matches!(query, Query::Blame(ref path, None) if path == "a.rs"));
}

#[test]
fn unresolved_head_looks_through_the_local_branches() {
    let stage = until_head("a.rs");
    let (stage, query) =
        ask(get_file_info(stage, Answer::Failed(GitError::Git("no head".to_string()))));
    assert!(matches!(query, Query::Branches));
    let branches = vec![
        Branch { is_head: false, target: Some("1".to_string()) },
        Branch { is_head: true, target: Some("2".to_string()) },
    ];
    let (stage, query) = ask(get_file_info(stage, Answer::Branches(branches)));
    assert!(matches!(stage, Attributor::Blaming));
    assert!(
        matches!(query, Query::Blame(ref path, Some(ref target)) if path == "a.rs" && target == "2")
    );
}

#[test]
fn no_head_among_the_local_branches_is_no_branch() {
    let stage = until_head("a.rs");
    let (stage, _) = ask(get_file_info(stage, Answer::Failed(GitError::Git("no head".to_string()))));
    let branches = vec![Branch { is_head: false, target: Some("1".to_string()) }];
    assert_eq!(done(get_file_info(stage, Answer::Branches(branches))), Err(GitError::NoBranch));
}

#[test]
fn failed_queries_end_the_attribution_with_their_error() {
    let failure = || GitError::Git("broken".to_string());
    let (stage, _) = ask(start_file_info());
    assert_eq!(done(get_file_info(stage, Answer::Failed(failure()))), Err(failure()));

    let (stage, _) = ask(start_file_info());
    let (stage, _) = ask(get_file_info(stage, Answer::Repository(Some("/r/".to_string()))));
    let (stage, _) = ask(get_file_info(stage, Answer::RelativePath("a.rs".to_string())));
    assert_eq!(done(get_file_info(stage, Answer::Failed(failure()))), Err(failure()));

    let (stage, _) = ask(start_file_info());
    let (stage, _) = ask(get_file_info(stage, Answer::Repository(Some("/r/".to_string()))));
    let (stage, _) = ask(get_file_info(stage, Answer::RelativePath("a.rs".to_string())));
    let (stage, _) = ask(get_file_info(stage, Answer::Flag(false)));
    assert_eq!(done(get_file_info(stage, Answer::Failed(failure()))), Err(failure()));

    let (stage, _) = ask(start_file_info());
    let (stage, _) = ask(get_file_info(stage, Answer::NoRepository));
    assert_eq!(done(get_file_info(stage, Answer::Failed(failure()))), Err(failure()));

    let (stage, _) = ask(start_file_info());
    let (stage, _) = ask(get_file_info(stage, Answer::NoRepository));
    let (stage, _) = ask(get_file_info(stage, Answer::Identity(sources(None, None, None, None))));
    let unreadable = GitError::Io("denied".to_string());
    assert_eq!(
        done(get_file_info(stage, Answer::Failed(unreadable))),
        Err(GitError::Io("denied".to_string()))
    );

    let stage = until_head("a.rs");
    let (stage, _) = ask(get_file_info(stage, Answer::Failed(failure())));
    assert_eq!(done(get_file_info(stage, Answer::Failed(failure()))), Err(failure()));

    let stage = until_head("a.rs");
    let (stage, _) = ask(get_file_info(stage, Answer::Head(None)));
    assert_eq!(done(get_file_info(stage, Answer::Failed(failure()))), Err(failure()));
}

#[test]
fn answer_that_does_not_fit_ends_the_attribution() {
    let (stage, _) = ask(start_file_info());
    assert_eq!(
        done(get_file_info(stage, Answer::Lines(3))),
        Err(GitError::Other("Unexpected answer".to_string()))
    );
    let stage = until_head("a.rs");
    assert_eq!(
        done(get_file_info(stage, Answer::Flag(true))),
        Err(GitError::Other("Unexpected answer".to_string()))
    );
}

#[test]
fn count_hunk_lines_sums_or_gives_up() {
    assert_eq!(count_hunk_lines(&Vec::new()), Some(0));
    assert_eq!(count_hunk_lines(&vec![hunk(3, "a"), hunk(4, "b"), hunk(0, "c")]), Some(7));
    assert_eq!(count_hunk_lines(&vec![hunk(usize::MAX, "a")]), Some(usize::MAX));
    assert_eq!(count_hunk_lines(&vec![hunk(usize::MAX, "a"), hunk(0, "b")]), Some(usize::MAX));
    assert_eq!(count_hunk_lines(&vec![hunk(usize::MAX, "a"), hunk(1, "b")]), None);
    assert_eq!(count_hunk_lines(&vec![hunk(1, "a"), hunk(usize::MAX - 1, "b"), hunk(1, "a")]), None);
}

#[test]
fn try_get_file_info_takes_a_blame_that_fits() {
    let stage = until_head("a.rs");
    let (stage, _) = ask(get_file_info(stage, Answer::Head(None)));
    let step = try_get_file_info(stage, Answer::Hunks(vec![hunk(2, "Alice")])).unwrap();
    assert_eq!(done(step), Ok((2, vec![("Alice".to_string(), 2)])));
}

#[test]
fn try_get_file_info_gives_up_on_a_blame_that_does_not_fit() {
    let stage = until_head("a.rs");
    let (stage, _) = ask(get_file_info(stage, Answer::Head(None)));
    let hunks = vec![hunk(usize::MAX, "Alice"), hunk(1, "Bob")];
    assert!(try_get_file_info(stage, Answer::Hunks(hunks)).is_none());
}

#[test]
fn try_get_file_info_takes_every_other_answer() {
    let (stage, _) = ask(start_file_info());
    let step = try_get_file_info(stage, Answer::NoRepository).unwrap();
    assert!(matches!(step, Step::Ask(Attributor::Identifying, Query::Identity)));
}

#[test]
fn is_valid_file_info_asks_for_shares_that_come_to_the_lines() {
    let info = |lines: usize, shares: &[(&str, usize)]| {
        (lines, shares.iter().map(|s| (s.0.to_string(), s.1)).collect::<Vec<_>>())
    };
    assert!(is_valid_file_info(&info(0, &[])));
    assert!(is_valid_file_info(&info(10, &[("Alice", 4), ("Bob", 6)])));
    assert!(is_valid_file_info(&info(0, &[("Alice", 0)])));
    assert!(is_valid_file_info(&info(usize::MAX, &[("Alice", usize::MAX), ("Bob", 0)])));
    assert!(!is_valid_file_info(&info(10, &[("Alice", 7)])));
    assert!(!is_valid_file_info(&info(7, &[("Alice", 10)])));
    assert!(!is_valid_file_info(&info(1, &[])));
    assert!(!is_valid_file_info(&info(5, &[("Alice", usize::MAX), ("Bob", 6)])));
}

#[test]
fn is_valid_file_info_asks_for_each_contributor_once() {
    let twice = (7, vec![("Alice".to_string(), 3), ("Bob".to_string(), 0), ("Alice".to_string(), 4)]);
    assert!(!is_valid_file_info(&twice));
}

#[test]
fn what_the_attribution_gives_is_valid() {
    assert!(is_valid_file_info(&process_blame(&vec![
        hunk(3, "Alice"),
        hunk(4, "Bob"),
        hunk(2, "Alice"),
        BlameHunk { lines: 1, author: None },
    ])));
    let (stage, _) = ask(start_file_info());
    let (stage, _) = ask(get_file_info(stage, Answer::NoRepository));
    let (stage, _) = ask(get_file_info(stage, Answer::Identity(sources(None, None, None, None))));
    assert!(is_valid_file_info(&done(get_file_info(stage, Answer::Lines(4))).unwrap()));
}

use flog::repo::branch_collecting::{
    branch_record, collect_branches, first_of_each_branch, get_branches_of_repo,
    get_latest_commit_epoch_sec, has_branch, same_branch, RepoBranch,
};
use flog::repo::recency::{comes_before, sort_by_recency};
use flog::repo::repo_scanning::{
    enumerated_branches, find_repo, get_repo_receiver, BranchProbe, DirListing, DiscoveryError,
    EntryProbe, RepoHandle,
};

fn branch(name: &str, tip: Option<i64>) -> BranchProbe {
    BranchProbe { name: Some(name.to_string()), tip_commit_sec: tip }
}

fn unnamed(tip: Option<i64>) -> BranchProbe {
    BranchProbe { name: None, tip_commit_sec: tip }
}

fn repo(path: &str, branches: Vec<BranchProbe>) -> EntryProbe {
    EntryProbe::Repository(RepoHandle { path: path.to_string(), branches: Some(branches) })
}

fn broken_repo(path: &str) -> EntryProbe {
    EntryProbe::Repository(RepoHandle { path: path.to_string(), branches: None })
}

fn listing(base_dir: &str, entries: Vec<EntryProbe>) -> DirListing {
    DirListing { base_dir: base_dir.to_string(), entries: Ok(entries) }
}

fn missing(base_dir: &str, reason: &str) -> DirListing {
    DirListing { base_dir: base_dir.to_string(), entries: Err(reason.to_string()) }
}

fn rows(records: &Vec<RepoBranch>) -> Vec<(String, String, Option<i64>)> {
    records
        .iter()
        .map(|r| (r.repo_name.clone(), r.branch_name.clone(), r.latest_commit_sec))
        .collect()
}

fn row(repo: &str, branch: &str, time: Option<i64>) -> (String, String, Option<i64>) {
    (repo.to_string(), branch.to_string(), time)
}

#[test]
fn one_repository_most_recent_branch_first() {
    let listings = vec![listing(
        "/repos",
        vec![repo("/repos/a", vec![branch("main", Some(1000)), branch("feature/x", Some(2000))])],
    )];
    let records = collect_branches(&listings).unwrap();
    assert_eq!(
        rows(&records),
        vec![row("/repos/a", "feature/x", Some(2000)), row("/repos/a", "main", Some(1000))]
    );
}

#[test]
fn non_repository_and_empty_repository_give_nothing() {
    let listings =
        vec![listing("/repos", vec![EntryProbe::NotRepository, repo("/repos/empty", vec![])])];
    let records = collect_branches(&listings).unwrap();
    assert!(records.is_empty());
}

#[test]
fn plain_files_are_passed_over() {
    let listings = vec![listing(
        "/repos",
        vec![EntryProbe::NotDirectory, repo("/repos/a", vec![branch("main", Some(5))])],
    )];
    let records = collect_branches(&listings).unwrap();
    assert_eq!(rows(&records), vec![row("/repos/a", "main", Some(5))]);
}

#[test]
fn missing_base_directory_fails_and_is_named() {
    let listings = vec![missing("/missing", "No such file or directory")];
    let error = collect_branches(&listings).unwrap_err();
    assert_eq!(error.path(), "/missing");
    assert_eq!(error.message(), "cannot list directory /missing: No such file or directory");
    assert!(error.message().contains("/missing"));
    match error {
        DiscoveryError::BaseDirUnreadable { path, reason } => {
            assert_eq!(path, "/missing");
            assert_eq!(reason, "No such file or directory");
        }
        other => panic!("unexpected error {:?}", other),
    }
}

#[test]
fn missing_base_directory_fails_even_after_readable_ones() {
    let listings = vec![
        listing("/repos", vec![repo("/repos/a", vec![branch("main", Some(1))])]),
        missing("/gone", "denied"),
        missing("/also-gone", "denied too"),
    ];
    let error = collect_branches(&listings).unwrap_err();
    assert_eq!(error.path(), "/gone");
    assert!(matches!(error, DiscoveryError::BaseDirUnreadable { .. }));
}

#[test]
fn unreadable_base_directory_goes_before_unreadable_entry() {
    let listings = vec![
        listing(
            "/repos",
            vec![EntryProbe::Unreadable { path: "/repos/x".to_string(), reason: "io".to_string() }],
        ),
        missing("/gone", "denied"),
    ];
    let error = collect_branches(&listings).unwrap_err();
    assert!(matches!(error, DiscoveryError::BaseDirUnreadable { .. }));
    assert_eq!(error.path(), "/gone");
}

#[test]
fn unresolved_tip_is_kept_and_sorted_last() {
    let listings = vec![listing(
        "/repos",
        vec![
            repo("/repos/a", vec![branch("dangling", None), branch("old", Some(-50))]),
            repo("/repos/b", vec![branch("main", Some(1000)), branch("dev", Some(10))]),
        ],
    )];
    let records = collect_branches(&listings).unwrap();
    assert_eq!(
        rows(&records),
        vec![
            row("/repos/b", "main", Some(1000)),
            row("/repos/b", "dev", Some(10)),
            row("/repos/a", "old", Some(-50)),
            row("/repos/a", "dangling", None),
        ]
    );
}

#[test]
fn negative_and_zero_times_stand_before_absent_ones() {
    let records = sort_by_recency(vec![
        RepoBranch { repo_name: "r".into(), branch_name: "none".into(), latest_commit_sec: None },
        RepoBranch { repo_name: "r".into(), branch_name: "neg".into(), latest_commit_sec: Some(-7) },
        RepoBranch { repo_name: "r".into(), branch_name: "zero".into(), latest_commit_sec: Some(0) },
        RepoBranch { repo_name: "r".into(), branch_name: "pos".into(), latest_commit_sec: Some(7) },
    ]);
    let names: Vec<&str> = records.iter().map(|r| r.branch_name.as_str()).collect();
    assert_eq!(names, vec!["pos", "zero", "neg", "none"]);
}

#[test]
fn extreme_times_do_not_overflow() {
    let records = sort_by_recency(vec![
        RepoBranch {
            repo_name: "r".into(),
            branch_name: "min".into(),
            latest_commit_sec: Some(i64::MIN),
        },
        RepoBranch {
            repo_name: "r".into(),
            branch_name: "max".into(),
            latest_commit_sec: Some(i64::MAX),
        },
        RepoBranch {
            repo_name: "r".into(),
            branch_name: "mid".into(),
            latest_commit_sec: Some(-1),
        },
    ]);
    let times: Vec<Option<i64>> = records.iter().map(|r| r.latest_commit_sec).collect();
    assert_eq!(times, vec![Some(i64::MAX), Some(-1), Some(i64::MIN)]);
}

#[test]
fn result_is_sorted_and_holds_every_record_once() {
    let times: Vec<Option<i64>> = vec![
        Some(5), None, Some(900), Some(-3), Some(5), None, Some(12), Some(0), Some(77), Some(5),
    ];
    let branches: Vec<BranchProbe> =
        times.iter().enumerate().map(|(i, t)| branch(&format!("b{}", i), *t)).collect();
    let listings = vec![listing("/repos", vec![repo("/repos/a", branches)])];
    let records = collect_branches(&listings).unwrap();
    assert_eq!(records.len(), times.len());
    for pair in records.windows(2) {
        let a = pair[0].latest_commit_sec.unwrap_or(i64::MIN);
        let b = pair[1].latest_commit_sec.unwrap_or(i64::MIN);
        assert!(a >= b);
    }
    let mut names: Vec<String> = records.iter().map(|r| r.branch_name.clone()).collect();
    names.sort();
    let mut expected: Vec<String> = (0..times.len()).map(|i| format!("b{}", i)).collect();
    expected.sort();
    assert_eq!(names, expected);
    let got: Vec<Option<i64>> = records.iter().map(|r| r.latest_commit_sec).collect();
    assert_eq!(
        got,
        vec![
            Some(900), Some(77), Some(12), Some(5), Some(5), Some(5), Some(0), Some(-3), None,
            None
        ]
    );
}

#[test]
fn failed_enumeration_drops_only_that_repository() {
    let listings = vec![listing(
        "/repos",
        vec![broken_repo("/repos/broken"), repo("/repos/ok", vec![branch("main", Some(3))])],
    )];
    let records = collect_branches(&listings).unwrap();
    assert_eq!(rows(&records), vec![row("/repos/ok", "main", Some(3))]);
    assert!(records.iter().all(|r| r.repo_name != "/repos/broken"));
}

#[test]
fn failed_enumeration_alone_is_still_a_success() {
    let listings = vec![listing("/repos", vec![broken_repo("/repos/broken")])];
    assert!(collect_branches(&listings).unwrap().is_empty());
}

#[test]
fn unnamed_branch_is_left_out_without_error() {
    let listings = vec![listing(
        "/repos",
        vec![repo(
            "/repos/a",
            vec![unnamed(Some(99)), branch("main", Some(1)), unnamed(None)],
        )],
    )];
    let records = collect_branches(&listings).unwrap();
    assert_eq!(rows(&records), vec![row("/repos/a", "main", Some(1))]);
}

#[test]
fn unreadable_entry_fails_the_whole_scan() {
    let listings = vec![
        listing("/one", vec![repo("/one/a", vec![branch("main", Some(1))])]),
        listing(
            "/two",
            vec![
                EntryProbe::NotDirectory,
                EntryProbe::Unreadable { path: "/two/x".to_string(), reason: "io".to_string() },
                EntryProbe::Unreadable { path: "/two/y".to_string(), reason: "io".to_string() },
            ],
        ),
    ];
    let error = collect_branches(&listings).unwrap_err();
    match error {
        DiscoveryError::EntryUnreadable { path, reason } => {
            assert_eq!(path, "/two/x");
            assert_eq!(reason, "io");
        }
        other => panic!("unexpected error {:?}", other),
    }
}

#[test]
fn collecting_twice_gives_the_same_list() {
    let listings = vec![
        listing(
            "/one",
            vec![repo("/one/a", vec![branch("x", Some(4)), branch("y", None), branch("z", Some(4))])],
        ),
        listing("/two", vec![repo("/two/b", vec![branch("main", Some(8))])]),
    ];
    let first = collect_branches(&listings).unwrap();
    let second = collect_branches(&listings).unwrap();
    assert_eq!(rows(&first), rows(&second));
    let times: Vec<Option<i64>> = first.iter().map(|r| r.latest_commit_sec).collect();
    assert_eq!(times, vec![Some(8), Some(4), Some(4), None]);
}

#[test]
fn no_base_directories_give_an_empty_list() {
    assert!(collect_branches(&vec![]).unwrap().is_empty());
}

#[test]
fn locating_keeps_the_order_of_directories_and_entries() {
    let listings = vec![
        listing(
            "/one",
            vec![
                repo("/one/a", vec![]),
                EntryProbe::NotRepository,
                EntryProbe::Unreadable { path: "/one/x".to_string(), reason: "io".to_string() },
                broken_repo("/one/b"),
            ],
        ),
        listing("/two", vec![EntryProbe::NotDirectory, repo("/two/c", vec![])]),
    ];
    let stream = get_repo_receiver(&listings).unwrap();
    let seen: Vec<String> = stream
        .iter()
        .map(|item| match item {
            Ok(repo) => format!("repo {}", repo.path),
            Err(e) => format!("error {}", e.path()),
        })
        .collect();
    assert_eq!(seen, vec!["repo /one/a", "error /one/x", "repo /one/b", "repo /two/c"]);
}

#[test]
fn locating_fails_on_unlisted_directory() {
    let listings = vec![listing("/one", vec![]), missing("/two", "denied")];
    let error = get_repo_receiver(&listings).err().unwrap();
    assert_eq!(error.path(), "/two");
}

#[test]
fn find_repo_classifies_each_kind_of_entry() {
    assert!(matches!(find_repo(&EntryProbe::NotDirectory), Ok(None)));
    assert!(matches!(find_repo(&EntryProbe::NotRepository), Ok(None)));
    let entry = repo("/r", vec![]);
    match find_repo(&entry) {
        Ok(Some(found)) => assert_eq!(found.path, "/r"),
        _ => panic!("expected a repository"),
    }
    let bad = EntryProbe::Unreadable { path: "/p".to_string(), reason: "why".to_string() };
    match find_repo(&bad) {
        Err(DiscoveryError::EntryUnreadable { path, reason }) => {
            assert_eq!(path, "/p");
            assert_eq!(reason, "why");
        }
        _ => panic!("expected an error"),
    }
}

#[test]
fn branches_of_repo_fail_where_enumeration_failed() {
    let handle = RepoHandle { path: "/r".to_string(), branches: None };
    match get_branches_of_repo(&handle) {
        Err(DiscoveryError::BranchesUnreadable { path }) => assert_eq!(path, "/r"),
        _ => panic!("expected an error"),
    }
}

#[test]
fn branches_of_repo_keep_enumeration_order() {
    let handle = RepoHandle {
        path: "/r".to_string(),
        branches: Some(vec![branch("b", Some(1)), unnamed(Some(2)), branch("a", None)]),
    };
    let records = get_branches_of_repo(&handle).unwrap();
    assert_eq!(rows(&records), vec![row("/r", "b", Some(1)), row("/r", "a", None)]);
}

#[test]
fn branch_record_and_tip_time() {
    let handle = RepoHandle { path: "/r".to_string(), branches: Some(vec![]) };
    assert!(branch_record(&handle, &unnamed(Some(1))).is_none());
    let record = branch_record(&handle, &branch("main", Some(42))).unwrap();
    assert_eq!(record.repo_name, "/r");
    assert_eq!(record.branch_name, "main");
    assert_eq!(record.latest_commit_sec, Some(42));
    assert_eq!(get_latest_commit_epoch_sec(&branch("main", Some(42))), Some(42));
    assert_eq!(get_latest_commit_epoch_sec(&branch("main", None)), None);
}

#[test]
fn comes_before_treats_absent_as_least() {
    assert!(comes_before(Some(1), None));
    assert!(comes_before(None, None));
    assert!(!comes_before(None, Some(1)));
    assert!(!comes_before(None, Some(i64::MIN + 1)));
    assert!(comes_before(None, Some(i64::MIN)));
    assert!(comes_before(Some(i64::MIN), None));
    assert!(comes_before(Some(2), Some(2)));
    assert!(!comes_before(Some(1), Some(2)));
}

#[test]
fn errors_in_words() {
    let entry = DiscoveryError::EntryUnreadable { path: "/p/x".to_string(), reason: "io".to_string() };
    assert_eq!(entry.message(), "cannot read entry /p/x: io");
    let branches = DiscoveryError::BranchesUnreadable { path: "/r".to_string() };
    assert_eq!(branches.message(), "cannot enumerate branches of /r");
    assert_eq!(branches.path(), "/r");
}

#[test]
fn error_copy_is_equal_in_content() {
    let error = DiscoveryError::EntryUnreadable { path: "/p".to_string(), reason: "r".to_string() };
    match error.duplicate() {
        DiscoveryError::EntryUnreadable { path, reason } => {
            assert_eq!(path, "/p");
            assert_eq!(reason, "r");
        }
        _ => panic!("expected the same kind"),
    }
}

fn record(repo: &str, branch: &str, time: Option<i64>) -> RepoBranch {
    RepoBranch {
        repo_name: repo.to_string(),
        branch_name: branch.to_string(),
        latest_commit_sec: time,
    }
}

#[test]
fn directory_configured_twice_gives_each_branch_once() {
    let listings = vec![
        listing("/repos", vec![repo("/repos/a", vec![branch("main", Some(1000))])]),
        listing("/repos", vec![repo("/repos/a", vec![branch("main", Some(1000))])]),
    ];
    let records = collect_branches(&listings).unwrap();
    assert_eq!(rows(&records), vec![row("/repos/a", "main", Some(1000))]);
}

#[test]
fn first_record_of_a_branch_stays() {
    let listings = vec![
        listing(
            "/one",
            vec![repo("/r", vec![branch("main", Some(1000)), branch("dev", None)])],
        ),
        listing(
            "/two",
            vec![repo(
                "/r",
                vec![branch("dev", Some(3000)), branch("main", Some(2000)), branch("new", Some(5))],
            )],
        ),
    ];
    let records = collect_branches(&listings).unwrap();
    assert_eq!(
        rows(&records),
        vec![row("/r", "main", Some(1000)), row("/r", "new", Some(5)), row("/r", "dev", None)]
    );
}

#[test]
fn same_name_in_two_repositories_is_two_branches() {
    let listings = vec![listing(
        "/repos",
        vec![
            repo("/repos/a", vec![branch("main", Some(1))]),
            repo("/repos/b", vec![branch("main", Some(1))]),
        ],
    )];
    let records = collect_branches(&listings).unwrap();
    assert_eq!(
        rows(&records),
        vec![row("/repos/a", "main", Some(1)), row("/repos/b", "main", Some(1))]
    );
}

#[test]
fn repeated_name_within_one_repository_gives_one_record() {
    let listings = vec![listing(
        "/repos",
        vec![repo("/repos/a", vec![branch("x", Some(1)), branch("x", Some(9)), branch("y", None)])],
    )];
    let records = collect_branches(&listings).unwrap();
    assert_eq!(rows(&records), vec![row("/repos/a", "x", Some(1)), row("/repos/a", "y", None)]);
}

#[test]
fn equally_recent_branches_keep_the_order_of_the_scan() {
    let listings = vec![
        listing(
            "/one",
            vec![repo("/one/a", vec![branch("c", Some(7)), branch("a", None), branch("b", Some(7))])],
        ),
        listing(
            "/two",
            vec![repo(
                "/two/b",
                vec![branch("z", None), branch("y", Some(7)), branch("m", Some(i64::MIN))],
            )],
        ),
    ];
    let records = collect_branches(&listings).unwrap();
    assert_eq!(
        rows(&records),
        vec![
            row("/one/a", "c", Some(7)),
            row("/one/a", "b", Some(7)),
            row("/two/b", "y", Some(7)),
            row("/one/a", "a", None),
            row("/two/b", "z", None),
            row("/two/b", "m", Some(i64::MIN)),
        ]
    );
}

#[test]
fn sorting_keeps_the_order_of_equal_times() {
    let sorted = sort_by_recency(vec![
        record("r", "a", Some(1)),
        record("r", "b", Some(2)),
        record("r", "c", Some(1)),
        record("r", "d", None),
        record("r", "e", Some(2)),
        record("r", "f", None),
    ]);
    let names: Vec<&str> = sorted.iter().map(|r| r.branch_name.as_str()).collect();
    assert_eq!(names, vec!["b", "e", "a", "c", "d", "f"]);
}

#[test]
fn records_without_repeats() {
    let records = vec![
        record("r", "a", Some(1)),
        record("r", "b", Some(2)),
        record("r", "a", Some(3)),
        record("q", "a", None),
        record("r", "b", Some(2)),
    ];
    let kept = first_of_each_branch(&records);
    assert_eq!(
        rows(&kept),
        vec![row("r", "a", Some(1)), row("r", "b", Some(2)), row("q", "a", None)]
    );
    assert!(first_of_each_branch(&vec![]).is_empty());
    assert!(has_branch(&records, &record("q", "a", Some(77))));
    assert!(!has_branch(&records, &record("q", "b", Some(2))));
    assert!(!has_branch(&vec![], &record("q", "a", None)));
    assert!(same_branch(&record("r", "a", Some(1)), &record("r", "a", None)));
    assert!(!same_branch(&record("r", "a", Some(1)), &record("r", "b", Some(1))));
    assert!(!same_branch(&record("r", "a", Some(1)), &record("q", "a", Some(1))));
}

#[test]
fn one_failed_item_fails_the_enumeration() {
    let all = Some(vec![Some(branch("a", Some(1))), Some(unnamed(None)), Some(branch("b", None))]);
    let branches = enumerated_branches(&all).unwrap();
    assert_eq!(branches.len(), 3);
    assert_eq!(branches[0].name, Some("a".to_string()));
    assert_eq!(branches[0].tip_commit_sec, Some(1));
    assert_eq!(branches[1].name, None);
    assert_eq!(branches[2].name, Some("b".to_string()));
    assert_eq!(branches[2].tip_commit_sec, None);
    let broken = Some(vec![Some(branch("a", Some(1))), None, Some(branch("b", None))]);
    assert!(enumerated_branches(&broken).is_none());
    assert!(enumerated_branches(&None).is_none());
    assert_eq!(enumerated_branches(&Some(vec![])).unwrap().len(), 0);
}

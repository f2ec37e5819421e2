use c2p::dates::{commit_date, parse_date_range, CalendarDate, DateRange};
use c2p::git::{
    classify_commit, classify_date, commit_entry, filter_diff, format_commit_with_diff, get_git_diff,
    get_git_diff_between_branches, get_git_log_by_date_range, is_doc_file_name, CommitInfo,
    CommitStep, DiffLine, GitError,
};

fn header(old: &str, new: &str) -> DiffLine {
    DiffLine {
        origin: 'F',
        old_path: Some(old.to_string()),
        new_path: Some(new.to_string()),
        content: Some(format!("diff --git a/{} b/{}\n", old, new)),
    }
}

fn line(origin: char, path: &str, text: &str) -> DiffLine {
    DiffLine {
        origin,
        old_path: Some(path.to_string()),
        new_path: Some(path.to_string()),
        content: Some(text.to_string()),
    }
}

fn readme_and_main_patch() -> Vec<DiffLine> {
    vec![
        header("README.md", "README.md"),
        line('H', "README.md", "@@ -1 +1 @@\n"),
        line('-', "README.md", "old intro\n"),
        line('+', "README.md", "new intro\n"),
        header("src/main.rs", "src/main.rs"),
        line('H', "src/main.rs", "@@ -1,2 +1,2 @@\n"),
        line(' ', "src/main.rs", "fn main() {\n"),
        line('-', "src/main.rs", "    old();\n"),
        line('+', "src/main.rs", "    new();\n"),
    ]
}

#[test]
fn readme_churn_suppressed_but_header_kept() {
    let text = get_git_diff(&readme_and_main_patch(), true);
    assert_eq!(
        text,
        "diff --git a/README.md b/README.md\n\
         diff --git a/src/main.rs b/src/main.rs\n \
         fn main() {\n-    old();\n+    new();\n"
    );
    assert!(!text.contains("intro"));
}

#[test]
fn suppression_can_be_switched_off() {
    let text = filter_diff(&readme_and_main_patch(), false);
    assert!(text.contains("-old intro\n+new intro\n"));
    assert!(!text.contains("@@"));
}

#[test]
fn changelog_in_subdirectory_any_case_suppressed() {
    let lines = vec![
        header("docs/ChangeLog.MD", "docs/ChangeLog.MD"),
        line('+', "docs/ChangeLog.MD", "entry\n"),
    ];
    assert_eq!(get_git_diff(&lines, true), "diff --git a/docs/ChangeLog.MD b/docs/ChangeLog.MD\n");
}

#[test]
fn doc_file_names() {
    assert!(is_doc_file_name("README.md"));
    assert!(is_doc_file_name("readme.MD"));
    assert!(is_doc_file_name("CHANGELOG.md"));
    assert!(!is_doc_file_name("README.txt"));
    assert!(!is_doc_file_name("xREADME.md"));
    assert!(!is_doc_file_name("readme.mdx"));
}

#[test]
fn undecodable_line_gets_placeholder_and_header_needs_both_paths() {
    let lines = vec![
        DiffLine { origin: 'F', old_path: None, new_path: Some("a.bin".to_string()), content: None },
        DiffLine {
            origin: '+',
            old_path: None,
            new_path: Some("a.bin".to_string()),
            content: None,
        },
    ];
    assert_eq!(get_git_diff(&lines, true), "+無法解碼的內容");
}

#[test]
fn working_tree_diff_is_stable_and_empty_without_changes() {
    let lines = readme_and_main_patch();
    assert_eq!(get_git_diff(&lines, true), get_git_diff(&lines, true));
    assert_eq!(get_git_diff(&[], true), "");
}

#[test]
fn branch_diff_names_missing_branch() {
    match get_git_diff_between_branches("main", true, "no-such-branch", false, &[], true) {
        Err(GitError::BranchNotFound(b)) => assert_eq!(b, "no-such-branch"),
        _ => panic!("expected a missing branch"),
    }
    match get_git_diff_between_branches("gone", false, "also-gone", false, &[], true) {
        Err(GitError::BranchNotFound(b)) => assert_eq!(b, "gone"),
        _ => panic!("expected a missing branch"),
    }
}

#[test]
fn branch_diff_renders_when_both_exist() {
    let patch = readme_and_main_patch();
    match get_git_diff_between_branches("main", true, "dev", true, &patch, false) {
        Ok(t) => assert_eq!(t, filter_diff(&patch, false)),
        _ => panic!("expected a diff"),
    }
}

fn date(year: i32, month: u32, day: u32) -> CalendarDate {
    CalendarDate { year, month, day }
}

#[test]
fn date_range_parses() {
    match parse_date_range("2024-01-01..2024-01-31") {
        Ok(r) => assert_eq!(r, DateRange { start: date(2024, 1, 1), end: date(2024, 1, 31) }),
        _ => panic!("expected a range"),
    }
}

#[test]
fn date_range_errors() {
    assert!(matches!(parse_date_range("2024-01-01"), Err(GitError::MalformedDateRange(_))));
    assert!(matches!(
        parse_date_range("2024-01-01..2024-01-02..2024-01-03"),
        Err(GitError::MalformedDateRange(_))
    ));
    match parse_date_range("2024-13-01..2024-01-02") {
        Err(GitError::UnparseableStartDate(s)) => assert_eq!(s, "2024-13-01"),
        _ => panic!("expected a bad start"),
    }
    match parse_date_range("2024-01-01..tomorrow") {
        Err(GitError::UnparseableEndDate(s)) => assert_eq!(s, "tomorrow"),
        _ => panic!("expected a bad end"),
    }
}

// 2024-01-01, 2024-01-15 and 2024-02-01 at noon UTC, and the last day of 2023.
const JAN_01: i64 = 1704110400;
const JAN_15: i64 = 1705320000;
const FEB_01: i64 = 1706788800;
const DEC_31: i64 = 1704024000;

#[test]
fn commit_dates_are_utc_days() {
    assert_eq!(commit_date(0), date(1970, 1, 1));
    assert_eq!(commit_date(JAN_01), date(2024, 1, 1));
    assert_eq!(commit_date(JAN_15), date(2024, 1, 15));
    assert_eq!(commit_date(FEB_01), date(2024, 2, 1));
    assert_eq!(commit_date(DEC_31), date(2023, 12, 31));
    assert_eq!(commit_date(i64::MAX), date(1970, 1, 1));
}

#[test]
fn commits_classified_against_range() {
    let range = DateRange { start: date(2024, 1, 1), end: date(2024, 1, 31) };
    assert_eq!(classify_commit(FEB_01, &range), CommitStep::Skip);
    assert_eq!(classify_commit(JAN_15, &range), CommitStep::Include);
    assert_eq!(classify_commit(JAN_01, &range), CommitStep::Include);
    assert_eq!(classify_commit(DEC_31, &range), CommitStep::Stop);
}

fn commit(id: &str, time: i64) -> CommitInfo {
    CommitInfo {
        id: id.to_string(),
        author: "Ann <ann@example.com>".to_string(),
        time,
        message: Some(format!("change {}", id)),
        lines: vec![header("src/lib.rs", "src/lib.rs"), line('+', "src/lib.rs", "x\n")],
    }
}

#[test]
fn commit_entry_layout() {
    let c = commit("abc123", JAN_01);
    match format_commit_with_diff(&c, true) {
        Ok(t) => assert_eq!(
            t,
            "commit abc123\nAuthor: Ann <ann@example.com>\nDate:   2024-01-01 12:00:00 +0000\n\n    \
             change abc123\n\ndiff --git a/src/lib.rs b/src/lib.rs\n+x\n\n"
        ),
        _ => panic!("expected an entry"),
    }
    let mut silent = commit("def456", 0);
    silent.message = None;
    match format_commit_with_diff(&silent, true) {
        Ok(t) => assert!(t.contains("\n\n    無提交信息\n\n")),
        _ => panic!("expected an entry"),
    }
    let broken = commit("bad", i64::MAX);
    assert!(matches!(
        format_commit_with_diff(&broken, true),
        Err(GitError::CommitTimeOutOfRange(i64::MAX))
    ));
}

#[test]
fn date_range_log_selects_january() {
    let commits = vec![commit("feb", FEB_01), commit("jan15", JAN_15), commit("jan01", JAN_01)];
    let log = match get_git_log_by_date_range("2024-01-01..2024-01-31", &commits, true) {
        Ok(t) => t,
        _ => panic!("expected a log"),
    };
    assert!(log.starts_with("commit jan15\n"));
    assert!(log.contains("commit jan01\n"));
    assert!(!log.contains("commit feb"));
}

#[test]
fn date_range_log_stops_at_older_commit() {
    let commits = vec![
        commit("jan15", JAN_15),
        commit("dec31", DEC_31),
        commit("late-jan01", JAN_01),
    ];
    let log = match get_git_log_by_date_range("2024-01-01..2024-01-31", &commits, true) {
        Ok(t) => t,
        _ => panic!("expected a log"),
    };
    assert!(log.contains("commit jan15\n"));
    assert!(!log.contains("dec31"));
    assert!(!log.contains("late-jan01"));
}

#[test]
fn date_range_log_reports_bad_range() {
    assert!(matches!(
        get_git_log_by_date_range("2024-01-01", &[], true),
        Err(GitError::MalformedDateRange(_))
    ));
    assert!(matches!(get_git_log_by_date_range("2024-01-01..2024-01-31", &[], true), Ok(t) if t.is_empty()));
}

#[test]
fn dates_classified_against_range() {
    let range = DateRange { start: date(2024, 1, 1), end: date(2024, 1, 31) };
    assert_eq!(classify_date(&date(2024, 1, 31), &range), CommitStep::Include);
    assert_eq!(classify_date(&date(2024, 2, 1), &range), CommitStep::Skip);
    assert_eq!(classify_date(&date(2023, 12, 31), &range), CommitStep::Stop);
    assert_eq!(classify_date(&date(2025, 1, 1), &range), CommitStep::Skip);
    assert!(date(2023, 12, 31).is_before(&date(2024, 1, 1)));
    assert!(!date(2024, 1, 1).is_before(&date(2024, 1, 1)));
}

#[test]
fn commit_entry_with_given_date() {
    let mut c = commit("0f0f", 0);
    c.lines = vec![header("README.md", "README.md"), line('+', "README.md", "hidden\n")];
    assert_eq!(
        commit_entry(&c, "some day", true),
        "commit 0f0f\nAuthor: Ann <ann@example.com>\nDate:   some day\n\n    change 0f0f\n\n\
         diff --git a/README.md b/README.md\n\n"
    );
}

#[test]
fn log_suppression_follows_flag() {
    let mut c = commit("r1", JAN_15);
    c.lines = readme_and_main_patch();
    let kept = match get_git_log_by_date_range("2024-01-01..2024-01-31", &[c], false) {
        Ok(t) => t,
        _ => panic!("expected a log"),
    };
    assert!(kept.contains("+new intro\n"));
    let mut c = commit("r1", JAN_15);
    c.lines = readme_and_main_patch();
    let dropped = match get_git_log_by_date_range("2024-01-01..2024-01-31", &[c], true) {
        Ok(t) => t,
        _ => panic!("expected a log"),
    };
    assert!(!dropped.contains("intro"));
    assert!(dropped.contains("diff --git a/README.md b/README.md\n"));
    assert!(dropped.contains("+    new();\n"));
}

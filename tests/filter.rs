use c2p::filter::{
    compile_rules, convert_wildcard_to_regex, decide, matches_pattern, parse_patterns,
    resolve_inclusion, should_include_file, PatternRule,
};

fn strings(v: &[&str]) -> Vec<String> {
    v.iter().map(|s| s.to_string()).collect()
}

#[test]
fn conversion_escapes_dots_and_expands_wildcards() {
    assert_eq!(convert_wildcard_to_regex("*.log"), r".*\.log");
    assert_eq!(convert_wildcard_to_regex("a.b"), r"a\.b");
    assert_eq!(convert_wildcard_to_regex("file?.txt"), r"file.\.txt");
    assert_eq!(convert_wildcard_to_regex("src/main"), "src/main");
    assert_eq!(convert_wildcard_to_regex(""), "");
}

#[test]
fn star_log_matches_whole_name_only() {
    assert!(matches_pattern("error.log", "*.log"));
    assert!(!matches_pattern("error.log.txt", "*.log"));
    assert!(matches_pattern("/home/user/project/error.log", "*.log"));
}

#[test]
fn literal_dot_is_not_a_wildcard() {
    assert!(!matches_pattern("axb", "a.b"));
    assert!(matches_pattern("a.b", "a.b"));
}

#[test]
fn question_mark_is_one_character() {
    assert!(matches_pattern("abc", "a?c"));
    assert!(!matches_pattern("ac", "a?c"));
    assert!(!matches_pattern("abbc", "a?c"));
}

#[test]
fn invalid_pattern_matches_nothing() {
    let rule = PatternRule::new("src/(");
    assert!(!rule.is_valid());
    assert!(!rule.matches("src/("));
    assert!(!matches_pattern("anything", "("));
    assert!(PatternRule::new("*.rs").is_valid());
    assert_eq!(PatternRule::new("*.rs").pattern(), "*.rs");
}

#[test]
fn no_rules_keep_every_path() {
    for p in ["/a/b.rs", "", "x", "/tmp/error.log"] {
        assert!(should_include_file(p, &[], &[], false));
        assert!(should_include_file(p, &[], &[], true));
    }
}

#[test]
fn unmatched_path_dropped_once_include_rules_exist() {
    let inc = strings(&["*.rs"]);
    let exc = strings(&["*.tmp"]);
    assert!(!should_include_file("/p/readme.md", &inc, &exc, true));
    assert!(!should_include_file("/p/readme.md", &inc, &exc, false));
    assert!(should_include_file("/p/readme.md", &[], &exc, false));
}

#[test]
fn conflict_follows_include_priority() {
    let inc = strings(&["*.rs"]);
    let exc = strings(&["*/target/*"]);
    assert!(should_include_file("/p/target/gen.rs", &inc, &exc, true));
    assert!(!should_include_file("/p/target/gen.rs", &inc, &exc, false));
}

#[test]
fn include_only_and_exclude_only() {
    let inc = strings(&["*.rs", "*.toml"]);
    assert!(should_include_file("/p/Cargo.toml", &inc, &[], false));
    let exc = strings(&["*.lock"]);
    assert!(!should_include_file("/p/Cargo.lock", &[], &exc, false));
    assert!(should_include_file("/p/Cargo.toml", &[], &exc, false));
    // With no include rules every path counts as included, so an exclude
    // match is a conflict that include priority settles.
    assert!(should_include_file("/p/Cargo.lock", &[], &exc, true));
}

#[test]
fn decide_with_compiled_rules() {
    let inc = compile_rules(&strings(&["*.rs"]));
    let exc = compile_rules(&strings(&["*_test.rs"]));
    assert!(decide("/p/main.rs", &inc, &exc, false));
    assert!(!decide("/p/main_test.rs", &inc, &exc, false));
    assert!(decide("/p/main_test.rs", &inc, &exc, true));
    assert!(!decide("/p/main.py", &inc, &exc, true));
}

#[test]
fn patterns_split_on_commas_and_trimmed() {
    assert_eq!(
        parse_patterns(&Some("*.rs, *.md ,src/*".to_string())),
        vec!["*.rs", "*.md", "src/*"]
    );
    assert_eq!(parse_patterns(&Some("a,,b".to_string())), vec!["a", "", "b"]);
    assert!(parse_patterns(&Some(String::new())).is_empty());
    assert!(should_include_file("/p/a.rs", &parse_patterns(&Some(String::new())), &[], false));
    assert!(parse_patterns(&None).is_empty());
}

#[test]
fn resolution_table() {
    for priority in [false, true] {
        assert_eq!(resolve_inclusion(true, true, false, priority), priority);
        assert_eq!(resolve_inclusion(true, true, true, priority), priority);
        assert!(resolve_inclusion(true, false, false, priority));
        assert!(!resolve_inclusion(false, true, false, priority));
        assert!(!resolve_inclusion(false, false, false, priority));
        assert!(resolve_inclusion(false, false, true, priority));
    }
}

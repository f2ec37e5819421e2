use c2p::path::{file_extension, format_content, number_lines, traverse_directory, FsEntry};
use c2p::template::{
    extract_undefined_variables, names_contain_any, template_contains_variables,
    unregistered_names,
};

fn file(dir: &str, name: &str, text: Option<&str>) -> FsEntry {
    FsEntry {
        name: name.to_string(),
        path: format!("{}/{}", dir, name),
        is_dir: false,
        text: text.map(|t| t.to_string()),
        children: vec![],
    }
}

fn dir(parent: &str, name: &str, children: Vec<FsEntry>) -> FsEntry {
    FsEntry {
        name: name.to_string(),
        path: format!("{}/{}", parent, name),
        is_dir: true,
        text: None,
        children,
    }
}

fn project() -> FsEntry {
    dir(
        "",
        "proj",
        vec![
            dir(
                "/proj",
                "src",
                vec![file("/proj/src", "main.rs", Some("fn main() {}\n")), file("/proj/src", "notes.log", Some("x"))],
            ),
            dir("/proj", "logs", vec![file("/proj/logs", "run.log", Some("y"))]),
            file("/proj", "logo.png", None),
        ],
    )
}

fn strings(v: &[&str]) -> Vec<String> {
    v.iter().map(|s| s.to_string()).collect()
}

#[test]
fn full_tree_kept_while_records_filtered() {
    let exc = strings(&["*.log"]);
    let (tree, files) = traverse_directory(&project(), &[], &exc, false, false, false, true);
    assert_eq!(
        tree,
        "proj/\n  src/\n    main.rs\n    notes.log\n  logs/\n    run.log\n  logo.png\n"
    );
    assert_eq!(files.len(), 1);
    assert_eq!(files[0].path, "/proj/src/main.rs");
    assert_eq!(files[0].content, "fn main() {}\n");
}

#[test]
fn exclude_from_tree_prunes_entries() {
    let exc = strings(&["*.log"]);
    let (tree, files) = traverse_directory(&project(), &[], &exc, false, false, true, true);
    assert_eq!(tree, "proj/\n  src/\n    main.rs\n  logo.png\n");
    assert_eq!(files.len(), 1);
}

#[test]
fn undecodable_file_shown_but_gives_no_record() {
    let (tree, files) = traverse_directory(&project(), &[], &[], false, false, false, true);
    assert!(tree.contains("  logo.png\n"));
    let paths: Vec<&str> = files.iter().map(|f| f.path.as_str()).collect();
    assert_eq!(paths, vec!["/proj/src/main.rs", "/proj/src/notes.log", "/proj/logs/run.log"]);
}

#[test]
fn records_in_code_blocks_with_numbers() {
    let inc = strings(&["*.rs"]);
    let (_, files) = traverse_directory(&project(), &inc, &[], false, true, false, false);
    assert_eq!(files.len(), 1);
    assert_eq!(files[0].content, "```rs\n   1 | fn main() {}\n```");
}

#[test]
fn line_numbers_aligned() {
    assert_eq!(number_lines("a\nb"), "   1 | a\n   2 | b");
    assert_eq!(number_lines("a\n\nb\n"), "   1 | a\n   2 | \n   3 | b");
    assert_eq!(number_lines(""), "");
    let long: String = "x\n".repeat(12345);
    let numbered = number_lines(&long);
    assert!(numbered.ends_with("\n12345 | x"));
    assert!(numbered.contains("\n  10 | x\n"));
}

#[test]
fn extensions() {
    assert_eq!(file_extension("main.rs"), "rs");
    assert_eq!(file_extension("archive.tar.gz"), "gz");
    assert_eq!(file_extension("Makefile"), "");
    assert_eq!(file_extension(".gitignore"), "");
    assert_eq!(file_extension("x."), "");
}

#[test]
fn content_layouts() {
    assert_eq!(format_content("a.py", "print(1)", false, false), "```py\nprint(1)\n```");
    assert_eq!(format_content("Makefile", "all:", false, false), "```\nall:\n```");
    assert_eq!(format_content("a.py", "print(1)", false, true), "print(1)");
    assert_eq!(format_content("a.py", "p", true, true), "   1 | p");
}

#[test]
fn template_variables_found() {
    let t = "Code: {{ code }}\nDiff: {{git_diff_branch}}\n{{#if x}}{{/if}} {{ question }}";
    assert!(template_contains_variables(t, &["git_diff_branch"]));
    assert!(template_contains_variables(t, &["nope", "code"]));
    assert!(!template_contains_variables(t, &["git_diff", "x"]));
    assert!(!template_contains_variables("", &["code"]));
}

#[test]
fn undefined_variables_skip_registered_names() {
    let t = "{{ path }} {{code}} {{ git_diff }} {{ question }} {{ tone }} {{ question }}";
    assert_eq!(extract_undefined_variables(t), vec!["question", "tone", "question"]);
    assert!(extract_undefined_variables("no placeholders").is_empty());
}

#[test]
fn name_lists() {
    let names = strings(&["code", "git_log_date", "tone"]);
    assert!(names_contain_any(&names, &["git_log_date"]));
    assert!(!names_contain_any(&names, &["git_diff"]));
    assert!(!names_contain_any(&[], &["code"]));
    assert_eq!(unregistered_names(&names), vec!["git_log_date", "tone"]);
    assert_eq!(unregistered_names(&strings(&["path", "git_diff"])), Vec::<String>::new());
}

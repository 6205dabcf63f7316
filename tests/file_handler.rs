use bannify::{
    create_banner, format_file, is_hidden_file, select_files, should_process_file,
    should_process_with, tally, FileOutcome, Language, LanguageConfig, RunSummary,
};

fn config() -> LanguageConfig {
    LanguageConfig {
        languages: vec![
            Language {
                name: "rust".to_string(),
                single_line_comment: "//".to_string(),
                extensions: vec!["rs".to_string()],
            },
            Language {
                name: "python".to_string(),
                single_line_comment: "#".to_string(),
                extensions: vec!["py".to_string()],
            },
        ],
    }
}

fn strings(v: &[&str]) -> Vec<String> {
    v.iter().map(|s| s.to_string()).collect()
}

#[test]
fn format_file_uses_language_of_extension() {
    let c = config();
    let out = format_file("src/lib.rs", "//#// hello world", &c).unwrap();
    assert_eq!(out, create_banner("hello world", "//"));
    let out = format_file("tool.py", "#x\n###Setup\n", &c).unwrap();
    assert_eq!(out, format!("#x\n{}", create_banner("Setup", "#")));
}

#[test]
fn format_file_unknown_extension_untouched() {
    assert_eq!(format_file("notes.txt", "//#// hi", &config()), None);
    assert_eq!(format_file("README", "//#// hi", &config()), None);
}

#[test]
fn format_file_without_marker_untouched() {
    assert_eq!(format_file("a.rs", "fn main() {}\n", &config()), None);
}

#[test]
fn format_file_twice_second_pass_untouched() {
    let c = config();
    let first = format_file("a.rs", "//#// one\nfn f() {}\n//#// two", &c).unwrap();
    assert_eq!(format_file("a.rs", &first, &c), None);
}

#[test]
fn hidden_files_are_skipped() {
    assert!(is_hidden_file("dir/.hidden.rs"));
    assert!(!is_hidden_file(".dir/visible.rs"));
    assert!(!should_process_file("dir/.hidden.rs", &vec![]));
    assert!(should_process_file("dir/visible.rs", &vec![]));
}

#[test]
fn excluded_extension_is_skipped() {
    assert!(!should_process_file("src/main.rs", &strings(&["rs"])));
    assert!(should_process_file("src/main.py", &strings(&["rs"])));
    assert!(should_process_file("old.rs/main.py", &strings(&["rs"])));
}

#[test]
fn directory_pattern_excludes_by_substring() {
    assert!(!should_process_file("proj/target/gen.rs", &strings(&["target/"])));
    assert!(!should_process_file("proj/target/gen.rs", &strings(&["target\\"])));
    assert!(should_process_file("proj/src/gen.rs", &strings(&["target/"])));
}

#[test]
fn glob_pattern_excludes_matching_paths() {
    assert!(!should_process_file("src/gen_api.rs", &strings(&["*gen_*"])));
    assert!(!should_process_file("src/a.rs", &strings(&["src/?.rs"])));
    assert!(should_process_file("src/ab.rs", &strings(&["src/?.rs"])));
    assert!(!should_process_file("src/b.rs", &strings(&["src/[a-c].rs"])));
    assert!(should_process_file("src/d.rs", &strings(&["src/[a-c].rs"])));
    assert!(should_process_file("src/a.rs", &strings(&["[unclosed"])));
}

#[test]
fn decision_from_given_glob_results() {
    let ex = strings(&["*.md", "build/"]);
    assert!(!should_process_with("docs/a.rs", &ex, &vec![true, false]));
    assert!(should_process_with("docs/a.rs", &ex, &vec![false, true]));
    assert!(!should_process_with("build/a.rs", &ex, &vec![false, false]));
}

#[test]
fn excluded_extension_never_selected() {
    let paths = strings(&["a.rs", "b.py", "c.txt", ".d.rs", "e/f.rs"]);
    let chosen = select_files(&paths, &strings(&["rs"]), &config());
    assert_eq!(chosen, strings(&["b.py"]));
    let chosen = select_files(&paths, &vec![], &config());
    assert_eq!(chosen, strings(&["a.rs", "b.py", "e/f.rs"]));
}

#[test]
fn one_failure_does_not_stop_the_count() {
    let mut outcomes = vec![FileOutcome::Modified; 5];
    outcomes[2] = FileOutcome::Failed;
    assert_eq!(tally(&outcomes), RunSummary { modified: 4, failed: 1 });
}

#[test]
fn tally_of_nothing_is_zero() {
    assert_eq!(tally(&vec![]), RunSummary { modified: 0, failed: 0 });
    let mixed = vec![FileOutcome::Unmodified, FileOutcome::Modified, FileOutcome::Unmodified];
    assert_eq!(tally(&mixed), RunSummary { modified: 1, failed: 0 });
}

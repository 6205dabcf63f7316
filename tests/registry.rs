use bannify::{
    add_language, default_config, extension_of, is_supported_file, list_languages, Language,
    LanguageConfig, LanguageError,
};

fn lang(name: &str, comment: &str, exts: &[&str]) -> Language {
    Language {
        name: name.to_string(),
        single_line_comment: comment.to_string(),
        extensions: exts.iter().map(|e| e.to_string()).collect(),
    }
}

fn sample() -> LanguageConfig {
    LanguageConfig {
        languages: vec![
            lang("rust", "//", &["rs"]),
            lang("python", "#", &["py", "pyw"]),
            lang("header", ";;", &["h"]),
            lang("c", "//", &["c", "h"]),
        ],
    }
}

#[test]
fn lookup_unknown_extension_is_none() {
    assert_eq!(sample().lookup("zig"), None);
    assert_eq!(sample().lookup("RS"), None);
    assert_eq!(LanguageConfig::new().lookup("rs"), None);
}

#[test]
fn lookup_takes_first_registered() {
    let c = sample();
    assert_eq!(c.lookup("h"), Some(2));
    assert_eq!(c.lookup("c"), Some(3));
    assert_eq!(c.lookup("pyw"), Some(1));
}

#[test]
fn add_language_appends() {
    let mut c = sample();
    let r = add_language(&mut c, "lua", "--", vec!["lua".to_string()]);
    assert_eq!(r, Ok(()));
    assert_eq!(c.languages.len(), 5);
    assert_eq!(c.languages[4].name, "lua");
    assert_eq!(c.languages[4].single_line_comment, "--");
    assert_eq!(c.lookup("lua"), Some(4));
}

#[test]
fn add_language_duplicate_is_refused() {
    let mut c = sample();
    let r = add_language(&mut c, "python", "%", vec!["x".to_string()]);
    assert_eq!(r, Err(LanguageError::DuplicateLanguage));
    assert_eq!(c.languages.len(), 4);
    assert_eq!(c.lookup("x"), None);
    assert!(c.contains_language("python"));
    assert!(!c.contains_language("Python"));
}

#[test]
fn list_languages_one_line_each() {
    let lines = list_languages(&sample());
    assert_eq!(lines, vec!["rust → //", "python → #", "header → ;;", "c → //"]);
}

#[test]
fn supported_file_by_extension() {
    let c = sample();
    assert!(is_supported_file("src/main.rs", &c));
    assert!(is_supported_file("a.b/x.py", &c));
    assert!(!is_supported_file("notes.txt", &c));
    assert!(!is_supported_file("Makefile", &c));
    assert!(!is_supported_file("lib.rs/Makefile", &c));
}

#[test]
fn extension_is_text_after_last_dot() {
    assert_eq!(extension_of("dir/file.tar.gz"), "gz");
    assert_eq!(extension_of("Makefile"), "");
    assert_eq!(extension_of("trailing."), "");
    assert_eq!(extension_of(".bashrc"), "bashrc");
}

#[test]
fn default_config_has_common_languages() {
    let c = default_config();
    assert_eq!(c.languages.len(), 15);
    assert_eq!(c.languages[0].name, "rust");
    assert_eq!(c.languages[3].extensions, vec!["cpp", "hpp", "cc", "cxx"]);
    let rust = c.lookup("rs").unwrap();
    assert_eq!(c.languages[rust].single_line_comment, "//");
    let py = c.lookup("py").unwrap();
    assert_eq!(c.languages[py].single_line_comment, "#");
    let mut names: Vec<&String> = c.languages.iter().map(|l| &l.name).collect();
    let n = names.len();
    names.sort();
    names.dedup();
    assert_eq!(names.len(), n);
}

use bannify::{create_banner, format_text, split_lines};

#[test]
fn marker_line_becomes_banner() {
    let out = format_text("fn main() {}\n//#// hello world\nlet x = 1;\n", "//").unwrap();
    let banner = create_banner("hello world", "//");
    assert_eq!(out, format!("fn main() {{}}\n{}\nlet x = 1;", banner));
}

#[test]
fn single_marker_line_rust_example() {
    let out = format_text("//#// hello world", "//").unwrap();
    let lines: Vec<&str> = out.lines().collect();
    assert_eq!(lines.len(), 5);
    assert_eq!(lines[0], format!("//{}//", "-".repeat(42)));
    assert_eq!(lines[1], format!("// {} //", " ".repeat(40)));
    assert_eq!(lines[2], format!("// {:<40} //", "hello world"));
    assert_eq!(lines[3], lines[1]);
    assert_eq!(lines[4], lines[0]);
}

#[test]
fn text_without_marker_is_left_alone() {
    assert_eq!(format_text("a\n// b\n//# c\n", "//"), None);
    assert_eq!(format_text("", "#"), None);
}

#[test]
fn formatting_twice_changes_nothing() {
    let once = format_text("x\n###  title  \ny\n###other\n", "#").unwrap();
    assert_eq!(format_text(&once, "#"), None);
}

#[test]
fn unmatched_lines_pass_through_in_order() {
    let out = format_text("one\n#x# no\n###t\ntwo  \n\nthree", "#").unwrap();
    let banner = create_banner("t", "#");
    assert_eq!(out, format!("one\n#x# no\n{}\ntwo  \n\nthree", banner));
}

#[test]
fn label_is_trimmed() {
    let out = format_text("--#--   spaced label \t", "--").unwrap();
    assert_eq!(out, create_banner("spaced label", "--"));
}

#[test]
fn indented_marker_becomes_banner() {
    let out = format_text("  //#// Title", "//").unwrap();
    assert_eq!(out, create_banner("Title", "//"));
    let out = format_text("fn f() {\n\t//#// inner\n}", "//").unwrap();
    assert_eq!(out, format!("fn f() {{\n{}\n}}", create_banner("inner", "//")));
}

#[test]
fn crlf_lines_keep_their_carriage_return() {
    let out = format_text("x\r\n//#// t\r\ny\r\n", "//").unwrap();
    assert_eq!(out, format!("x\r\n{}\ny\r", create_banner("t", "//")));
}

#[test]
fn split_lines_follows_line_ends() {
    let chars = |s: &str| s.chars().collect::<Vec<char>>();
    let got: Vec<String> = split_lines(&chars("a\r\nb\n\nc"))
        .into_iter()
        .map(|l| l.into_iter().collect())
        .collect();
    assert_eq!(got, vec!["a\r", "b", "", "c"]);
    assert!(split_lines(&chars("")).is_empty());
    assert_eq!(split_lines(&chars("x\n")).len(), 1);
}

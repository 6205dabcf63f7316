use bannify::create_banner;

fn expected(content: &str, comment: &str, width: usize) -> String {
    let sep = format!("{}{}{}\n", comment, "-".repeat(width + 2), comment);
    let blank = format!("{} {} {}\n", comment, " ".repeat(width), comment);
    let pad = width - content.chars().count();
    let label = format!("{} {}{} {}\n", comment, content, " ".repeat(pad), comment);
    format!("{}{}{}{}{}", sep, blank, label, blank, sep)
}

#[test]
fn banner_short_label_uses_minimum_width() {
    let b = create_banner("hello world", "//");
    assert_eq!(b, expected("hello world", "//", 40));
    let lines: Vec<&str> = b.lines().collect();
    assert_eq!(lines.len(), 5);
    assert_eq!(lines[0], format!("//{}//", "-".repeat(42)));
    assert_eq!(lines[2], "// hello world                              //");
    assert!(b.ends_with("//\n"));
}

#[test]
fn banner_long_label_widens_block() {
    let label = "x".repeat(55);
    let b = create_banner(&label, "#");
    assert_eq!(b, expected(&label, "#", 55));
    let lines: Vec<&str> = b.lines().collect();
    assert_eq!(lines[2], format!("# {} #", label));
    assert_eq!(lines[0].len(), 1 + 57 + 1);
}

#[test]
fn banner_empty_label() {
    let b = create_banner("", "--");
    assert_eq!(b, expected("", "--", 40));
}

#[test]
fn banner_width_invariant_for_many_lengths() {
    for n in [0usize, 1, 39, 40, 41, 80] {
        let label = "a".repeat(n);
        let b = create_banner(&label, "//");
        let line = b.lines().nth(2).unwrap();
        let inner = &line[2..line.len() - 2];
        assert_eq!(inner.len(), n.max(40) + 2);
        assert!(inner.starts_with(' ') && inner.ends_with(' '));
    }
}

use tabula::grep::{compile_line_pattern, grep_line_from_matches, grep_line_with_matches_tty};

#[test]
fn grep_patterns_compile_or_explain() {
    assert!(compile_line_pattern("fo+").is_ok());
    let e = compile_line_pattern("a(").err().unwrap();
    assert!(e.starts_with("grep: "));
    assert!(e.len() > "grep: ".len());
}

#[test]
fn grep_line_marks_every_match() {
    let re = compile_line_pattern("foo").unwrap();
    assert_eq!(
        grep_line_with_matches_tty(7, "foo bar foo", &re),
        "0007: \x1b[1;33mfoo\x1b[0m bar \x1b[1;33mfoo\x1b[0m\n"
    );
    assert_eq!(grep_line_with_matches_tty(1, "xyz", &re), "0001: xyz\n");
    assert_eq!(grep_line_with_matches_tty(12345, "foo", &re), "12345: \x1b[1;33mfoo\x1b[0m\n");
}

#[test]
fn grep_line_handles_multibyte_text() {
    let re = compile_line_pattern("é").unwrap();
    assert_eq!(
        grep_line_with_matches_tty(2, "café é", &re),
        "0002: caf\x1b[1;33mé\x1b[0m \x1b[1;33mé\x1b[0m\n"
    );
}

#[test]
fn grep_line_shows_empty_matches() {
    let re = compile_line_pattern("x*").unwrap();
    assert_eq!(
        grep_line_with_matches_tty(3, "ab", &re),
        "0003: \x1b[1;33m\x1b[0ma\x1b[1;33m\x1b[0mb\x1b[1;33m\x1b[0m\n"
    );
}

#[test]
fn grep_line_from_given_ranges() {
    assert_eq!(
        grep_line_from_matches(10, "hello world", &vec![(0, 5), (6, 11)]),
        "0010: \x1b[1;33mhello\x1b[0m \x1b[1;33mworld\x1b[0m\n"
    );
}

use tabula::shell::{
    completion_path_display_and_replacement, flags_for, has_explicit_port, is_dir_list,
    path_first, prompt_target, subcommands, word_start,
};

#[test]
fn test_shell_cp_autocomplete_entries() {
    assert!(subcommands().contains(&"cp"));
    assert!(path_first().contains(&"cp"));
}

#[test]
fn subcommand_tables_are_sorted() {
    let s = subcommands();
    assert!(s.windows(2).all(|w| w[0] < w[1]));
    let p = path_first();
    assert!(p.windows(2).all(|w| w[0] < w[1]));
}

#[test]
fn flags_per_subcommand() {
    assert_eq!(flags_for("cat"), vec!["--raw"]);
    assert_eq!(flags_for("ls"), vec!["-t", "--time", "-r", "--reverse"]);
    assert_eq!(flags_for("tail"), vec!["-n", "-f", "--follow", "--raw"]);
    assert!(flags_for("cd").is_empty());
}

#[test]
fn dir_list_aliases() {
    assert!(is_dir_list("ls"));
    assert!(is_dir_list("ll"));
    assert!(is_dir_list("lt"));
    assert!(is_dir_list("l"));
    assert!(!is_dir_list("cat"));
}

#[test]
fn explicit_port_detection() {
    assert!(has_explicit_port("host:3050"));
    assert!(!has_explicit_port("host"));
    assert!(!has_explicit_port("host:"));
    assert!(!has_explicit_port("host:ab"));
    assert!(has_explicit_port("[::1]:8080"));
    assert!(!has_explicit_port("[::1]"));
    assert!(!has_explicit_port("[::1"));
}

#[test]
fn shell_prompt_target_forms() {
    assert_eq!(prompt_target("http://127.0.0.1:3050"), "127.0.0.1:3050");
    assert_eq!(prompt_target(" https://example.org/api "), "example.org");
    assert_eq!(prompt_target("http://[::1]:8080/x"), "[::1]:8080");
    assert_eq!(prompt_target("http://[::1]/x"), "[::1]");
    assert_eq!(prompt_target("http://"), "?");
    assert_eq!(prompt_target("host:abc"), "host");
}

#[test]
fn word_start_byte_offsets() {
    assert_eq!(word_start("cat abc", 7), 4);
    assert_eq!(word_start("cat", 3), 0);
    assert_eq!(word_start("cat ", 4), 4);
    assert_eq!(word_start("é é", 4), 3);
}

#[test]
fn completion_display_relative_to_cwd() {
    let (d, r) = completion_path_display_and_replacement("/a/b", true, false, Some("a"));
    assert_eq!(d, "b/");
    assert_eq!(r, "b");
    let (d, r) = completion_path_display_and_replacement("/a", true, false, Some("/a/"));
    assert_eq!(d, "./");
    assert_eq!(r, ".");
    let (d, r) = completion_path_display_and_replacement("/x/y", false, false, Some("a"));
    assert_eq!(d, "x/y");
    assert_eq!(r, "x/y");
    let (d, r) = completion_path_display_and_replacement("/x/y", false, true, Some("a"));
    assert_eq!(d, "/x/y");
    assert_eq!(r, "/x/y");
    let (d, _) = completion_path_display_and_replacement("/x", true, false, None);
    assert_eq!(d, "x/");
}

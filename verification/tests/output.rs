use tabula::commands::{Command, TailMode};
use tabula::output::{
    cat_banner, count_lines, desc_action, description_to_print, execute_opts_from_command,
    needs_closing_newline, pager_needed, reindex_scope, search_directory, search_query,
    stdout_forces_raw_document, DescAction, ExecuteOpts,
};

#[test]
fn raw_flag_comes_from_document_commands() {
    let c = Command::Cat { path: "/a".to_string(), raw: true };
    assert!(execute_opts_from_command(&c).raw);
    let c = Command::Tail { tail: TailMode::Last(3), follow: false, path: "/a".to_string(), raw: true };
    assert!(execute_opts_from_command(&c).raw);
    let c = Command::Stat { path: "/a".to_string() };
    assert!(!execute_opts_from_command(&c).raw);
    assert!(stdout_forces_raw_document(&ExecuteOpts { raw: false }, false));
    assert!(!stdout_forces_raw_document(&ExecuteOpts { raw: false }, true));
}

#[test]
fn closing_newline_and_line_counts() {
    assert!(needs_closing_newline("a"));
    assert!(!needs_closing_newline("a\n"));
    assert!(!needs_closing_newline(""));
    assert_eq!(count_lines(""), 0);
    assert_eq!(count_lines("a"), 1);
    assert_eq!(count_lines("a\n"), 1);
    assert_eq!(count_lines("a\nb"), 2);
    assert_eq!(count_lines("\n\n"), 2);
    assert_eq!(count_lines("a\r\nb\r\n"), "a\r\nb\r\n".lines().count());
}

#[test]
fn pager_for_tall_text() {
    assert!(!pager_needed("a\nb\nc", 0));
    assert!(pager_needed("a\nb\nc", 2));
    assert!(!pager_needed("a\nb\nc", 3));
    assert!(!pager_needed("", 1));
}

fn words(v: &[&str]) -> Vec<String> {
    v.iter().map(|w| w.to_string()).collect()
}

#[test]
fn search_query_and_scope() {
    assert_eq!(search_query(&words(&["a", "b"])), Ok("a b".to_string()));
    assert_eq!(search_query(&words(&[])), Err("search: empty query".to_string()));
    assert_eq!(search_query(&words(&[""])), Err("search: empty query".to_string()));
    assert_eq!(search_directory(None), Ok(None));
    assert_eq!(search_directory(Some("  ")), Ok(None));
    assert_eq!(search_directory(Some(" a/b ")), Ok(Some("/a/b".to_string())));
    assert!(search_directory(Some("..")).is_err());
}

#[test]
fn desc_and_reindex_and_cat() {
    assert!(matches!(desc_action(&words(&[])), DescAction::Show));
    match desc_action(&words(&["new", "text"])) {
        DescAction::Assign { description } => assert_eq!(description, "new text"),
        _ => panic!("expected an assignment"),
    }
    assert_eq!(description_to_print(Some("d".to_string())), Some("d".to_string()));
    assert_eq!(description_to_print(Some(String::new())), None);
    assert_eq!(description_to_print(None), None);
    assert_eq!(reindex_scope("/"), None);
    assert_eq!(reindex_scope("/a"), Some("/a".to_string()));
    assert_eq!(cat_banner("/a/b"), "==> /a/b <==");
}

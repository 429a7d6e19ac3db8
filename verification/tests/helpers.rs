use tabula::listing::ShellChildRpc;
use tabula::paths::validate_entity_name;
use tabula::shell_path::{cwd_to_segments, doc_path_merge_with_cwd, finish_doc_path_from_segments};
use tabula::text::byte_len;

#[test]
fn entity_names_are_checked() {
    assert_eq!(validate_entity_name("notes.md"), Ok(()));
    assert_eq!(validate_entity_name(""), Err("name must not be empty".to_string()));
    assert_eq!(validate_entity_name(".."), Err("name must not be . or ..".to_string()));
    assert_eq!(validate_entity_name("a/b"), Err("name must not contain a path separator".to_string()));
    assert_eq!(validate_entity_name("a\u{7}"), Err("name must not contain control characters".to_string()));
    assert_eq!(validate_entity_name("123"), Err("name must not be purely numeric".to_string()));
}

#[test]
fn shell_directory_segments() {
    assert!(cwd_to_segments(None).is_empty());
    assert_eq!(cwd_to_segments(Some(" /a/b/ ")), vec!["a", "b"]);
    assert!(cwd_to_segments(Some("/")).is_empty());
    assert!(doc_path_merge_with_cwd("a/"));
    assert!(doc_path_merge_with_cwd(" // "));
    assert!(!doc_path_merge_with_cwd(" //"));
    assert_eq!(finish_doc_path_from_segments(vec!["a".to_string(), "b".to_string()]), Ok("a/b".to_string()));
    assert_eq!(
        finish_doc_path_from_segments(vec![]),
        Err("path resolves to the repository root".to_string())
    );
}

#[test]
fn child_globals_carry_uri_timeout_and_headers() {
    let rpc = ShellChildRpc::new("http://h:1".to_string(), 0, vec!["X-A: 1".to_string()]);
    assert_eq!(rpc.global_args(), vec!["-u", "http://h:1", "-t", "1", "--header", "X-A: 1"]);
    let mut rpc = ShellChildRpc::new("u".to_string(), 9, vec![]);
    rpc.set_timeout_sec(30);
    assert_eq!(rpc.timeout_sec(), 30);
    assert_eq!(rpc.global_args(), vec!["-u", "u", "-t", "30"]);
}

#[test]
fn utf8_byte_lengths() {
    assert_eq!(byte_len(&['a', 'é', '€', '😀']), 1 + 2 + 3 + 4);
    assert_eq!(byte_len(&[]), 0);
}

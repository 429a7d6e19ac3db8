use tabula::listing::{
    format_uptime_ns, join_abs_dir_entry, normalize_mv_segment, pad_cell_visible,
    path_has_glob_metachar, rm_absolute_single_segment, search_hit_path_line,
    snippet_cli_display, validate_fs_name, visible_cell_len, ShellChildRpc,
};

#[test]
fn absolute_directory_slash_form() {
    assert_eq!(rm_absolute_single_segment("/xxx").as_deref(), Some("/xxx"));
    assert_eq!(rm_absolute_single_segment("/xxx/").as_deref(), Some("/xxx"));
}

#[test]
fn absolute_directory_rejects_multi_segment() {
    assert_eq!(rm_absolute_single_segment("/a/b"), None);
    assert_eq!(rm_absolute_single_segment("/"), None);
}

#[test]
fn absolute_directory_requires_leading_slash() {
    assert_eq!(rm_absolute_single_segment("xxx"), None);
}

#[test]
fn glob_metachar_detection() {
    assert!(path_has_glob_metachar("/a/*.md"));
    assert!(path_has_glob_metachar("a?b"));
    assert!(path_has_glob_metachar("[ab]"));
    assert!(!path_has_glob_metachar("/plain/path"));
}

#[test]
fn mv_segment_drops_trailing_slashes() {
    assert_eq!(normalize_mv_segment("dest/"), "dest");
    assert_eq!(normalize_mv_segment("dest//"), "dest");
    assert_eq!(normalize_mv_segment("cat/doc"), "cat/doc");
}

#[test]
fn join_dir_entry_forms() {
    assert_eq!(join_abs_dir_entry("/", "a"), "/a");
    assert_eq!(join_abs_dir_entry("/a", "b"), "/a/b");
    assert_eq!(join_abs_dir_entry("/a/", "/b"), "/a/b");
}

#[test]
fn fs_name_rules() {
    assert!(validate_fs_name("notes.md").is_ok());
    assert_eq!(validate_fs_name(""), Err("empty name".to_string()));
    assert_eq!(validate_fs_name(".."), Err("reserved name".to_string()));
    assert_eq!(
        validate_fs_name("a/b"),
        Err("path separator or NUL in name".to_string())
    );
}

#[test]
fn visible_width_skips_ansi_sequences() {
    assert_eq!(visible_cell_len("abc"), 3);
    assert_eq!(visible_cell_len("\x1b[1;33mab\x1b[0m"), 2);
    assert_eq!(pad_cell_visible("ab", 4), "ab  ");
    assert_eq!(pad_cell_visible("abcdef", 4), "abcdef");
}

#[test]
fn uptime_text() {
    assert_eq!(format_uptime_ns(0), "0d 0h 0m 0s");
    assert_eq!(format_uptime_ns(90_061_000_000_000), "1d 1h 1m 1s");
}

#[test]
fn snippet_and_hit_line() {
    assert_eq!(snippet_cli_display("a\nb\r\nc"), "a b  c");
    assert_eq!(search_hit_path_line("/a/b", Some(3)), "/a/b:3");
    assert_eq!(search_hit_path_line("/a/b", None), "/a/b");
}

#[test]
fn shell_child_rpc_timeout_roundtrip() {
    let mut c = ShellChildRpc::new("http://x".to_string(), 5, vec![]);
    assert_eq!(c.timeout_sec(), 5);
    c.set_timeout_sec(9);
    assert_eq!(c.timeout_sec(), 9);
}

use tabula::listing::edit_missing_document_error;
use tabula::web::Error;

#[test]
fn edit_missing_document_error_accepts_typed_not_found() {
    assert!(edit_missing_document_error(&Error::NotFound(
        "/kb/make-deb-howto".into()
    )));
}

#[test]
fn edit_missing_document_error_accepts_rpc_stringified_not_found() {
    assert!(edit_missing_document_error(&Error::InvalidInput(
        "not found: /kb/make-deb-howto".into()
    )));
}

#[test]
fn edit_missing_document_error_rejects_other_invalid_input() {
    assert!(!edit_missing_document_error(&Error::InvalidInput(
        "missing path".into()
    )));
}

use tabula::shell_path::{
    merge_cd_path, resolve_ls_directory, resolve_shell_doc_path, resolve_shell_rm_path,
    resolve_shell_tree_scope, shell_ls_bare_root_relative, shell_path_has_glob,
};

#[test]
fn doc_single_segment_uses_cwd() {
    assert_eq!(
        resolve_shell_doc_path("doc", Some("notes")).unwrap(),
        "notes/doc"
    );
}

#[test]
fn doc_multi_segment_uses_cwd() {
    assert_eq!(
        resolve_shell_doc_path("x/doc", Some("n")).unwrap(),
        "n/x/doc"
    );
}

#[test]
fn doc_dot_slash_against_cwd() {
    assert_eq!(resolve_shell_doc_path("./doc", Some("n")).unwrap(), "n/doc");
}

#[test]
fn tree_trailing_slash_relative() {
    assert_eq!(
        resolve_shell_tree_scope("sub/", Some("eva")).unwrap(),
        "eva/sub"
    );
}

#[test]
fn ls_bare_glob_prepends_cwd() {
    assert_eq!(
        resolve_ls_directory(Some("*.md"), Some("notes")).unwrap(),
        Some("notes/*.md".to_string())
    );
}

#[test]
fn ls_bare_non_glob_prepends_cwd() {
    assert_eq!(
        resolve_ls_directory(Some("report"), Some("projects")).unwrap(),
        Some("projects/report".to_string())
    );
}

#[test]
fn ls_bare_no_cwd_is_single_segment() {
    assert_eq!(
        resolve_ls_directory(Some("report"), None).unwrap(),
        Some("report".to_string())
    );
}

#[test]
fn merge_cd_relative_extends_cwd() {
    assert_eq!(merge_cd_path("b", Some("a")).unwrap(), "/a/b");
}

#[test]
fn merge_cd_relative_at_root() {
    assert_eq!(merge_cd_path("b", None).unwrap(), "/b");
}

#[test]
fn merge_cd_absolute_ignores_cwd() {
    assert_eq!(merge_cd_path("/x", Some("a")).unwrap(), "/x");
}

#[test]
fn merge_cd_strips_trailing_slash() {
    assert_eq!(merge_cd_path("sub/", Some("a")).unwrap(), "/a/sub");
}

#[test]
fn merge_cd_root_only() {
    assert_eq!(merge_cd_path("/", None).unwrap(), "/");
}

#[test]
fn merge_cd_dot_targets_cwd() {
    assert_eq!(merge_cd_path(".", Some("a/b")).unwrap(), "/a/b");
    assert_eq!(merge_cd_path(".", None).unwrap(), "/");
}

#[test]
fn doc_path_dotdot_folds_against_cwd() {
    assert_eq!(resolve_shell_doc_path("../x", Some("a/b")).unwrap(), "a/x");
}

#[test]
fn doc_path_escape_above_root_is_rejected() {
    assert_eq!(
        resolve_shell_doc_path("../x", None).unwrap_err(),
        "path escapes repository root"
    );
}

#[test]
fn doc_path_empty_is_rejected() {
    assert_eq!(
        resolve_shell_doc_path("   ", Some("a")).unwrap_err(),
        "path must not be empty"
    );
}

#[test]
fn doc_path_root_is_rejected() {
    assert_eq!(
        resolve_shell_doc_path("/", Some("a")).unwrap_err(),
        "path resolves to the repository root"
    );
}

#[test]
fn doc_path_backslash_is_rejected() {
    assert_eq!(
        resolve_shell_doc_path("a\\b", None).unwrap_err(),
        "path must not contain a backslash"
    );
}

#[test]
fn doc_path_absolute_ignores_cwd() {
    assert_eq!(resolve_shell_doc_path("/c/d", Some("other")).unwrap(), "c/d");
}

#[test]
fn tree_scope_root_sentinel_and_empty() {
    assert_eq!(resolve_shell_tree_scope(" / ", Some("a")).unwrap(), "/");
    assert_eq!(resolve_shell_tree_scope("..", Some("a")).unwrap(), "/");
    assert_eq!(
        resolve_shell_tree_scope("", None).unwrap_err(),
        "directory path must not be empty"
    );
}

#[test]
fn cd_error_is_prefixed() {
    assert_eq!(merge_cd_path("", None).unwrap_err(), "cd: empty path");
    assert_eq!(
        merge_cd_path("..", None).unwrap_err(),
        "cd: path escapes repository root"
    );
}

#[test]
fn rm_glob_paths() {
    assert_eq!(resolve_shell_rm_path("f*", false, Some("c")).unwrap(), "c/f*");
    assert_eq!(resolve_shell_rm_path("f*", true, Some("c")).unwrap(), "f*");
    assert_eq!(resolve_shell_rm_path("/a/f*/", false, Some("c")).unwrap(), "a/f*");
    assert_eq!(resolve_shell_rm_path("c/a", false, None).unwrap(), "c/a");
}

#[test]
fn bare_root_relative_and_glob() {
    assert!(shell_ls_bare_root_relative("other/"));
    assert!(!shell_ls_bare_root_relative("a/b"));
    assert!(!shell_ls_bare_root_relative(".."));
    assert!(shell_path_has_glob("a[1]"));
    assert!(!shell_path_has_glob("abc"));
}

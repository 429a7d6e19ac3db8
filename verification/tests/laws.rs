use tabula::paths::normalize_path;
use tabula::shell::{cwd_for_path, shell_cd_step, CdStep};
use tabula::shell_path::{merge_cd_path, resolve_shell_doc_path, resolve_shell_tree_scope};

#[test]
fn normalized_paths_normalize_to_themselves() {
    for p in ["a//./b", " /x/../y/z ", "/", "docs/notes.md"] {
        let once = normalize_path(p).unwrap();
        assert_eq!(normalize_path(&once).unwrap(), once);
    }
}

#[test]
fn trailing_blank_name_is_where_normalizing_twice_differs() {
    let once = normalize_path("a /").unwrap();
    assert_eq!(once, "/a ");
    assert_eq!(normalize_path(&once).unwrap(), "/a");
}

#[test]
fn cd_into_then_up_returns() {
    let into = merge_cd_path("x", Some("a/b")).unwrap();
    assert_eq!(into, "/a/b/x");
    let kept = cwd_for_path(&into);
    assert_eq!(kept, Some("a/b/x".to_string()));
    match shell_cd_step("cd ..", kept.as_deref()).unwrap() {
        CdStep::SetCwd(c) => assert_eq!(c, Some("a/b".to_string())),
        _ => panic!("expected a directory change"),
    }
    let into = merge_cd_path("x", None).unwrap();
    let kept = cwd_for_path(&into);
    assert_eq!(kept, Some("x".to_string()));
    match shell_cd_step("cd ..", kept.as_deref()).unwrap() {
        CdStep::SetCwd(c) => assert_eq!(c, None),
        _ => panic!("expected a directory change"),
    }
}

#[test]
fn absolute_paths_do_not_depend_on_the_current_directory() {
    for cwd in [None, Some("notes"), Some("a/b/c")] {
        assert_eq!(resolve_shell_doc_path(" /docs/../x.md", cwd), Ok("x.md".to_string()));
        assert_eq!(resolve_shell_tree_scope("/docs/./sub/", cwd), Ok("docs/sub".to_string()));
    }
    assert_eq!(resolve_shell_doc_path("x.md", Some("notes")), Ok("notes/x.md".to_string()));
}

#[test]
fn resolved_document_paths_resolve_to_themselves_from_the_root() {
    for (p, cwd) in [("a/./b/../c.md", Some("docs")), ("/x//y.md", None), ("../z.md", Some("d/e"))] {
        let once = resolve_shell_doc_path(p, cwd).unwrap();
        assert_eq!(resolve_shell_doc_path(&once, None).unwrap(), once);
    }
    assert_eq!(resolve_shell_doc_path("../z.md", Some("d/e")).unwrap(), "d/z.md");
}

#[test]
fn resolved_tree_scopes_resolve_to_themselves_from_the_root() {
    for (d, cwd) in [("sub/./x", Some("docs")), ("/", Some("docs")), ("..", Some("docs")), ("/a//b/", None)] {
        let once = resolve_shell_tree_scope(d, cwd).unwrap();
        assert_eq!(resolve_shell_tree_scope(&once, None).unwrap(), once);
    }
    assert_eq!(resolve_shell_tree_scope("..", Some("docs")).unwrap(), "/");
    assert_eq!(resolve_shell_tree_scope("sub/./x", Some("docs")).unwrap(), "docs/sub/x");
}

#[test]
fn cd_paths_start_with_a_slash_and_end_without_one() {
    assert_eq!(merge_cd_path("..", Some("a/b")), Ok("/a".to_string()));
    assert_eq!(merge_cd_path("..", None), Err("cd: path escapes repository root".to_string()));
    for (t, cwd) in [("sub/", Some("a")), ("/x/y/", None), ("..", Some("a")), (".", None)] {
        let p = merge_cd_path(t, cwd).unwrap();
        assert!(p.starts_with('/'));
        assert!(p == "/" || !p.ends_with('/'));
    }
}

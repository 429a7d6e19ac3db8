use tabula::transfer::{
    directory_prefixes, import_entry, import_label, import_rename_check, report_line, ImportEntry,
};

#[test]
fn import_labels_join_with_slash() {
    assert_eq!(import_label("", "a.md"), "a.md");
    assert_eq!(import_label("d/e", "a.md"), "d/e/a.md");
}

#[test]
fn import_entries_by_kind_and_name() {
    match import_entry("/dst", "sub", "f.md", false, true).unwrap() {
        ImportEntry::File { tb_path, parent, label } => {
            assert_eq!(tb_path, "/dst/f.md");
            assert_eq!(parent, "/dst");
            assert_eq!(label, "sub/f.md");
        }
        _ => panic!("expected a file"),
    }
    match import_entry("/dst/", "", "d", true, false).unwrap() {
        ImportEntry::Directory { tb_path, label } => {
            assert_eq!(tb_path, "/dst/d");
            assert_eq!(label, "d");
        }
        _ => panic!("expected a directory"),
    }
    match import_entry("/dst", "", "123", false, true).unwrap() {
        ImportEntry::Skipped { line } => {
            assert_eq!(line, "123 - SKIPPED: name must not be purely numeric");
        }
        _ => panic!("expected a skip"),
    }
    assert!(matches!(import_entry("/dst", "", "x", false, false), Ok(ImportEntry::Other)));
}

#[test]
fn directory_prefixes_outermost_first() {
    assert_eq!(directory_prefixes("/a/b/c"), vec!["/a", "/a/b", "/a/b/c"]);
    assert!(directory_prefixes("/").is_empty());
}

#[test]
fn import_rename_rules() {
    assert_eq!(import_rename_check(None, false), Ok(()));
    assert_eq!(import_rename_check(Some("x"), true), Ok(()));
    assert_eq!(
        import_rename_check(Some("  "), true),
        Err("import: --name must not be empty".to_string())
    );
    assert_eq!(
        import_rename_check(Some("x"), false),
        Err("import: --name is only valid when importing a single file".to_string())
    );
}

#[test]
fn report_lines() {
    assert_eq!(report_line("a", "OK", "ignored"), "a - OK");
    assert_eq!(report_line("a", "ERROR", "boom"), "a - ERROR: boom");
}

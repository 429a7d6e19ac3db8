use tabula::find::{
    find_base, find_doc_row, find_dir_row, find_needle, find_plain_line, find_table_row,
    sort_find_rows, FindRow,
};

#[test]
fn find_needle_lowercases_nonempty_names() {
    assert_eq!(find_needle(Some("ReadMe")), Some("readme".to_string()));
    assert_eq!(find_needle(Some("")), None);
    assert_eq!(find_needle(None), None);
}

#[test]
fn find_base_needs_a_name_at_root() {
    assert_eq!(find_base(None, true), Ok("/".to_string()));
    assert_eq!(
        find_base(None, false),
        Err("find: name required (use `find -d DIRECTORY` to list all files under a subtree)".to_string())
    );
    assert_eq!(find_base(Some("/"), false), Ok("/".to_string()));
    assert_eq!(find_base(Some(" docs/x "), false), Ok("/docs/x".to_string()));
}

#[test]
fn find_rows_match_names() {
    let r = find_dir_row("/a", "Notes", Some("note"), 5, None).unwrap();
    assert!(!r.exact);
    assert_eq!(r.kind, 0);
    assert_eq!(r.label, "/a/Notes");
    let r = find_dir_row("/", "Notes", Some("notes"), 5, None).unwrap();
    assert!(r.exact);
    assert_eq!(r.label, "/Notes");
    assert!(find_dir_row("/a", "x", Some("note"), 5, None).is_none());
    assert!(find_dir_row("/a", "x", None, 5, None).is_some());
    let r = find_doc_row("/a/b/Plan.md", Some("plan"), 9, Some("d".to_string())).unwrap();
    assert_eq!(r.kind, 1);
    assert!(!r.exact);
    assert_eq!(r.description, Some("d".to_string()));
    assert!(find_doc_row("/a/plan/x.md", Some("plan"), 9, None).is_none());
}

fn row(exact: bool, kind: u8, label: &str) -> FindRow {
    FindRow { exact, kind, label: label.to_string(), modified_at: 0, description: None }
}

#[test]
fn find_hits_order_exact_then_kind_then_path() {
    let mut rows = vec![
        row(false, 1, "/b"),
        row(false, 0, "/z"),
        row(true, 1, "/y"),
        row(false, 1, "/a"),
        row(true, 0, "/x"),
    ];
    sort_find_rows(&mut rows);
    let labels: Vec<&str> = rows.iter().map(|r| r.label.as_str()).collect();
    assert_eq!(labels, vec!["/x", "/y", "/z", "/a", "/b"]);
}

#[test]
fn find_output_cells_and_lines() {
    let d = row(false, 0, "/docs");
    assert_eq!(
        find_table_row(&d, true, "T"),
        vec!["directory", "\x1b[1;34m/docs\x1b[0m", "T", ""]
    );
    let f = FindRow { exact: false, kind: 1, label: "/a.md".to_string(), modified_at: 0, description: Some("x".to_string()) };
    assert_eq!(find_table_row(&f, true, "T"), vec!["file", "/a.md", "T", "x"]);
    assert_eq!(find_plain_line(&f, "T"), "file\t/a.md\tT\tx");
    assert_eq!(find_plain_line(&d, "T"), "directory\t/docs\tT\t");
}

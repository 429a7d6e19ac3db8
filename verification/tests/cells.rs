use tabula::listing::edit_suffix;
use tabula::ls::{ls_plain_line, ls_table_row, tty_style_dir_name, ListedEntryRow};
use tabula::table::cli_kv_lines;
use tabula::transfer::{export_entry, modified_in_listing, ExportEntry};
use tabula::wildcard::{rm_literal_target, RmLiteral};

fn row(name: &str, kind: i64, size: Option<u64>, count: u64, desc: Option<&str>) -> ListedEntryRow {
    ListedEntryRow {
        id: 1,
        kind,
        name: name.to_string(),
        description: desc.map(|d| d.to_string()),
        created_at: 0,
        modified_at: 42,
        accessed_at: 0,
        size_bytes: size,
        recursive_file_count: count,
    }
}

#[test]
fn ls_cells_and_lines() {
    let d = row("docs", 0, None, 3, None);
    assert_eq!(ls_table_row(&d, true, "T"), vec!["dir", "\x1b[1;34mdocs\x1b[0m", "3", "T", ""]);
    assert_eq!(ls_table_row(&d, false, "T"), vec!["dir", "docs", "3", "T", ""]);
    let f = row("a.md", 1, Some(120), 0, Some("notes"));
    assert_eq!(ls_plain_line(&f, "T"), "file\ta.md\t120\tT\tnotes");
    let g = row("b.md", 1, None, 7, None);
    assert_eq!(ls_plain_line(&g, "T"), "file\tb.md\t0\tT\t");
    assert_eq!(tty_style_dir_name("x", false, true), "x");
}

#[test]
fn kv_lines_pad_keys() {
    let rows = vec![("path".to_string(), "/a".to_string()), ("id".to_string(), "7".to_string())];
    assert_eq!(cli_kv_lines(&rows, false), vec!["path\t/a", "id\t7"]);
    assert_eq!(
        cli_kv_lines(&rows, true),
        vec!["\x1b[34mpath\x1b[0m /a", "\x1b[34mid  \x1b[0m 7"]
    );
}

#[test]
fn export_entries() {
    assert!(matches!(export_entry("/d", "x", false, false, false), ExportEntry::Other));
    match export_entry("/d", "a.md", false, true, false) {
        ExportEntry::File { server_path } => assert_eq!(server_path, "/d/a.md"),
        _ => panic!("expected a file"),
    }
    match export_entry("/", "sub", true, false, true) {
        ExportEntry::Directory { server_path } => assert_eq!(server_path, "/sub"),
        _ => panic!("expected a directory"),
    }
    match export_entry("/d", "..", true, false, false) {
        ExportEntry::Refused { line } => assert_eq!(line, "/d/.. - ERROR: reserved name"),
        _ => panic!("expected a refusal"),
    }
    match export_entry("/", "a\\b", false, true, true) {
        ExportEntry::Refused { line } => assert_eq!(line, "a\\b - ERROR: path separator or NUL in name"),
        _ => panic!("expected a refusal"),
    }
}

#[test]
fn listing_times_by_name() {
    let rows = vec![row("a", 1, None, 0, None), row("b", 0, None, 0, None)];
    assert_eq!(modified_in_listing("/d/b", "b", &rows), Ok(42));
    assert_eq!(
        modified_in_listing("/d/c", "c", &rows),
        Err("export: missing /d/c in listing".to_string())
    );
}

#[test]
fn rm_literal_targets() {
    match rm_literal_target("/top/", true).unwrap() {
        RmLiteral::TopDirectory { path } => assert_eq!(path, "/top"),
        _ => panic!("expected the top directory"),
    }
    match rm_literal_target("a/b/", true).unwrap() {
        RmLiteral::Path { path } => assert_eq!(path, "/a/b"),
        _ => panic!("expected a path"),
    }
    match rm_literal_target("/top", false).unwrap() {
        RmLiteral::Path { path } => assert_eq!(path, "/top"),
        _ => panic!("expected a path"),
    }
}

#[test]
fn edit_temp_suffix_follows_extension() {
    assert_eq!(edit_suffix("/docs/a.txt"), ".txt");
    assert_eq!(edit_suffix("/docs/readme"), ".md");
    assert_eq!(edit_suffix("/docs/.hidden"), ".md");
    assert_eq!(edit_suffix("/a.b/c.tar.gz"), ".gz");
}

#[test]
fn banner_fill_and_file_times() {
    assert_eq!(tabula::chat::prompt_banner_fill("h", "/p", "n", 20), 8);
    assert_eq!(tabula::chat::prompt_banner_fill("h", "/p", "n", 5), 0);
    assert_eq!(tabula::transfer::fs_timestamp(Some(5)), Ok(5));
    assert_eq!(
        tabula::transfer::fs_timestamp(None),
        Err("import: filesystem mtime before UNIX epoch".to_string())
    );
    assert_eq!(
        tabula::transfer::fs_timestamp(Some(u64::MAX as u128 + 1)),
        Err("import: filesystem mtime out of range".to_string())
    );
}

#[test]
fn chat_edit_outcomes() {
    assert_eq!(tabula::listing::chat_edit_outcome("a", "a", 1, 2), Ok(false));
    assert_eq!(tabula::listing::chat_edit_outcome("a", "b", 1, 1), Ok(true));
    assert_eq!(
        tabula::listing::chat_edit_outcome("a", "b", 1, 2),
        Err("document changed on the server while editing; re-open chat and retry".to_string())
    );
}

use tabula::ls::{sort_ls_rows, ListedEntryRow};

fn row(name: &str, kind: i64, mod_secs: u64) -> ListedEntryRow {
    ListedEntryRow {
        id: 0,
        kind,
        name: name.to_string(),
        description: None,
        created_at: 0,
        modified_at: mod_secs * 1_000_000_000,
        accessed_at: 0,
        size_bytes: None,
        recursive_file_count: 0,
    }
}

fn names(v: &[ListedEntryRow]) -> Vec<&str> {
    v.iter().map(|r| r.name.as_str()).collect()
}

#[test]
fn ls_sort_default_preserves_fetch_order() {
    let mut v = vec![row("b", 1, 10), row("a", 0, 5)];
    let want: Vec<String> = v.iter().map(|r| r.name.clone()).collect();
    sort_ls_rows(&mut v, false, false);
    assert_eq!(v[0].name, want[0]);
    assert_eq!(v[1].name, want[1]);
}

#[test]
fn ls_sort_time_newest_first_then_name_tiebreak() {
    let mut v = vec![row("b", 1, 10), row("a", 1, 10), row("c", 1, 5)];
    sort_ls_rows(&mut v, true, false);
    assert_eq!(v[0].name, "a");
    assert_eq!(v[1].name, "b");
    assert_eq!(v[2].name, "c");
}

#[test]
fn ls_sort_time_newest_first_pair() {
    let mut v = vec![row("a", 1, 1), row("b", 1, 3)];
    sort_ls_rows(&mut v, true, false);
    assert_eq!(v[0].name, "b");
    assert_eq!(v[1].name, "a");
}

#[test]
fn ls_sort_time_oldest_first_with_reverse_flag() {
    let mut v = vec![row("a", 1, 1), row("b", 1, 3)];
    sort_ls_rows(&mut v, true, true);
    assert_eq!(v[0].name, "a");
    assert_eq!(v[1].name, "b");
}

#[test]
fn ls_sort_reverse_name_flat() {
    let mut v = vec![row("a", 0, 1), row("m", 1, 99), row("b", 0, 2)];
    sort_ls_rows(&mut v, false, true);
    assert_eq!(v[0].name, "m");
    assert_eq!(v[1].name, "b");
    assert_eq!(v[2].name, "a");
}

#[test]
fn ls_sort_time_newest_first_flattens_dir_first_grouping() {
    let mut v = vec![row("dir", 0, 100), row("file", 1, 1)];
    sort_ls_rows(&mut v, true, false);
    assert_eq!(v[0].name, "dir");
    assert_eq!(v[1].name, "file");
}

#[test]
fn ls_sort_keeps_equal_rows_in_order() {
    let mut v = vec![row("x", 0, 5), row("x", 1, 5), row("a", 0, 5)];
    v[0].id = 1;
    v[1].id = 2;
    sort_ls_rows(&mut v, true, false);
    assert_eq!(names(&v), vec!["a", "x", "x"]);
    assert_eq!((v[1].id, v[2].id), (1, 2));
    sort_ls_rows(&mut v, false, true);
    assert_eq!(names(&v), vec!["x", "x", "a"]);
    assert_eq!((v[0].id, v[1].id), (1, 2));
}

#[test]
fn ls_sort_names_by_code_point() {
    let mut v = vec![row("é", 1, 0), row("z", 1, 0), row("Z", 1, 0), row("ab", 1, 0), row("a", 1, 0)];
    sort_ls_rows(&mut v, false, true);
    let mut want: Vec<&str> = vec!["é", "z", "Z", "ab", "a"];
    want.sort_by(|a, b| b.cmp(a));
    assert_eq!(names(&v), want);
}

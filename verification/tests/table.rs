use tabula::table::cli_table_lines;

fn s(v: &[&str]) -> Vec<String> {
    v.iter().map(|x| x.to_string()).collect()
}

#[test]
fn table_columns_take_widest_cell() {
    let lines = cli_table_lines(&s(&["kind", "name"]), &vec![s(&["dir", "docs"]), s(&["file", "a.md"])]);
    assert_eq!(lines, vec!["kind name", "---- ----", "dir  docs", "file a.md"]);
    let lines = cli_table_lines(&s(&["kind", "name"]), &vec![s(&["dir", "longname"])]);
    assert_eq!(lines, vec!["kind name    ", "---- --------", "dir  longname"]);
}

#[test]
fn table_ignores_colour_codes_in_width() {
    let lines = cli_table_lines(&s(&["n"]), &vec![s(&["\x1b[1mab\x1b[0m"]), s(&["abc"])]);
    assert_eq!(lines, vec!["n  ", "---", "\x1b[1mab\x1b[0m ", "abc"]);
}

#[test]
fn table_short_rows_keep_their_cells() {
    let lines = cli_table_lines(&s(&["a", "b"]), &vec![s(&["x"])]);
    assert_eq!(lines, vec!["a b", "- -", "x"]);
}

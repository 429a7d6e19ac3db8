use tabula::highlight::{
    highlight_query_in_snippet_tty, merge_intervals, try_highlight_query_in_snippet_tty,
};

#[test]
fn merge_joins_overlapping_and_touching() {
    assert_eq!(merge_intervals(vec![(5, 7), (0, 2), (1, 3)]), vec![(0, 3), (5, 7)]);
    assert_eq!(merge_intervals(vec![(0, 2), (2, 4)]), vec![(0, 4)]);
    assert_eq!(merge_intervals(vec![(3, 3), (4, 2)]), vec![]);
    assert_eq!(merge_intervals(vec![(0, 10), (2, 3)]), vec![(0, 10)]);
    assert_eq!(merge_intervals(vec![]), vec![]);
}

#[test]
fn highlight_marks_case_insensitive_matches() {
    assert_eq!(
        highlight_query_in_snippet_tty("Hello World", "world"),
        "Hello \x1b[1;33mWorld\x1b[0m"
    );
    assert_eq!(
        highlight_query_in_snippet_tty("abcabc", "ab bc"),
        "\x1b[1;33mabcabc\x1b[0m"
    );
    assert_eq!(highlight_query_in_snippet_tty("a\nb", "zz"), "a b");
    assert_eq!(
        highlight_query_in_snippet_tty("x y x", "x"),
        "\x1b[1;33mx\x1b[0m y \x1b[1;33mx\x1b[0m"
    );
}

#[test]
fn highlight_declines_where_lowercasing_shifts_bytes() {
    assert_eq!(try_highlight_query_in_snippet_tty("\u{130}x", "x"), None);
    assert_eq!(
        try_highlight_query_in_snippet_tty("Ab", "a").as_deref(),
        Some("\x1b[1;33mA\x1b[0mb")
    );
}

#[test]
fn ascii_snippets_always_highlight() {
    for (snippet, query) in [("GREP me\r\nnow", "ME NOW"), ("plain text", "zz"), ("MiXeD", "mix ED")] {
        let got = try_highlight_query_in_snippet_tty(snippet, query);
        assert!(got.is_some());
        assert_eq!(got.unwrap(), highlight_query_in_snippet_tty(snippet, query));
    }
    let h = highlight_query_in_snippet_tty("MiXeD", "mix ED");
    assert_eq!(h.replace("\x1b[1;33m", "").replace("\x1b[0m", ""), "MiXeD");
}

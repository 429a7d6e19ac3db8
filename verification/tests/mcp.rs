use tabula::json::{JsonNumber, JsonValue};
use tabula::mcp::{
    create_directory_params, describe_params, full_only_tool, grep_params, head_params,
    list_directory_params, reindex_params, search_params, slice_params, tail_lines_to_rpc_value,
    tail_params,
};
use tabula::numbers::LooseNat;

fn num(n: u64) -> JsonValue {
    JsonValue::Number(JsonNumber { text: n.to_string(), as_u64: Some(n) })
}

fn as_count(v: Result<JsonValue, String>) -> u64 {
    match v {
        Ok(JsonValue::Number(n)) => {
            assert_eq!(n.text, n.as_u64.unwrap().to_string());
            n.as_u64.unwrap()
        }
        _ => panic!("expected a number"),
    }
}

#[test]
fn tail_lines_default_and_numbers() {
    assert_eq!(as_count(tail_lines_to_rpc_value(None)), 10);
    assert_eq!(as_count(tail_lines_to_rpc_value(Some(&JsonValue::Null))), 10);
    assert_eq!(as_count(tail_lines_to_rpc_value(Some(&num(25)))), 25);
    assert_eq!(
        as_count(tail_lines_to_rpc_value(Some(&JsonValue::String(" 7 ".to_string())))),
        7
    );
}

#[test]
fn tail_lines_plus_form_passes_through() {
    match tail_lines_to_rpc_value(Some(&JsonValue::String(" +3 ".to_string()))) {
        Ok(JsonValue::String(s)) => assert_eq!(s, "+3"),
        _ => panic!("expected the +N text"),
    }
}

#[test]
fn tail_lines_refusals() {
    assert_eq!(
        tail_lines_to_rpc_value(Some(&num(5_000_000_000))).err(),
        Some("lines out of range".to_string())
    );
    let neg = JsonValue::Number(JsonNumber { text: "-1".to_string(), as_u64: None });
    assert_eq!(
        tail_lines_to_rpc_value(Some(&neg)).err(),
        Some("lines: number out of range".to_string())
    );
    assert_eq!(
        tail_lines_to_rpc_value(Some(&JsonValue::String("ten".to_string()))).err(),
        Some("lines: expected integer or '+N' string, got \"ten\"".to_string())
    );
    assert_eq!(
        tail_lines_to_rpc_value(Some(&JsonValue::Bool(true))).err(),
        Some("lines: expected number, string, or null".to_string())
    );
}

#[test]
fn destructive_tools_need_full_mode() {
    for t in ["delete_document", "delete_directory", "rename_document", "rename_directory",
        "move_document", "move_directory", "reindex"] {
        assert!(full_only_tool(t));
    }
    assert!(!full_only_tool("cat"));
    assert!(!full_only_tool("reindex2"));
}

fn keys(m: &[(String, JsonValue)]) -> Vec<&str> {
    m.iter().map(|(k, _)| k.as_str()).collect()
}

fn text_of(v: &JsonValue) -> &str {
    match v {
        JsonValue::String(s) => s.as_str(),
        _ => panic!("expected a string"),
    }
}

fn count_of(v: &JsonValue) -> u64 {
    match v {
        JsonValue::Number(n) => n.as_u64.unwrap(),
        _ => panic!("expected a number"),
    }
}

#[test]
fn optional_paths_are_left_out_when_blank() {
    assert!(list_directory_params(None).is_empty());
    assert!(list_directory_params(Some(String::new())).is_empty());
    let m = list_directory_params(Some("/a".to_string()));
    assert_eq!(keys(&m), vec!["path"]);
    assert_eq!(text_of(&m[0].1), "/a");
    assert_eq!(keys(&search_params("q".to_string(), Some(String::new()))), vec!["query"]);
    assert_eq!(keys(&search_params("q".to_string(), Some("/d".to_string()))), vec!["query", "path"]);
    assert!(reindex_params(Some(String::new())).is_empty());
}

#[test]
fn directory_and_describe_params() {
    let m = create_directory_params("/a".to_string(), None, false);
    assert_eq!(keys(&m), vec!["path"]);
    let m = create_directory_params("/a".to_string(), Some("d".to_string()), true);
    assert_eq!(keys(&m), vec!["path", "description", "parents"]);
    assert!(matches!(m[2].1, JsonValue::Bool(true)));
    assert_eq!(keys(&describe_params("/a".to_string(), None)), vec!["path"]);
    assert_eq!(keys(&describe_params("/a".to_string(), Some(String::new()))), vec!["path", "description"]);
}

#[test]
fn line_count_params() {
    let m = head_params("/a".to_string(), Some(LooseNat::Str(" 12 ".to_string()))).unwrap();
    assert_eq!(keys(&m), vec!["path", "lines"]);
    assert_eq!(count_of(&m[1].1), 12);
    assert_eq!(keys(&head_params("/a".to_string(), None).unwrap()), vec!["path"]);
    assert_eq!(
        head_params("/a".to_string(), Some(LooseNat::Str("x".to_string()))).err(),
        Some("expected non-negative integer string, got \"x\"".to_string())
    );
    let m = tail_params("/a".to_string(), None).unwrap();
    assert_eq!(count_of(&m[1].1), 10);
    let m = slice_params("/a".to_string(), LooseNat::Num(2), LooseNat::Str("5".to_string())).unwrap();
    assert_eq!(keys(&m), vec!["path", "start_line", "end_line"]);
    assert_eq!(count_of(&m[1].1), 2);
    assert_eq!(count_of(&m[2].1), 5);
    let m = grep_params("/a".to_string(), "x+".to_string(), None, None);
    assert_eq!(keys(&m), vec!["path", "pattern", "max_matches", "invert_match"]);
    assert_eq!(count_of(&m[2].1), 0);
    assert!(matches!(m[3].1, JsonValue::Bool(false)));
}

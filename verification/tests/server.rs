use tabula::commands::TailMode;
use tabula::config::{config_path, default_timeout_secs, Config, McpSection, ServerSection};
use tabula::json::{JsonNumber, JsonValue};
use tabula::numbers::{parse_tail_token, parse_u32, LooseNat};
use tabula::preview::{
    append_str, format_rpc_params_preview, sanitize_newlines_for_log, OUTPUT_CAP, STR_CLIP_CHARS,
};
use tabula::rpc::{
    directory_search_prefix, get_head_lines, get_slice_line, get_str, get_tail_mode_optional,
    json_u32_loose, list_directory_rpc_path, params_map, parent_and_final_name,
    parse_rpc_request, rpc_path, RpcRequest,
};
use tabula::web::{
    api_status, content_type, is_multipart_form, is_www_form_urlencoded, normalize_put_content,
    resolve_create_directory_body, rest_to_canonical, rpc_error_code, ui_file,
    CreateDirectoryBody, Error, RpcAppError, DUPLICATE_RESOURCE,
};
use tabula::web::{admit_request, check_envelope, dispatch_error_reply, parse_error_reply, reply_for, RpcEnvelope, RpcReply};

fn s(v: &str) -> JsonValue {
    JsonValue::String(v.to_string())
}

fn num(n: u64) -> JsonValue {
    JsonValue::Number(JsonNumber { text: n.to_string(), as_u64: Some(n) })
}

fn obj(members: Vec<(&str, JsonValue)>) -> Vec<(String, JsonValue)> {
    members.into_iter().map(|(k, v)| (k.to_string(), v)).collect()
}

#[test]
fn preview_replaces_embedded_newlines_with_space() {
    let v = JsonValue::Object(obj(vec![("p", s("a\nb"))]));
    let out = format_rpc_params_preview(Some(&v));
    assert!(!out.contains(['\r', '\n']));
    assert_eq!(out, "{p:a b}");
}

#[test]
fn preview_replaces_crlf() {
    let v = JsonValue::Object(obj(vec![("p", s("a\r\nb"))]));
    let out = format_rpc_params_preview(Some(&v));
    assert!(!out.contains(['\r', '\n']));
    assert_eq!(out, "{p:a b}");
}

#[test]
fn preview_replaces_lone_cr() {
    let v = JsonValue::Object(obj(vec![("p", s("a\rb"))]));
    let out = format_rpc_params_preview(Some(&v));
    assert!(!out.contains(['\r', '\n']));
    assert_eq!(out, "{p:a b}");
}

#[test]
fn preview_replaces_nr_mixture() {
    let v = JsonValue::Object(obj(vec![("p", s("a\n\rb"))]));
    let out = format_rpc_params_preview(Some(&v));
    assert!(!out.contains(['\r', '\n']));
    assert_eq!(out, "{p:a b}");
}

#[test]
fn preview_truncates_then_sanitizes_no_raw_newline_in_logged_prefix() {
    let xs = "x".repeat(55);
    let s_body = format!("{xs}\ny");
    assert!(s_body.chars().count() > STR_CLIP_CHARS);
    let v = JsonValue::Object(obj(vec![("p", JsonValue::String(s_body))]));
    let out = format_rpc_params_preview(Some(&v));
    assert!(!out.contains(['\r', '\n']));
    assert!(out.contains('…'));
    assert!(out.contains(" chars)"));
}

#[test]
fn preview_respects_output_cap() {
    let mut m = Vec::new();
    for i in 0..80 {
        m.push((format!("k{i}"), JsonValue::String("v".into())));
    }
    let v = JsonValue::Object(m);
    let out = format_rpc_params_preview(Some(&v));
    assert!(!out.contains(['\r', '\n']));
    assert!(out.len() <= OUTPUT_CAP, "len {}", out.len());
}

#[test]
fn preview_of_scalars_and_arrays() {
    assert_eq!(format_rpc_params_preview(None), "{}");
    let v = JsonValue::Array(vec![JsonValue::Null, JsonValue::Bool(true), num(7), s("x")]);
    assert_eq!(format_rpc_params_preview(Some(&v)), "[null,true,7,x]");
    let long = "y".repeat(60);
    let v = JsonValue::String(long);
    let expected = format!("{}…(60 chars)", "y".repeat(56));
    assert_eq!(format_rpc_params_preview(Some(&v)), expected);
}

#[test]
fn sanitize_collapses_break_runs() {
    assert_eq!(sanitize_newlines_for_log("a\r\n\r\nb"), "a b");
    assert_eq!(sanitize_newlines_for_log("\n\na"), "a");
    assert_eq!(sanitize_newlines_for_log("a \nb"), "a b");
    assert_eq!(sanitize_newlines_for_log("a\n"), "a ");
    assert_eq!(sanitize_newlines_for_log(""), "");
}

#[test]
fn append_str_respects_budget() {
    let mut out = "x".repeat(508);
    append_str("hello", &mut out, 56, 512);
    assert_eq!(out, format!("{}hell", "x".repeat(508)));
    let mut out = "x".repeat(509);
    append_str("hello", &mut out, 56, 512);
    assert_eq!(out.len(), 509);
    let mut out = String::new();
    append_str("ab\ncd", &mut out, 3, 512);
    assert_eq!(out, "ab …(5 chars)");
}

#[test]
fn u32_parsing_like_std() {
    assert_eq!(parse_u32("42"), Some(42));
    assert_eq!(parse_u32("+7"), Some(7));
    assert_eq!(parse_u32("4294967295"), Some(u32::MAX));
    assert_eq!(parse_u32("4294967296"), None);
    assert_eq!(parse_u32(""), None);
    assert_eq!(parse_u32("+"), None);
    assert_eq!(parse_u32("-1"), None);
    assert_eq!(parse_u32(" 1"), None);
    for t in ["0", "17", "+3", "x", "99999999999", "007"] {
        assert_eq!(parse_u32(t), t.parse::<u32>().ok(), "{t}");
    }
}

#[test]
fn tail_parses_plus_n() {
    assert_eq!(parse_tail_token("+2"), Ok(TailMode::FromLine(2)));
}

#[test]
fn tail_rejects_plus_zero() {
    assert!(parse_tail_token("+0").is_err());
}

#[test]
fn tail_token_plain_count() {
    assert_eq!(parse_tail_token(" 5 "), Ok(TailMode::Last(5)));
    assert!(parse_tail_token("++5").is_err());
    assert!(parse_tail_token("five").is_err());
}

#[test]
fn loose_nat_forms() {
    assert_eq!(LooseNat::Num(3).parse_u32(), Ok(3));
    assert_eq!(LooseNat::Str(" 12 ".to_string()).parse_u32(), Ok(12));
    assert_eq!(
        LooseNat::Str(" x ".to_string()).parse_u32(),
        Err("expected non-negative integer string, got \"x\"".to_string())
    );
}

#[test]
fn rest_paths_become_canonical() {
    assert_eq!(rest_to_canonical(""), "/");
    assert_eq!(rest_to_canonical(" //a/b "), "/a/b");
    assert_eq!(rest_to_canonical("a"), "/a");
}

#[test]
fn content_type_prefixes_any_case() {
    assert!(is_multipart_form("Multipart/Form-Data; boundary=x"));
    assert!(!is_multipart_form("text/plain"));
    assert!(is_www_form_urlencoded("application/x-www-form-urlencoded"));
    assert!(!is_www_form_urlencoded("application/json"));
}

#[test]
fn put_content_of_only_line_breaks_is_empty() {
    assert_eq!(normalize_put_content("\r\n\n".to_string()), "");
    assert_eq!(normalize_put_content("a\n".to_string()), "a\n");
    assert_eq!(normalize_put_content(String::new()), "");
}

#[test]
fn ui_content_types() {
    assert_eq!(content_type("index.html"), "text/html; charset=utf-8");
    assert_eq!(content_type("assets/app.JS"), "application/javascript; charset=utf-8");
    assert_eq!(content_type("a/b.woff2"), "font/woff2");
    assert_eq!(content_type(".bashrc"), "application/octet-stream");
    assert_eq!(content_type("noext"), "application/octet-stream");
    assert_eq!(content_type("x.map"), "application/json; charset=utf-8");
}

#[test]
fn ui_file_paths() {
    assert_eq!(ui_file("/").as_deref(), Some("index.html"));
    assert_eq!(ui_file("//assets/a.js").as_deref(), Some("assets/a.js"));
    assert_eq!(ui_file("/a/../b"), None);
}

#[test]
fn error_status_and_codes() {
    assert_eq!(api_status(&Error::NotFound("x".into())), (404, "x".to_string()));
    assert_eq!(api_status(&Error::Duplicate("d".into())).0, 409);
    assert_eq!(api_status(&Error::InvalidInput("bad".into())).0, 400);
    assert_eq!(api_status(&Error::Io("io".into())).0, 500);
    assert_eq!(rpc_error_code(&RpcAppError::MethodNotFound("m".into())).0, -32601);
    assert_eq!(
        rpc_error_code(&RpcAppError::Other(Error::NotEmpty("n".into()))),
        (-32602, "n".to_string())
    );
    assert_eq!(rpc_error_code(&RpcAppError::Other(Error::Duplicate("d".into()))).0, DUPLICATE_RESOURCE);
    assert_eq!(rpc_error_code(&RpcAppError::Other(Error::Other("o".into()))).0, -32603);
}

#[test]
fn create_directory_body_forms() {
    let b = CreateDirectoryBody { path: Some(" a//b/ ".into()), name: None, description: None, parents: false };
    assert_eq!(resolve_create_directory_body(&b).unwrap(), "/a/b");
    let b = CreateDirectoryBody { path: None, name: Some(" notes ".into()), description: None, parents: false };
    assert_eq!(resolve_create_directory_body(&b).unwrap(), "/notes");
    let b = CreateDirectoryBody { path: None, name: Some("a/b".into()), description: None, parents: false };
    assert!(matches!(resolve_create_directory_body(&b), Err(Error::InvalidInput(m)) if m == "name must not contain '/'"));
    let b = CreateDirectoryBody { path: None, name: None, description: None, parents: false };
    assert!(matches!(resolve_create_directory_body(&b), Err(Error::InvalidInput(m)) if m == "missing path or name"));
}

#[test]
fn rpc_param_helpers() {
    let m = obj(vec![("path", s("a/b")), ("lines", s(" 7 ")), ("n", num(5_000_000_000))]);
    assert_eq!(get_str(&m, "path").unwrap(), "a/b");
    assert!(matches!(get_str(&m, "nope"), Err(Error::InvalidInput(e)) if e == "missing string param nope"));
    assert_eq!(rpc_path(&m, "path").unwrap(), "/a/b");
    assert_eq!(get_head_lines(&m).unwrap(), 7);
    assert_eq!(get_head_lines(&obj(vec![])).unwrap(), 10);
    assert!(matches!(json_u32_loose(&num(5_000_000_000), "n"), Err(Error::InvalidInput(e)) if e == "param n out of range"));
    assert!(matches!(json_u32_loose(&JsonValue::Bool(true), "n"), Err(Error::InvalidInput(e)) if e == "param n: expected number or string integer"));
    assert_eq!(get_tail_mode_optional(&obj(vec![]), "lines").unwrap(), TailMode::Last(10));
    assert_eq!(get_tail_mode_optional(&obj(vec![("lines", s("+3"))]), "lines").unwrap(), TailMode::FromLine(3));
    assert_eq!(get_tail_mode_optional(&obj(vec![("lines", num(4))]), "lines").unwrap(), TailMode::Last(4));
    assert_eq!(get_slice_line(&obj(vec![("from_line", num(2))]), "start_line", "from_line").unwrap(), 2);
    assert!(matches!(get_slice_line(&obj(vec![]), "start_line", "from_line"), Err(Error::InvalidInput(e)) if e == "missing param start_line (or from_line)"));
    assert_eq!(list_directory_rpc_path(&obj(vec![])).unwrap(), "/");
    assert_eq!(list_directory_rpc_path(&obj(vec![("path", s(""))])).unwrap(), "/");
    assert_eq!(directory_search_prefix(&obj(vec![("path", s("/"))])).unwrap(), None);
    assert_eq!(directory_search_prefix(&obj(vec![("path", s("a/b/"))])).unwrap().as_deref(), Some("/a/b"));
    assert!(params_map(Some(s("x"))).is_empty());
    assert_eq!(params_map(Some(JsonValue::Object(obj(vec![("a", num(1))])))).len(), 1);
}

#[test]
fn rpc_requests_from_params() {
    let m = obj(vec![("path", s("a//b")), ("content", s("\n\n"))]);
    match parse_rpc_request("put_document", &m) {
        Ok(RpcRequest::PutDocument { path, content, force, only_if_revision }) => {
            assert_eq!(path, "/a/b");
            assert_eq!(content, "");
            assert!(!force);
            assert_eq!(only_if_revision, None);
        }
        _ => panic!("expected put"),
    }
    match parse_rpc_request("frobnicate", &m) {
        Err(RpcAppError::MethodNotFound(msg)) => assert_eq!(msg, "unknown method: frobnicate"),
        _ => panic!("expected unknown method"),
    }
    match parse_rpc_request("test", &m) {
        Err(RpcAppError::Other(Error::InvalidInput(msg))) => assert_eq!(msg, "test: no parameters allowed"),
        _ => panic!("expected invalid"),
    }
    assert!(matches!(parse_rpc_request("test", &obj(vec![])), Ok(RpcRequest::Test)));
    match parse_rpc_request("describe", &obj(vec![("path", s("x")), ("description", s(""))])) {
        Ok(RpcRequest::DescribeSet { path, description }) => {
            assert_eq!(path, "/x");
            assert_eq!(description, None);
        }
        _ => panic!("expected describe set"),
    }
    assert!(matches!(
        parse_rpc_request("describe", &obj(vec![("path", s("x")), ("description", JsonValue::Null)])),
        Err(RpcAppError::Other(Error::InvalidInput(_)))
    ));
    match parse_rpc_request("slice", &obj(vec![("path", s("d")), ("start_line", num(1)), ("to_line", s("3"))])) {
        Ok(RpcRequest::Slice { start, end, .. }) => assert_eq!((start, end), (1, 3)),
        _ => panic!("expected slice"),
    }
    match parse_rpc_request("create_document", &obj(vec![("path", s("d"))])) {
        Err(RpcAppError::Other(Error::InvalidInput(msg))) => assert_eq!(msg, "missing string param content"),
        _ => panic!("expected missing content"),
    }
    match parse_rpc_request("reindex", &obj(vec![("path", num(1))])) {
        Err(RpcAppError::Other(Error::InvalidInput(msg))) => assert_eq!(msg, "path must be string or null"),
        _ => panic!("expected reindex error"),
    }
}

#[test]
fn parent_and_name_split() {
    assert_eq!(parent_and_final_name("/a/b").unwrap(), ("/a".to_string(), "b".to_string()));
    assert_eq!(parent_and_final_name("/b").unwrap(), ("/".to_string(), "b".to_string()));
    assert!(parent_and_final_name("/").is_err());
}

#[test]
fn config_values() {
    assert_eq!(default_timeout_secs(), 3600);
    let server = ServerSection {
        listen: "127.0.0.1:3050".into(),
        database_path: "/tmp/db".into(),
        index_dir: "/tmp/idx".into(),
        workers: 0,
        timeout: 0,
    };
    assert_eq!(server.worker_threads(8), 8);
    assert_eq!(server.wait_timeout_secs(), 1);
    let cfg = Config { server, mcp: Some(McpSection { listen: Some("127.0.0.1:3031".into()), server_help: None }) };
    assert_eq!(cfg.mcp_listen().as_deref(), Some("127.0.0.1:3031"));
    let d = McpSection::default();
    assert!(d.listen.is_none() && d.server_help.is_none());
    assert_eq!(config_path(Some("  /etc/x.toml "), "/etc/tabularium/config.toml"), "/etc/x.toml");
    assert_eq!(config_path(Some("   "), "/etc/tabularium/config.toml"), "/etc/tabularium/config.toml");
    assert_eq!(config_path(None, "/c"), "/c");
}

#[test]
fn tail_wire_strings_must_be_plus_n() {
    assert_eq!(get_tail_mode_optional(&obj(vec![("lines", s("+2"))]), "lines").unwrap(), TailMode::FromLine(2));
    for bad in ["+0", "+x", "", "2", "+"] {
        assert!(get_tail_mode_optional(&obj(vec![("lines", s(bad))]), "lines").is_err(), "{bad}");
    }
}

fn envelope(version: &str, id: Option<JsonValue>) -> RpcEnvelope {
    RpcEnvelope { jsonrpc: version.to_string(), method: "ping".to_string(), params: None, id }
}

#[test]
fn rpc_envelope_version_is_checked_and_id_echoed() {
    let ok = check_envelope(envelope("2.0", Some(s("7")))).ok().unwrap();
    assert_eq!(ok.method, "ping");
    assert!(matches!(ok.id, Some(JsonValue::String(ref v)) if v == "7"));
    let e = check_envelope(envelope("1.0", Some(s("x")))).err().unwrap();
    assert_eq!(e.code, -32600);
    assert_eq!(e.message, "invalid jsonrpc version");
    assert!(matches!(e.id, Some(JsonValue::String(ref v)) if v == "x"));
    let p = parse_error_reply("expected value".to_string());
    assert_eq!((p.code, p.message.as_str()), (-32700, "expected value"));
    assert!(p.id.is_none());
    let d = dispatch_error_reply(Some(s("9")), &RpcAppError::MethodNotFound("no such method".into()));
    assert_eq!((d.code, d.message.as_str()), (-32601, "no such method"));
    assert!(matches!(d.id, Some(JsonValue::String(ref v)) if v == "9"));
}

#[test]
fn document_writes_carry_force_and_expected_revision() {
    let m = obj(vec![
        ("path", s("/d/x")),
        ("content", s("body")),
        ("force", JsonValue::Bool(true)),
        ("only_if_revision", s("rev-1")),
    ]);
    match parse_rpc_request("put_document", &m) {
        Ok(RpcRequest::PutDocument { force, only_if_revision, .. }) => {
            assert!(force);
            assert_eq!(only_if_revision.as_deref(), Some("rev-1"));
        }
        _ => panic!("expected put"),
    }
    let m = obj(vec![("path", s("/d/x")), ("content", s("t")), ("force", s("true"))]);
    assert!(matches!(parse_rpc_request("append_document", &m), Ok(RpcRequest::AppendDocument { force: true, .. })));
    let m = obj(vec![("path", s("/d/x")), ("content", s("t")), ("force", s("false"))]);
    assert!(matches!(parse_rpc_request("create_document", &m), Ok(RpcRequest::CreateDocument { force: false, .. })));
}

#[test]
fn every_rpc_request_gets_one_answer_for_its_id() {
    let e = admit_request(Err("expected value at line 1".to_string())).err().unwrap();
    assert_eq!((e.code, e.message.as_str()), (-32700, "expected value at line 1"));
    assert!(e.id.is_none());
    let e = admit_request(Ok(envelope("1.0", Some(s("a"))))).err().unwrap();
    assert_eq!(e.code, -32600);
    assert!(matches!(e.id, Some(JsonValue::String(ref v)) if v == "a"));
    let q = admit_request(Ok(envelope("2.0", Some(s("b"))))).ok().unwrap();
    match reply_for(q.id, Ok(JsonValue::Bool(true))) {
        RpcReply::Success { id, result } => {
            assert!(matches!(id, Some(JsonValue::String(ref v)) if v == "b"));
            assert!(matches!(result, JsonValue::Bool(true)));
        }
        RpcReply::Failure(_) => panic!("expected a result"),
    }
    match reply_for(None, Err(RpcAppError::Other(Error::Duplicate("exists".into())))) {
        RpcReply::Failure(f) => assert_eq!(f.code, DUPLICATE_RESOURCE),
        RpcReply::Success { .. } => panic!("expected an error"),
    }
    match reply_for(None, Err(RpcAppError::Other(Error::Io("disk".into())))) {
        RpcReply::Failure(f) => assert_eq!((f.code, f.message.as_str()), (-32603, "disk")),
        RpcReply::Success { .. } => panic!("expected an error"),
    }
}

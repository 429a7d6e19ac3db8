//! MCP tool arguments as the JSON-RPC layer wants them, and which tools only a
//! full (`mcp.full = true`) deployment offers.

use vstd::prelude::*;
use crate::json::{JsonMap, JsonNumber, JsonValue};
use crate::numbers::LooseNat;
use crate::numbers::{debug_str, parse_u32, spec_parse_u32};
use crate::text::{append_chars, chars_of, dec, dec_string, is_word, owned, string_of, trim, trim_ws};

verus! {

/// The tools that a deployment without `mcp.full` does not offer: every one
/// that deletes, renames, moves or reindexes.
pub open spec fn spec_full_only_tool(name: Seq<char>) -> bool {
    ||| name == "delete_document"@
    ||| name == "delete_directory"@
    ||| name == "rename_document"@
    ||| name == "rename_directory"@
    ||| name == "move_document"@
    ||| name == "move_directory"@
    ||| name == "reindex"@
}

pub fn full_only_tool(name: &str) -> (b: bool)
    ensures
        b == spec_full_only_tool(name@),
{
    let v = chars_of(name);
    let s = v.as_slice();
    is_word(s, "delete_document") || is_word(s, "delete_directory") || is_word(s, "rename_document")
        || is_word(s, "rename_directory") || is_word(s, "move_document") || is_word(
        s,
        "move_directory",
    ) || is_word(s, "reindex")
}

/// The `lines` argument of the MCP `tail` tool as the RPC layer takes it:
/// `Ok((true, n, _))` for the number `n`, `Ok((false, _, t))` for the `+N`
/// text `t`, or the reason it is refused. Absent or null is 10.
pub open spec fn spec_tail_lines(lines: Option<JsonValue>) -> Result<(bool, u32, Seq<char>), Seq<char>> {
    match lines {
        None => Ok((true, 10, seq![])),
        Some(JsonValue::Null) => Ok((true, 10, seq![])),
        Some(JsonValue::Number(n)) => match n.as_u64 {
            None => Err("lines: number out of range"@),
            Some(u) => if u <= u32::MAX {
                Ok((true, u as u32, seq![]))
            } else {
                Err("lines out of range"@)
            },
        },
        Some(JsonValue::String(s)) => {
            let t = trim(s@);
            if t.len() > 0 && t[0] == '+' {
                Ok((false, 0, t))
            } else {
                match spec_parse_u32(t) {
                    Some(u) => Ok((true, u, seq![])),
                    None => Err("lines: expected integer or '+N' string, got "@ + debug_str(t)),
                }
            }
        },
        _ => Err("lines: expected number, string, or null"@),
    }
}

fn number_value(u: u32) -> (v: JsonValue)
    ensures
        v matches JsonValue::Number(k) && k.text@ == dec(u as nat) && k.as_u64 == Some(u as u64),
{
    JsonValue::Number(JsonNumber { text: dec_string(u as u64), as_u64: Some(u as u64) })
}

/// Turns the `lines` argument of the MCP `tail` tool into the RPC parameter:
/// a line count as a JSON number, or a `+N` string passed on as it is
/// (trimmed).
pub fn tail_lines_to_rpc_value(lines: Option<&JsonValue>) -> (r: Result<JsonValue, String>)
    ensures
        match spec_tail_lines(
            match lines {
                Some(v) => Some(*v),
                None => None,
            },
        ) {
            Ok((true, n, _)) => r matches Ok(JsonValue::Number(k)) && k.text@ == dec(n as nat)
                && k.as_u64 == Some(n as u64),
            Ok((false, _, t)) => r matches Ok(JsonValue::String(s)) && s@ == t,
            Err(m) => r matches Err(e) && e@ == m,
        },
{
    match lines {
        None => Ok(number_value(10)),
        Some(JsonValue::Null) => Ok(number_value(10)),
        Some(JsonValue::Number(n)) => match n.as_u64 {
            None => Err(owned("lines: number out of range")),
            Some(u) => {
                if u <= 4294967295u64 {
                    Ok(number_value(u as u32))
                } else {
                    Err(owned("lines out of range"))
                }
            },
        },
        Some(JsonValue::String(s)) => {
            let t = trim_ws(chars_of(s.as_str()).as_slice());
            if t.len() > 0 && t[0] == '+' {
                Ok(JsonValue::String(string_of(t.as_slice())))
            } else {
                let ts = string_of(t.as_slice());
                match parse_u32(ts.as_str()) {
                    Some(u) => Ok(number_value(u)),
                    None => {
                        let mut m = chars_of("lines: expected integer or '+N' string, got ");
                        let q = crate::numbers::debug_quote(ts.as_str());
                        append_chars(&mut m, chars_of(q.as_str()).as_slice());
                        Err(string_of(m.as_slice()))
                    },
                }
            }
        },
        _ => Err(owned("lines: expected number, string, or null")),
    }
}

/// A member `key` holding the text `val`.
pub open spec fn text_member(m: (String, JsonValue), key: Seq<char>, val: Seq<char>) -> bool {
    &&& m.0@ == key
    &&& (m.1 matches JsonValue::String(t) && t@ == val)
}

/// A member `key` holding the number `n`.
pub open spec fn number_member(m: (String, JsonValue), key: Seq<char>, n: u64) -> bool {
    &&& m.0@ == key
    &&& (m.1 matches JsonValue::Number(k) && k.as_u64 == Some(n) && k.text@ == dec(n as nat))
}

/// A member `key` holding the boolean `b`.
pub open spec fn bool_member(m: (String, JsonValue), key: Seq<char>, b: bool) -> bool {
    m.0@ == key && m.1 == JsonValue::Bool(b)
}

fn text_entry(key: &str, val: String) -> (m: (String, JsonValue))
    ensures
        text_member(m, key@, val@),
{
    (owned(key), JsonValue::String(val))
}

fn number_entry(key: &str, n: u64) -> (m: (String, JsonValue))
    ensures
        number_member(m, key@, n),
{
    (owned(key), JsonValue::Number(JsonNumber { text: dec_string(n), as_u64: Some(n) }))
}

/// Whether an optional text is present and not empty.
pub open spec fn given(o: Option<String>) -> bool {
    o matches Some(t) && t@.len() > 0
}

fn is_given(o: &Option<String>) -> (b: bool)
    ensures
        b == given(*o),
{
    match o {
        Some(t) => chars_of(t.as_str()).len() > 0,
        None => false,
    }
}

/// `list_directory` parameters: the path only when one is given.
pub fn list_directory_params(path: Option<String>) -> (m: JsonMap)
    ensures
        given(path) ==> m@.len() == 1 && text_member(m@[0], "path"@, path->Some_0@),
        !given(path) ==> m@.len() == 0,
{
    let mut m: JsonMap = Vec::new();
    if is_given(&path) {
        match path {
            Some(p) => m.push(text_entry("path", p)),
            None => {},
        }
    }
    m
}

/// `search` parameters: the query, and the path only when one is given.
pub fn search_params(query: String, path: Option<String>) -> (m: JsonMap)
    ensures
        text_member(m@[0], "query"@, query@),
        given(path) ==> m@.len() == 2 && text_member(m@[1], "path"@, path->Some_0@),
        !given(path) ==> m@.len() == 1,
{
    let mut m: JsonMap = Vec::new();
    m.push(text_entry("query", query));
    if is_given(&path) {
        match path {
            Some(p) => m.push(text_entry("path", p)),
            None => {},
        }
    }
    m
}

/// `reindex` parameters: the path only when one is given (else everything).
pub fn reindex_params(path: Option<String>) -> (m: JsonMap)
    ensures
        given(path) ==> m@.len() == 1 && text_member(m@[0], "path"@, path->Some_0@),
        !given(path) ==> m@.len() == 0,
{
    list_directory_params(path)
}

/// `create_directory` parameters: the path, the description when there is
/// one, and `parents` only when set.
pub fn create_directory_params(path: String, description: Option<String>, parents: bool) -> (m: JsonMap)
    ensures
        m@.len() == 1 + (if description is Some { 1int } else { 0 }) + (if parents { 1int } else { 0 }),
        text_member(m@[0], "path"@, path@),
        description is Some ==> text_member(m@[1], "description"@, description->Some_0@),
        parents ==> bool_member(m@[m@.len() - 1], "parents"@, true),
{
    let mut m: JsonMap = Vec::new();
    m.push(text_entry("path", path));
    match description {
        Some(d) => m.push(text_entry("description", d)),
        None => {},
    }
    if parents {
        m.push((owned("parents"), JsonValue::Bool(true)));
    }
    m
}

/// `describe` parameters: the path, and the description when one is set.
pub fn describe_params(path: String, description: Option<String>) -> (m: JsonMap)
    ensures
        text_member(m@[0], "path"@, path@),
        description is Some ==> m@.len() == 2 && text_member(m@[1], "description"@, description->Some_0@),
        description is None ==> m@.len() == 1,
{
    let mut m: JsonMap = Vec::new();
    m.push(text_entry("path", path));
    match description {
        Some(d) => m.push(text_entry("description", d)),
        None => {},
    }
    m
}

/// `head` parameters: the path, and the line count when one is given (a
/// number, or a decimal string).
pub fn head_params(path: String, lines: Option<LooseNat>) -> (r: Result<JsonMap, String>)
    ensures
        match lines {
            None => r matches Ok(m) && m@.len() == 1 && text_member(m@[0], "path"@, path@),
            Some(LooseNat::Num(n)) => r matches Ok(m) && m@.len() == 2 && text_member(m@[0], "path"@, path@)
                && number_member(m@[1], "lines"@, n as u64),
            Some(LooseNat::Str(t)) => match spec_parse_u32(trim(t@)) {
                Some(n) => r matches Ok(m) && m@.len() == 2 && text_member(m@[0], "path"@, path@)
                    && number_member(m@[1], "lines"@, n as u64),
                None => r matches Err(e) && e@ == crate::numbers::loose_nat_error(t@),
            },
        },
{
    let mut m: JsonMap = Vec::new();
    m.push(text_entry("path", path));
    match lines {
        None => Ok(m),
        Some(l) => match l.parse_u32() {
            Ok(n) => {
                m.push(number_entry("lines", n as u64));
                Ok(m)
            },
            Err(e) => Err(e),
        },
    }
}

/// `tail` parameters: the path and the line count (see `tail_lines_to_rpc_value`).
pub fn tail_params(path: String, lines: Option<&JsonValue>) -> (r: Result<JsonMap, String>)
    ensures
        match spec_tail_lines(
            match lines {
                Some(v) => Some(*v),
                None => None,
            },
        ) {
            Ok((true, n, _)) => r matches Ok(m) && m@.len() == 2 && text_member(m@[0], "path"@, path@)
                && number_member(m@[1], "lines"@, n as u64),
            Ok((false, _, t)) => r matches Ok(m) && m@.len() == 2 && text_member(m@[0], "path"@, path@)
                && text_member(m@[1], "lines"@, t),
            Err(e) => r matches Err(x) && x@ == e,
        },
{
    let mut m: JsonMap = Vec::new();
    m.push(text_entry("path", path));
    match tail_lines_to_rpc_value(lines) {
        Ok(v) => {
            m.push((owned("lines"), v));
            Ok(m)
        },
        Err(e) => Err(e),
    }
}

/// The line number a `LooseNat` gives, or its error.
pub open spec fn loose_value(l: LooseNat) -> Result<u32, Seq<char>> {
    match l {
        LooseNat::Num(n) => Ok(n),
        LooseNat::Str(t) => match spec_parse_u32(trim(t@)) {
            Some(n) => Ok(n),
            None => Err(crate::numbers::loose_nat_error(t@)),
        },
    }
}

/// `slice` parameters: the path and both line numbers.
pub fn slice_params(path: String, start: LooseNat, end: LooseNat) -> (r: Result<JsonMap, String>)
    ensures
        match (loose_value(start), loose_value(end)) {
            (Ok(a), Ok(b)) => r matches Ok(m) && m@.len() == 3 && text_member(m@[0], "path"@, path@)
                && number_member(m@[1], "start_line"@, a as u64) && number_member(
                m@[2],
                "end_line"@,
                b as u64,
            ),
            (Err(e), _) => r matches Err(x) && x@ == e,
            (Ok(_), Err(e)) => r matches Err(x) && x@ == e,
        },
{
    let a = match start.parse_u32() {
        Ok(a) => a,
        Err(e) => {
            return Err(e);
        },
    };
    let b = match end.parse_u32() {
        Ok(b) => b,
        Err(e) => {
            return Err(e);
        },
    };
    let mut m: JsonMap = Vec::new();
    m.push(text_entry("path", path));
    m.push(number_entry("start_line", a as u64));
    m.push(number_entry("end_line", b as u64));
    Ok(m)
}

/// `grep` parameters: path, pattern, `max_matches` (0, unlimited, when
/// absent) and `invert_match` (false when absent).
pub fn grep_params(path: String, pattern: String, max_matches: Option<u64>, invert_match: Option<bool>) -> (m:
    JsonMap)
    ensures
        m@.len() == 4,
        text_member(m@[0], "path"@, path@),
        text_member(m@[1], "pattern"@, pattern@),
        number_member(
            m@[2],
            "max_matches"@,
            match max_matches {
                Some(n) => n,
                None => 0,
            },
        ),
        bool_member(
            m@[3],
            "invert_match"@,
            match invert_match {
                Some(b) => b,
                None => false,
            },
        ),
{
    let mut m: JsonMap = Vec::new();
    m.push(text_entry("path", path));
    m.push(text_entry("pattern", pattern));
    let n = match max_matches {
        Some(n) => n,
        None => 0,
    };
    m.push(number_entry("max_matches", n));
    let b = match invert_match {
        Some(b) => b,
        None => false,
    };
    m.push((owned("invert_match"), JsonValue::Bool(b)));
    m
}

} // verus!

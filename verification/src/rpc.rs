//! JSON-RPC requests of the document store: reading each method's parameters
//! into a typed request, with the error a bad parameter is answered with.

use vstd::prelude::*;
use crate::commands::TailMode;
use crate::json::{bool_of, get, is_nullish, lookup, str_of, u64_of, JsonMap, JsonValue};
use crate::numbers::{parse_plus_wire, parse_u32, plus_wire_error, spec_parse_u32, spec_plus_wire};
use crate::paths::spec_normalize_path;
use crate::shell_path::slash;
use crate::text::{append_chars, is_word, chars_of, drop_back, owned, string_of, trim, trim_back, trim_ws, CharClass};
use crate::web::{spec_normalize_put_content, Error, RpcAppError};

verus! {

/// `prefix` + `key` + `suffix`.
pub open spec fn msg(prefix: Seq<char>, key: Seq<char>, suffix: Seq<char>) -> Seq<char> {
    prefix + key + suffix
}

fn invalid(prefix: &str, key: &str, suffix: &str) -> (e: Error)
    ensures
        e == Error::InvalidInput(e->InvalidInput_0),
        e->InvalidInput_0@ == msg(prefix@, key@, suffix@),
{
    let mut v = chars_of(prefix);
    append_chars(&mut v, chars_of(key).as_slice());
    append_chars(&mut v, chars_of(suffix).as_slice());
    Error::InvalidInput(string_of(v.as_slice()))
}

/// An invalid-input error with the message `m`.
pub open spec fn is_invalid(e: Error, m: Seq<char>) -> bool {
    e is InvalidInput && e->InvalidInput_0@ == m
}

/// `get_str`: the string parameter `key`.
pub open spec fn spec_get_str(m: Seq<(String, JsonValue)>, key: Seq<char>) -> Result<
    Seq<char>,
    Seq<char>,
> {
    match str_of(lookup(m, key)) {
        Some(s) => Ok(s),
        None => Err(msg("missing string param "@, key, seq![])),
    }
}

pub fn get_str<'a>(m: &'a JsonMap, key: &str) -> (r: Result<&'a str, Error>)
    ensures
        r is Ok ==> spec_get_str(m@, key@) == Ok::<Seq<char>, Seq<char>>(r->Ok_0@),
        r is Err ==> spec_get_str(m@, key@) is Err && is_invalid(
            r->Err_0,
            spec_get_str(m@, key@)->Err_0,
        ),
{
    proof {
        reveal_strlit("");
    }
    match get(m, key) {
        Some(v) => match v {
            JsonValue::String(s) => Ok(s.as_str()),
            _ => Err(invalid("missing string param ", key, "")),
        },
        None => Err(invalid("missing string param ", key, "")),
    }
}

/// A path parameter, normalized to a canonical repository path.
pub open spec fn spec_rpc_path(m: Seq<(String, JsonValue)>, key: Seq<char>) -> Result<
    Seq<char>,
    Seq<char>,
> {
    match spec_get_str(m, key) {
        Ok(s) => spec_normalize_path(s),
        Err(e) => Err(e),
    }
}

fn normalized(s: &str) -> (r: Result<String, Error>)
    ensures
        match r {
            Ok(p) => spec_normalize_path(s@) == Ok::<Seq<char>, Seq<char>>(p@),
            Err(e) => spec_normalize_path(s@) is Err && is_invalid(
                e,
                spec_normalize_path(s@)->Err_0,
            ),
        },
{
    match crate::paths::normalize_path(s) {
        Ok(p) => Ok(p),
        Err(m) => Err(Error::InvalidInput(m)),
    }
}

pub fn rpc_path(m: &JsonMap, key: &str) -> (r: Result<String, Error>)
    ensures
        match r {
            Ok(p) => spec_rpc_path(m@, key@) == Ok::<Seq<char>, Seq<char>>(p@),
            Err(e) => spec_rpc_path(m@, key@) is Err && is_invalid(
                e,
                spec_rpc_path(m@, key@)->Err_0,
            ),
        },
{
    match get_str(m, key) {
        Ok(s) => normalized(s),
        Err(e) => Err(e),
    }
}

/// `list_directory`'s path: the root when `path` is missing, not a string or empty.
pub open spec fn spec_list_directory_path(m: Seq<(String, JsonValue)>) -> Result<
    Seq<char>,
    Seq<char>,
> {
    match str_of(lookup(m, "path"@)) {
        None => Ok(seq!['/']),
        Some(s) => if s.len() == 0 {
            Ok(seq!['/'])
        } else {
            spec_normalize_path(s)
        },
    }
}

pub fn list_directory_rpc_path(m: &JsonMap) -> (r: Result<String, Error>)
    ensures
        match r {
            Ok(p) => spec_list_directory_path(m@) == Ok::<Seq<char>, Seq<char>>(p@),
            Err(e) => spec_list_directory_path(m@) is Err && is_invalid(
                e,
                spec_list_directory_path(m@)->Err_0,
            ),
        },
{
    proof {
        reveal_strlit("/");
    }
    match get(m, "path") {
        Some(v) => match v {
            JsonValue::String(s) => {
                if s.as_str().unicode_len() == 0 {
                    let r = owned("/");
                    assert(r@ == seq!['/']);
                    Ok(r)
                } else {
                    normalized(s.as_str())
                }
            },
            _ => {
                let r = owned("/");
                assert(r@ == seq!['/']);
                Ok(r)
            },
        },
        None => {
            let r = owned("/");
            assert(r@ == seq!['/']);
            Ok(r)
        },
    }
}

/// A search's directory scope: none for a missing, empty or `/` path, else the
/// normalized directory.
pub open spec fn spec_search_prefix(m: Seq<(String, JsonValue)>) -> Result<
    Option<Seq<char>>,
    Seq<char>,
> {
    match str_of(lookup(m, "path"@)) {
        None => Ok(None),
        Some(s) => if s.len() == 0 || s == seq!['/'] {
            Ok(None)
        } else {
            match spec_normalize_path(s) {
                Ok(n) => Ok(Some(drop_back(n, slash()))),
                Err(e) => Err(e),
            }
        },
    }
}

fn is_root_or_empty(s: &str) -> (b: bool)
    ensures
        b == (s@.len() == 0 || s@ == seq!['/']),
{
    let v = chars_of(s);
    if v.len() == 0 {
        return true;
    }
    if v.len() == 1 && v[0] == '/' {
        assert(v@ =~= seq!['/']);
        return true;
    }
    assert(v@ != seq!['/']) by {
        if v@ == seq!['/'] {
            assert(v@.len() == 1 && v@[0] == '/');
        }
    }
    false
}

pub fn directory_search_prefix(m: &JsonMap) -> (r: Result<Option<String>, Error>)
    ensures
        match r {
            Ok(p) => spec_search_prefix(m@) == Ok::<Option<Seq<char>>, Seq<char>>(
                crate::listing::opt_str_view(p),
            ),
            Err(e) => spec_search_prefix(m@) is Err && is_invalid(
                e,
                spec_search_prefix(m@)->Err_0,
            ),
        },
{
    match get(m, "path") {
        Some(JsonValue::String(s)) => {
            if is_root_or_empty(s.as_str()) {
                Ok(None)
            } else {
                match normalized(s.as_str()) {
                    Ok(n) => {
                        let t = trim_back(chars_of(n.as_str()).as_slice(), CharClass::Exactly('/'));
                        Ok(Some(string_of(t.as_slice())))
                    },
                    Err(e) => Err(e),
                }
            }
        },
        _ => Ok(None),
    }
}

/// A `u32` parameter given as a number or a decimal string.
pub open spec fn spec_u32_loose(v: JsonValue, key: Seq<char>) -> Result<u32, Seq<char>> {
    match v {
        JsonValue::Number(n) => match n.as_u64 {
            None => Err(msg("param "@, key, ": number out of range"@)),
            Some(u) => if u <= u32::MAX {
                Ok(u as u32)
            } else {
                Err(msg("param "@, key, " out of range"@))
            },
        },
        JsonValue::String(s) => match spec_parse_u32(trim(s@)) {
            Some(n) => Ok(n),
            None => Err(msg("param "@, key, ": expected non-negative integer"@)),
        },
        _ => Err(msg("param "@, key, ": expected number or string integer"@)),
    }
}

pub fn json_u32_loose(v: &JsonValue, key: &str) -> (r: Result<u32, Error>)
    ensures
        match r {
            Ok(n) => spec_u32_loose(*v, key@) == Ok::<u32, Seq<char>>(n),
            Err(e) => spec_u32_loose(*v, key@) is Err && is_invalid(
                e,
                spec_u32_loose(*v, key@)->Err_0,
            ),
        },
{
    match v {
        JsonValue::Number(n) => match n.as_u64 {
            None => Err(invalid("param ", key, ": number out of range")),
            Some(u) => if u <= 4294967295u64 {
                Ok(u as u32)
            } else {
                Err(invalid("param ", key, " out of range"))
            },
        },
        JsonValue::String(s) => {
            let t = string_of(trim_ws(chars_of(s.as_str()).as_slice()).as_slice());
            match parse_u32(t.as_str()) {
                Some(n) => Ok(n),
                None => Err(invalid("param ", key, ": expected non-negative integer")),
            }
        },
        _ => Err(invalid("param ", key, ": expected number or string integer")),
    }
}

/// `head`'s line count: 10 when `lines` is missing or null.
pub open spec fn spec_head_lines(m: Seq<(String, JsonValue)>) -> Result<u32, Seq<char>> {
    if is_nullish(lookup(m, "lines"@)) {
        Ok(10)
    } else {
        spec_u32_loose(lookup(m, "lines"@)->0, "lines"@)
    }
}

pub fn get_head_lines(m: &JsonMap) -> (r: Result<u32, Error>)
    ensures
        match r {
            Ok(n) => spec_head_lines(m@) == Ok::<u32, Seq<char>>(n),
            Err(e) => spec_head_lines(m@) is Err && is_invalid(e, spec_head_lines(m@)->Err_0),
        },
{
    match get(m, "lines") {
        None => Ok(10),
        Some(JsonValue::Null) => Ok(10),
        Some(v) => json_u32_loose(v, "lines"),
    }
}

/// `tail`'s mode: the last 10 lines when `key` is missing or null; a number is
/// a count of last lines; a string must be `+N` (from line N).
pub open spec fn spec_tail_mode(m: Seq<(String, JsonValue)>, key: Seq<char>) -> Result<
    TailMode,
    Seq<char>,
> {
    if is_nullish(lookup(m, key)) {
        Ok(TailMode::Last(10))
    } else {
        match lookup(m, key)->0 {
            JsonValue::Number(n) => match n.as_u64 {
                None => Err(msg("param "@, key, ": number out of range"@)),
                Some(u) => if u <= u32::MAX {
                    Ok(TailMode::Last(u as u32))
                } else {
                    Err(msg("param "@, key, " out of range"@))
                },
            },
            JsonValue::String(s) => match spec_plus_wire(s@) {
                Some(n) => Ok(TailMode::FromLine(n)),
                None => Err(plus_wire_error()),
            },
            _ => Err(msg("param "@, key, ": expected number or \"+N\" string"@)),
        }
    }
}

pub fn get_tail_mode_optional(m: &JsonMap, key: &str) -> (r: Result<TailMode, Error>)
    ensures
        match r {
            Ok(t) => spec_tail_mode(m@, key@) == Ok::<TailMode, Seq<char>>(t),
            Err(e) => spec_tail_mode(m@, key@) is Err && is_invalid(
                e,
                spec_tail_mode(m@, key@)->Err_0,
            ),
        },
{
    match get(m, key) {
        None => Ok(TailMode::Last(10)),
        Some(JsonValue::Null) => Ok(TailMode::Last(10)),
        Some(JsonValue::Number(n)) => match n.as_u64 {
            None => Err(invalid("param ", key, ": number out of range")),
            Some(u) => if u <= 4294967295u64 {
                Ok(TailMode::Last(u as u32))
            } else {
                Err(invalid("param ", key, " out of range"))
            },
        },
        Some(JsonValue::String(s)) => match parse_plus_wire(s.as_str()) {
            Ok(t) => Ok(t),
            Err(e) => Err(Error::InvalidInput(e)),
        },
        Some(_) => Err(invalid("param ", key, ": expected number or \"+N\" string")),
    }
}

/// A slice bound: `primary`, else `alias`, each when present and not null.
pub open spec fn spec_slice_line(m: Seq<(String, JsonValue)>, primary: Seq<char>, alias: Seq<char>) -> Result<
    u32,
    Seq<char>,
> {
    if !is_nullish(lookup(m, primary)) {
        spec_u32_loose(lookup(m, primary)->0, primary)
    } else if !is_nullish(lookup(m, alias)) {
        spec_u32_loose(lookup(m, alias)->0, alias)
    } else {
        Err("missing param "@ + primary + " (or "@ + alias + ")"@)
    }
}

pub fn get_slice_line(m: &JsonMap, primary: &str, alias: &str) -> (r: Result<u32, Error>)
    ensures
        match r {
            Ok(n) => spec_slice_line(m@, primary@, alias@) == Ok::<u32, Seq<char>>(n),
            Err(e) => spec_slice_line(m@, primary@, alias@) is Err && is_invalid(
                e,
                spec_slice_line(m@, primary@, alias@)->Err_0,
            ),
        },
{
    match get(m, primary) {
        Some(v) => {
            if !(v matches JsonValue::Null) {
                return json_u32_loose(v, primary);
            }
        },
        None => {},
    }
    match get(m, alias) {
        Some(v) => {
            if !(v matches JsonValue::Null) {
                return json_u32_loose(v, alias);
            }
        },
        None => {},
    }
    let mut t = chars_of("missing param ");
    append_chars(&mut t, chars_of(primary).as_slice());
    append_chars(&mut t, chars_of(" (or ").as_slice());
    append_chars(&mut t, chars_of(alias).as_slice());
    append_chars(&mut t, chars_of(")").as_slice());
    Err(Error::InvalidInput(string_of(t.as_slice())))
}

/// `params_map`: the members of an object; nothing for any other params.
pub open spec fn spec_params_map(params: Option<JsonValue>) -> Seq<(String, JsonValue)> {
    match params {
        Some(JsonValue::Object(m)) => m@,
        _ => seq![],
    }
}

pub fn params_map(params: Option<JsonValue>) -> (m: JsonMap)
    ensures
        m@ == spec_params_map(params),
{
    match params {
        Some(JsonValue::Object(m)) => m,
        _ => Vec::new(),
    }
}

} // verus!

verus! {

/// A JSON-RPC request of the document store with its parameters read.
pub enum RpcRequest {
    ListDirectory { path: String },
    CreateDirectory { path: String, description: Option<String>, parents: bool },
    DeleteDirectory { path: String, recursive: bool },
    RenameDirectory { path: String, new_path: String },
    MoveDirectory { path: String, new_parent: String, new_name: String },
    ListDocuments { path: String },
    CreateDocument { path: String, content: String, force: bool, only_if_revision: Option<String> },
    PutDocument { path: String, content: String, force: bool, only_if_revision: Option<String> },
    DeleteDocument { path: String },
    UpdateDocument { path: String, content: String },
    AppendDocument { path: String, content: String, force: bool, only_if_revision: Option<String> },
    SayDocument { path: String, from_id: String, content: String },
    TouchDocument { path: String, modified_at: bool },
    RenameDocument { path: String, new_name: String },
    MoveDocument { path: String, new_path: String },
    CopyEntries { src: String, dst: String, recursive: bool },
    GetDocument { path: String },
    Wait { path: String },
    GetDocumentRef { path: String },
    Exists { path: String },
    Search { query: String, prefix: Option<String> },
    Reindex { filter: Option<String> },
    Head { path: String, lines: u32 },
    Tail { path: String, mode: TailMode },
    Slice { path: String, start: u32, end: u32 },
    Grep { path: String, pattern: String, max_matches: usize, invert_match: bool },
    Wc { path: String },
    Stat { path: String },
    Test,
    DescribeGet { path: String },
    DescribeSet { path: String, description: Option<String> },
}

/// A request with its texts as character sequences.
pub enum ReqView {
    ListDirectory(Seq<char>),
    CreateDirectory(Seq<char>, Option<Seq<char>>, bool),
    DeleteDirectory(Seq<char>, bool),
    RenameDirectory(Seq<char>, Seq<char>),
    MoveDirectory(Seq<char>, Seq<char>, Seq<char>),
    ListDocuments(Seq<char>),
    CreateDocument(Seq<char>, Seq<char>, bool, Option<Seq<char>>),
    PutDocument(Seq<char>, Seq<char>, bool, Option<Seq<char>>),
    DeleteDocument(Seq<char>),
    UpdateDocument(Seq<char>, Seq<char>),
    AppendDocument(Seq<char>, Seq<char>, bool, Option<Seq<char>>),
    SayDocument(Seq<char>, Seq<char>, Seq<char>),
    TouchDocument(Seq<char>, bool),
    RenameDocument(Seq<char>, Seq<char>),
    MoveDocument(Seq<char>, Seq<char>),
    CopyEntries(Seq<char>, Seq<char>, bool),
    GetDocument(Seq<char>),
    Wait(Seq<char>),
    GetDocumentRef(Seq<char>),
    Exists(Seq<char>),
    Search(Seq<char>, Option<Seq<char>>),
    Reindex(Option<Seq<char>>),
    Head(Seq<char>, u32),
    Tail(Seq<char>, TailMode),
    Slice(Seq<char>, u32, u32),
    Grep(Seq<char>, Seq<char>, usize, bool),
    Wc(Seq<char>),
    Stat(Seq<char>),
    Test,
    DescribeGet(Seq<char>),
    DescribeSet(Seq<char>, Option<Seq<char>>),
}

pub open spec fn ov(o: Option<String>) -> Option<Seq<char>> {
    crate::listing::opt_str_view(o)
}

impl RpcRequest {
    pub open spec fn view(self) -> ReqView {
        match self {
            RpcRequest::ListDirectory { path } => ReqView::ListDirectory(path@),
            RpcRequest::CreateDirectory { path, description, parents } => ReqView::CreateDirectory(
                path@,
                ov(description),
                parents,
            ),
            RpcRequest::DeleteDirectory { path, recursive } => ReqView::DeleteDirectory(
                path@,
                recursive,
            ),
            RpcRequest::RenameDirectory { path, new_path } => ReqView::RenameDirectory(
                path@,
                new_path@,
            ),
            RpcRequest::MoveDirectory { path, new_parent, new_name } => ReqView::MoveDirectory(
                path@,
                new_parent@,
                new_name@,
            ),
            RpcRequest::ListDocuments { path } => ReqView::ListDocuments(path@),
            RpcRequest::CreateDocument { path, content, force, only_if_revision } => ReqView::CreateDocument(
                path@,
                content@,
                force,
                ov(only_if_revision),
            ),
            RpcRequest::PutDocument { path, content, force, only_if_revision } => ReqView::PutDocument(
                path@,
                content@,
                force,
                ov(only_if_revision),
            ),
            RpcRequest::DeleteDocument { path } => ReqView::DeleteDocument(path@),
            RpcRequest::UpdateDocument { path, content } => ReqView::UpdateDocument(
                path@,
                content@,
            ),
            RpcRequest::AppendDocument { path, content, force, only_if_revision } => ReqView::AppendDocument(
                path@,
                content@,
                force,
                ov(only_if_revision),
            ),
            RpcRequest::SayDocument { path, from_id, content } => ReqView::SayDocument(
                path@,
                from_id@,
                content@,
            ),
            RpcRequest::TouchDocument { path, modified_at } => ReqView::TouchDocument(
                path@,
                modified_at,
            ),
            RpcRequest::RenameDocument { path, new_name } => ReqView::RenameDocument(
                path@,
                new_name@,
            ),
            RpcRequest::MoveDocument { path, new_path } => ReqView::MoveDocument(
                path@,
                new_path@,
            ),
            RpcRequest::CopyEntries { src, dst, recursive } => ReqView::CopyEntries(
                src@,
                dst@,
                recursive,
            ),
            RpcRequest::GetDocument { path } => ReqView::GetDocument(path@),
            RpcRequest::Wait { path } => ReqView::Wait(path@),
            RpcRequest::GetDocumentRef { path } => ReqView::GetDocumentRef(path@),
            RpcRequest::Exists { path } => ReqView::Exists(path@),
            RpcRequest::Search { query, prefix } => ReqView::Search(query@, ov(prefix)),
            RpcRequest::Reindex { filter } => ReqView::Reindex(ov(filter)),
            RpcRequest::Head { path, lines } => ReqView::Head(path@, lines),
            RpcRequest::Tail { path, mode } => ReqView::Tail(path@, mode),
            RpcRequest::Slice { path, start, end } => ReqView::Slice(path@, start, end),
            RpcRequest::Grep { path, pattern, max_matches, invert_match } => ReqView::Grep(
                path@,
                pattern@,
                max_matches,
                invert_match,
            ),
            RpcRequest::Wc { path } => ReqView::Wc(path@),
            RpcRequest::Stat { path } => ReqView::Stat(path@),
            RpcRequest::Test => ReqView::Test,
            RpcRequest::DescribeGet { path } => ReqView::DescribeGet(path@),
            RpcRequest::DescribeSet { path, description } => ReqView::DescribeSet(
                path@,
                ov(description),
            ),
        }
    }
}

/// Chains a parameter that was read onto what follows from it.
pub open spec fn bind<A>(r: Result<A, Seq<char>>, f: spec_fn(A) -> Result<ReqView, Seq<char>>) -> Result<
    ReqView,
    Seq<char>,
> {
    match r {
        Ok(a) => f(a),
        Err(e) => Err(e),
    }
}

/// A boolean flag: true only when given as JSON `true`.
pub open spec fn flag(m: Seq<(String, JsonValue)>, key: Seq<char>) -> bool {
    bool_of(lookup(m, key)) == Some(true)
}

/// The `force` parameter of a document write: `true` as a boolean or as the
/// string `"true"`; anything else, or nothing, is `false` (no overwrite).
pub open spec fn force_flag(m: Seq<(String, JsonValue)>) -> bool {
    match lookup(m, "force"@) {
        Some(JsonValue::Bool(b)) => b,
        Some(JsonValue::String(s)) => s@ == "true"@,
        _ => false,
    }
}

/// `reindex`'s scope: none for a missing or null path, `""` or `/`; else the
/// normalized path; a path of another type is an error.
pub open spec fn spec_reindex_filter(m: Seq<(String, JsonValue)>) -> Result<
    Option<Seq<char>>,
    Seq<char>,
> {
    if is_nullish(lookup(m, "path"@)) {
        Ok(None)
    } else {
        match str_of(lookup(m, "path"@)) {
            None => Err("path must be string or null"@),
            Some(s) => if s.len() == 0 || s == seq!['/'] {
                Ok(None)
            } else {
                match spec_normalize_path(s) {
                    Ok(n) => Ok(Some(n)),
                    Err(e) => Err(e),
                }
            },
        }
    }
}

/// `grep`'s match limit: `max_matches` when it is a `u64` (saturated to
/// `usize`), else 0.
pub open spec fn spec_max_matches(m: Seq<(String, JsonValue)>) -> usize {
    match u64_of(lookup(m, "max_matches"@)) {
        Some(u) => if u <= usize::MAX {
            u as usize
        } else {
            usize::MAX
        },
        None => 0,
    }
}

/// `describe`: a get without `description`, a set with a string one (the
/// empty string clears it), an error for any other value.
pub open spec fn spec_describe(p: Seq<char>, m: Seq<(String, JsonValue)>) -> Result<ReqView, Seq<char>> {
    match lookup(m, "description"@) {
        None => Ok(ReqView::DescribeGet(p)),
        Some(JsonValue::String(s)) => Ok(
            ReqView::DescribeSet(
                p,
                if s@.len() == 0 {
                    None
                } else {
                    Some(s@)
                },
            ),
        ),
        Some(_) => Err("describe: param description must be a string when provided"@),
    }
}

/// The request a method name and its parameters make, or the invalid-input
/// message of the first parameter that is wrong.
pub open spec fn spec_method_request(method: Seq<char>, m: Seq<(String, JsonValue)>) -> Option<
    Result<ReqView, Seq<char>>,
> {
    let path = spec_rpc_path(m, "path"@);
    if method == "list_directory"@ {
        Some(bind(spec_list_directory_path(m), |p: Seq<char>| Ok(ReqView::ListDirectory(p))))
    } else if method == "search"@ {
        Some(
            bind(
                spec_get_str(m, "query"@),
                |q: Seq<char>|
                    bind(
                        spec_search_prefix(m),
                        |d: Option<Seq<char>>| Ok(ReqView::Search(q, d)),
                    ),
            ),
        )
    } else if method == "reindex"@ {
        Some(bind(spec_reindex_filter(m), |f: Option<Seq<char>>| Ok(ReqView::Reindex(f))))
    } else if method == "copy_entries"@ {
        Some(
            bind(
                spec_rpc_path(m, "src"@),
                |s: Seq<char>|
                    bind(
                        spec_rpc_path(m, "dst"@),
                        |d: Seq<char>| Ok(ReqView::CopyEntries(s, d, flag(m, "recursive"@))),
                    ),
            ),
        )
    } else if method == "test"@ {
        Some(
            if m.len() > 0 {
                Err("test: no parameters allowed"@)
            } else {
                Ok(ReqView::Test)
            },
        )
    } else if method == "create_directory"@ {
        Some(
            bind(
                path,
                |p: Seq<char>|
                    Ok(
                        ReqView::CreateDirectory(
                            p,
                            str_of(lookup(m, "description"@)),
                            flag(m, "parents"@),
                        ),
                    ),
            ),
        )
    } else if method == "delete_directory"@ {
        Some(bind(path, |p: Seq<char>| Ok(ReqView::DeleteDirectory(p, flag(m, "recursive"@)))))
    } else if method == "rename_directory"@ {
        Some(
            bind(
                path,
                |p: Seq<char>|
                    bind(
                        spec_rpc_path(m, "new_path"@),
                        |q: Seq<char>| Ok(ReqView::RenameDirectory(p, q)),
                    ),
            ),
        )
    } else if method == "move_directory"@ {
        Some(
            bind(
                path,
                |p: Seq<char>|
                    bind(
                        spec_rpc_path(m, "new_parent"@),
                        |q: Seq<char>|
                            bind(
                                spec_get_str(m, "new_name"@),
                                |n: Seq<char>| Ok(ReqView::MoveDirectory(p, q, n)),
                            ),
                    ),
            ),
        )
    } else if method == "list_documents"@ {
        Some(bind(path, |p: Seq<char>| Ok(ReqView::ListDocuments(p))))
    } else if method == "create_document"@ {
        Some(
            bind(
                path,
                |p: Seq<char>|
                    bind(
                        spec_get_str(m, "content"@),
                        |c: Seq<char>|
                            Ok(ReqView::CreateDocument(p, c, force_flag(m), str_of(lookup(m, "only_if_revision"@)))),
                    ),
            ),
        )
    } else if method == "put_document"@ {
        Some(
            bind(
                path,
                |p: Seq<char>|
                    bind(
                        spec_get_str(m, "content"@),
                        |c: Seq<char>|
                            Ok(
                                ReqView::PutDocument(
                                    p,
                                    spec_normalize_put_content(c),
                                    force_flag(m),
                                    str_of(lookup(m, "only_if_revision"@)),
                                ),
                            ),
                    ),
            ),
        )
    } else if method == "delete_document"@ {
        Some(bind(path, |p: Seq<char>| Ok(ReqView::DeleteDocument(p))))
    } else if method == "update_document"@ || method == "replace_document"@ {
        Some(
            bind(
                path,
                |p: Seq<char>|
                    bind(
                        spec_get_str(m, "content"@),
                        |c: Seq<char>| Ok(ReqView::UpdateDocument(p, c)),
                    ),
            ),
        )
    } else if method == "append_document"@ {
        Some(
            bind(
                path,
                |p: Seq<char>|
                    bind(
                        spec_get_str(m, "content"@),
                        |c: Seq<char>|
                            Ok(ReqView::AppendDocument(p, c, force_flag(m), str_of(lookup(m, "only_if_revision"@)))),
                    ),
            ),
        )
    } else if method == "say_document"@ {
        Some(
            bind(
                path,
                |p: Seq<char>|
                    bind(
                        spec_get_str(m, "from_id"@),
                        |f: Seq<char>|
                            bind(
                                spec_get_str(m, "content"@),
                                |c: Seq<char>| Ok(ReqView::SayDocument(p, f, c)),
                            ),
                    ),
            ),
        )
    } else if method == "touch_document"@ {
        Some(
            bind(
                path,
                |p: Seq<char>|
                    Ok(ReqView::TouchDocument(p, !is_nullish(lookup(m, "modified_at"@)))),
            ),
        )
    } else if method == "rename_document"@ {
        Some(
            bind(
                path,
                |p: Seq<char>|
                    bind(
                        spec_get_str(m, "new_name"@),
                        |n: Seq<char>| Ok(ReqView::RenameDocument(p, n)),
                    ),
            ),
        )
    } else if method == "move_document"@ {
        Some(
            bind(
                path,
                |p: Seq<char>|
                    bind(
                        spec_rpc_path(m, "new_path"@),
                        |q: Seq<char>| Ok(ReqView::MoveDocument(p, q)),
                    ),
            ),
        )
    } else if method == "get_document"@ || method == "cat"@ {
        Some(bind(path, |p: Seq<char>| Ok(ReqView::GetDocument(p))))
    } else if method == "wait"@ {
        Some(bind(path, |p: Seq<char>| Ok(ReqView::Wait(p))))
    } else if method == "get_document_ref"@ {
        Some(bind(path, |p: Seq<char>| Ok(ReqView::GetDocumentRef(p))))
    } else if method == "exists"@ {
        Some(bind(path, |p: Seq<char>| Ok(ReqView::Exists(p))))
    } else if method == "head"@ {
        Some(
            bind(
                path,
                |p: Seq<char>| bind(spec_head_lines(m), |n: u32| Ok(ReqView::Head(p, n))),
            ),
        )
    } else if method == "tail"@ {
        Some(
            bind(
                path,
                |p: Seq<char>|
                    bind(spec_tail_mode(m, "lines"@), |t: TailMode| Ok(ReqView::Tail(p, t))),
            ),
        )
    } else if method == "slice"@ {
        Some(
            bind(
                path,
                |p: Seq<char>|
                    bind(
                        spec_slice_line(m, "start_line"@, "from_line"@),
                        |a: u32|
                            bind(
                                spec_slice_line(m, "end_line"@, "to_line"@),
                                |b: u32| Ok(ReqView::Slice(p, a, b)),
                            ),
                    ),
            ),
        )
    } else if method == "grep"@ {
        Some(
            bind(
                path,
                |p: Seq<char>|
                    bind(
                        spec_get_str(m, "pattern"@),
                        |g: Seq<char>|
                            Ok(
                                ReqView::Grep(
                                    p,
                                    g,
                                    spec_max_matches(m),
                                    flag(m, "invert_match"@),
                                ),
                            ),
                    ),
            ),
        )
    } else if method == "wc"@ {
        Some(bind(path, |p: Seq<char>| Ok(ReqView::Wc(p))))
    } else if method == "stat"@ {
        Some(bind(path, |p: Seq<char>| Ok(ReqView::Stat(p))))
    } else if method == "describe"@ {
        Some(bind(path, |p: Seq<char>| spec_describe(p, m)))
    } else {
        None
    }
}


/// A `grep` request keeps the match limit the client asked for: a
/// `max_matches` given as an unsigned JSON integer `u` becomes `u` (or the
/// largest `usize` when `u` does not fit); the limit is `0` (no limit)
/// exactly when the member is absent, not an unsigned integer, or `0`.
pub proof fn law_grep_keeps_match_limit(
    method: Seq<char>,
    m: Seq<(String, JsonValue)>,
    p: Seq<char>,
    g: Seq<char>,
    mm: usize,
    inv: bool,
)
    requires
        spec_method_request(method, m) == Some(Ok::<ReqView, Seq<char>>(ReqView::Grep(p, g, mm, inv))),
    ensures
        u64_of(lookup(m, "max_matches"@)) matches Some(u) ==> mm as int == (if u <= usize::MAX {
            u as int
        } else {
            usize::MAX as int
        }),
        (mm == 0) <==> (u64_of(lookup(m, "max_matches"@)) is None || u64_of(lookup(m, "max_matches"@))
            == Some(0u64)),
{
}

} // verus!

verus! {

/// The message for a method that does not exist.
pub open spec fn unknown_method(method: Seq<char>) -> Seq<char> {
    "unknown method: "@ + method
}

pub open spec fn request_ok(r: Result<RpcRequest, RpcAppError>, v: ReqView) -> bool {
    r is Ok && r->Ok_0.view() == v
}

pub open spec fn request_err(r: Result<RpcRequest, RpcAppError>, e: Seq<char>) -> bool {
    r is Err && r->Err_0 is Other && is_invalid(r->Err_0->Other_0, e)
}

/// Reads a JSON-RPC method's parameters into a request; an unknown method is
/// `MethodNotFound`, a bad parameter is invalid input (the first one, in the
/// order the method reads them).
pub fn parse_rpc_request(method: &str, m: &JsonMap) -> (r: Result<RpcRequest, RpcAppError>)
    ensures
        match spec_method_request(method@, m@) {
            None => r is Err && r->Err_0 is MethodNotFound && r->Err_0->MethodNotFound_0@
                == unknown_method(method@),
            Some(Ok(v)) => request_ok(r, v),
            Some(Err(e)) => request_err(r, e),
        },
{
    let mv = chars_of(method);
    let w = mv.as_slice();
    if is_word(w, "list_directory") {
        return match list_directory_rpc_path(m) {
            Ok(p) => Ok(RpcRequest::ListDirectory { path: p }),
            Err(e) => Err(RpcAppError::Other(e)),
        };
    }
    if is_word(w, "search") {
        let q = match get_str(m, "query") {
            Ok(q) => q,
            Err(e) => return Err(RpcAppError::Other(e)),
        };
        let d = match directory_search_prefix(m) {
            Ok(d) => d,
            Err(e) => return Err(RpcAppError::Other(e)),
        };
        return Ok(RpcRequest::Search { query: owned(q), prefix: d });
    }
    if is_word(w, "reindex") {
        return match reindex_filter(m) {
            Ok(f) => Ok(RpcRequest::Reindex { filter: f }),
            Err(e) => Err(RpcAppError::Other(e)),
        };
    }
    if is_word(w, "copy_entries") {
        let s = match rpc_path(m, "src") {
            Ok(s) => s,
            Err(e) => return Err(RpcAppError::Other(e)),
        };
        let d = match rpc_path(m, "dst") {
            Ok(d) => d,
            Err(e) => return Err(RpcAppError::Other(e)),
        };
        return Ok(RpcRequest::CopyEntries { src: s, dst: d, recursive: get_flag(m, "recursive") });
    }
    if is_word(w, "test") {
        if m.len() > 0 {
            return Err(RpcAppError::Other(Error::InvalidInput(owned("test: no parameters allowed"))));
        }
        return Ok(RpcRequest::Test);
    }
    if !is_path_method(w) {
        let mut t = chars_of("unknown method: ");
        append_chars(&mut t, w);
        return Err(RpcAppError::MethodNotFound(string_of(t.as_slice())));
    }
    let p = match rpc_path(m, "path") {
        Ok(p) => p,
        Err(e) => return Err(RpcAppError::Other(e)),
    };
    path_request(w, p, m)
}

/// The methods whose first parameter is `path` (normalized).
pub open spec fn spec_is_path_method(w: Seq<char>) -> bool {
    w == "create_directory"@ || w == "delete_directory"@ || w == "rename_directory"@ || w
        == "move_directory"@ || w == "list_documents"@ || w == "create_document"@ || w
        == "put_document"@ || w == "delete_document"@ || w == "update_document"@ || w
        == "replace_document"@ || w == "append_document"@ || w == "say_document"@ || w
        == "touch_document"@ || w == "rename_document"@ || w == "move_document"@ || w
        == "get_document"@ || w == "cat"@ || w == "wait"@ || w == "get_document_ref"@ || w
        == "exists"@ || w == "head"@ || w == "tail"@ || w == "slice"@ || w == "grep"@ || w
        == "wc"@ || w == "stat"@ || w == "describe"@
}

fn is_path_method(w: &[char]) -> (b: bool)
    ensures
        b == spec_is_path_method(w@),
{
    is_word(w, "create_directory") || is_word(w, "delete_directory") || is_word(
        w,
        "rename_directory",
    ) || is_word(w, "move_directory") || is_word(w, "list_documents") || is_word(
        w,
        "create_document",
    ) || is_word(w, "put_document") || is_word(w, "delete_document") || is_word(
        w,
        "update_document",
    ) || is_word(w, "replace_document") || is_word(w, "append_document") || is_word(
        w,
        "say_document",
    ) || is_word(w, "touch_document") || is_word(w, "rename_document") || is_word(
        w,
        "move_document",
    ) || is_word(w, "get_document") || is_word(w, "cat") || is_word(w, "wait") || is_word(
        w,
        "get_document_ref",
    ) || is_word(w, "exists") || is_word(w, "head") || is_word(w, "tail") || is_word(w, "slice")
        || is_word(w, "grep") || is_word(w, "wc") || is_word(w, "stat") || is_word(w, "describe")
}

fn get_flag(m: &JsonMap, key: &str) -> (b: bool)
    ensures
        b == flag(m@, key@),
{
    match get(m, key) {
        Some(v) => match v {
            JsonValue::Bool(b) => *b,
            _ => false,
        },
        None => false,
    }
}

fn get_force(m: &JsonMap) -> (b: bool)
    ensures
        b == force_flag(m@),
{
    match get(m, "force") {
        Some(v) => match v {
            JsonValue::Bool(b) => *b,
            JsonValue::String(s) => is_word(chars_of(s.as_str()).as_slice(), "true"),
            _ => false,
        },
        None => false,
    }
}

fn get_revision(m: &JsonMap) -> (r: Option<String>)
    ensures
        ov(r) == str_of(lookup(m@, "only_if_revision"@)),
{
    match get(m, "only_if_revision") {
        Some(v) => match v {
            JsonValue::String(s) => Some(owned(s.as_str())),
            _ => None,
        },
        None => None,
    }
}

fn reindex_filter(m: &JsonMap) -> (r: Result<Option<String>, Error>)
    ensures
        match r {
            Ok(f) => spec_reindex_filter(m@) == Ok::<Option<Seq<char>>, Seq<char>>(ov(f)),
            Err(e) => spec_reindex_filter(m@) is Err && is_invalid(
                e,
                spec_reindex_filter(m@)->Err_0,
            ),
        },
{
    match get(m, "path") {
        None => Ok(None),
        Some(v) => match v {
            JsonValue::Null => Ok(None),
            JsonValue::String(s) => {
                if is_root_or_empty(s.as_str()) {
                    Ok(None)
                } else {
                    match normalized(s.as_str()) {
                        Ok(n) => Ok(Some(n)),
                        Err(e) => Err(e),
                    }
                }
            },
            _ => Err(Error::InvalidInput(owned("path must be string or null"))),
        },
    }
}

fn max_matches(m: &JsonMap) -> (n: usize)
    ensures
        n == spec_max_matches(m@),
{
    match get(m, "max_matches") {
        Some(v) => match v {
            JsonValue::Number(num) => match num.as_u64 {
                Some(u) => if u <= usize::MAX as u64 {
                    u as usize
                } else {
                    usize::MAX
                },
                None => 0,
            },
            _ => 0,
        },
        None => 0,
    }
}

fn content_then(m: &JsonMap, key: &str) -> (r: Result<String, RpcAppError>)
    ensures
        match r {
            Ok(c) => spec_get_str(m@, key@) == Ok::<Seq<char>, Seq<char>>(c@),
            Err(e) => spec_get_str(m@, key@) is Err && e is Other && is_invalid(
                e->Other_0,
                spec_get_str(m@, key@)->Err_0,
            ),
        },
{
    match get_str(m, key) {
        Ok(c) => Ok(owned(c)),
        Err(e) => Err(RpcAppError::Other(e)),
    }
}

fn path_then(m: &JsonMap, key: &str) -> (r: Result<String, RpcAppError>)
    ensures
        match r {
            Ok(c) => spec_rpc_path(m@, key@) == Ok::<Seq<char>, Seq<char>>(c@),
            Err(e) => spec_rpc_path(m@, key@) is Err && e is Other && is_invalid(
                e->Other_0,
                spec_rpc_path(m@, key@)->Err_0,
            ),
        },
{
    match rpc_path(m, key) {
        Ok(c) => Ok(c),
        Err(e) => Err(RpcAppError::Other(e)),
    }
}

/// The rest of a request whose `path` was read as `p`.
fn path_request(w: &[char], p: String, m: &JsonMap) -> (r: Result<RpcRequest, RpcAppError>)
    requires
        spec_is_path_method(w@),
        w@ != "list_directory"@,
        w@ != "search"@,
        w@ != "reindex"@,
        w@ != "copy_entries"@,
        w@ != "test"@,
        spec_rpc_path(m@, "path"@) == Ok::<Seq<char>, Seq<char>>(p@),
    ensures
        match spec_method_request(w@, m@) {
            Some(Ok(v)) => request_ok(r, v),
            Some(Err(e)) => request_err(r, e),
            None => false,
        },
{
    if is_word(w, "create_directory") {
        let description = match get(m, "description") {
            Some(v) => match v {
                JsonValue::String(s) => Some(owned(s.as_str())),
                _ => None,
            },
            None => None,
        };
        Ok(RpcRequest::CreateDirectory { path: p, description, parents: get_flag(m, "parents") })
    } else if is_word(w, "delete_directory") {
        Ok(RpcRequest::DeleteDirectory { path: p, recursive: get_flag(m, "recursive") })
    } else if is_word(w, "rename_directory") {
        let q = match path_then(m, "new_path") {
            Ok(q) => q,
            Err(e) => return Err(e),
        };
        Ok(RpcRequest::RenameDirectory { path: p, new_path: q })
    } else if is_word(w, "move_directory") {
        let q = match path_then(m, "new_parent") {
            Ok(q) => q,
            Err(e) => return Err(e),
        };
        let n = match content_then(m, "new_name") {
            Ok(n) => n,
            Err(e) => return Err(e),
        };
        Ok(RpcRequest::MoveDirectory { path: p, new_parent: q, new_name: n })
    } else if is_word(w, "list_documents") {
        Ok(RpcRequest::ListDocuments { path: p })
    } else if is_word(w, "create_document") {
        match content_then(m, "content") {
            Ok(c) => Ok(
                RpcRequest::CreateDocument {
                    path: p,
                    content: c,
                    force: get_force(m),
                    only_if_revision: get_revision(m),
                },
            ),
            Err(e) => Err(e),
        }
    } else if is_word(w, "put_document") {
        match content_then(m, "content") {
            Ok(c) => Ok(
                RpcRequest::PutDocument {
                    path: p,
                    content: crate::web::normalize_put_content(c),
                    force: get_force(m),
                    only_if_revision: get_revision(m),
                },
            ),
            Err(e) => Err(e),
        }
    } else if is_word(w, "delete_document") {
        Ok(RpcRequest::DeleteDocument { path: p })
    } else if is_word(w, "update_document") || is_word(w, "replace_document") {
        match content_then(m, "content") {
            Ok(c) => Ok(RpcRequest::UpdateDocument { path: p, content: c }),
            Err(e) => Err(e),
        }
    } else if is_word(w, "append_document") {
        match content_then(m, "content") {
            Ok(c) => Ok(
                RpcRequest::AppendDocument {
                    path: p,
                    content: c,
                    force: get_force(m),
                    only_if_revision: get_revision(m),
                },
            ),
            Err(e) => Err(e),
        }
    } else if is_word(w, "say_document") {
        let f = match content_then(m, "from_id") {
            Ok(f) => f,
            Err(e) => return Err(e),
        };
        match content_then(m, "content") {
            Ok(c) => Ok(RpcRequest::SayDocument { path: p, from_id: f, content: c }),
            Err(e) => Err(e),
        }
    } else if is_word(w, "touch_document") {
        let given = match get(m, "modified_at") {
            Some(v) => !(v matches JsonValue::Null),
            None => false,
        };
        Ok(RpcRequest::TouchDocument { path: p, modified_at: given })
    } else if is_word(w, "rename_document") {
        match content_then(m, "new_name") {
            Ok(n) => Ok(RpcRequest::RenameDocument { path: p, new_name: n }),
            Err(e) => Err(e),
        }
    } else if is_word(w, "move_document") {
        match path_then(m, "new_path") {
            Ok(q) => Ok(RpcRequest::MoveDocument { path: p, new_path: q }),
            Err(e) => Err(e),
        }
    } else if is_word(w, "get_document") || is_word(w, "cat") {
        Ok(RpcRequest::GetDocument { path: p })
    } else if is_word(w, "wait") {
        Ok(RpcRequest::Wait { path: p })
    } else if is_word(w, "get_document_ref") {
        Ok(RpcRequest::GetDocumentRef { path: p })
    } else if is_word(w, "exists") {
        Ok(RpcRequest::Exists { path: p })
    } else if is_word(w, "head") {
        match get_head_lines(m) {
            Ok(n) => Ok(RpcRequest::Head { path: p, lines: n }),
            Err(e) => Err(RpcAppError::Other(e)),
        }
    } else if is_word(w, "tail") {
        match get_tail_mode_optional(m, "lines") {
            Ok(t) => Ok(RpcRequest::Tail { path: p, mode: t }),
            Err(e) => Err(RpcAppError::Other(e)),
        }
    } else if is_word(w, "slice") {
        let a = match get_slice_line(m, "start_line", "from_line") {
            Ok(a) => a,
            Err(e) => return Err(RpcAppError::Other(e)),
        };
        match get_slice_line(m, "end_line", "to_line") {
            Ok(b) => Ok(RpcRequest::Slice { path: p, start: a, end: b }),
            Err(e) => Err(RpcAppError::Other(e)),
        }
    } else if is_word(w, "grep") {
        match content_then(m, "pattern") {
            Ok(g) => Ok(
                RpcRequest::Grep {
                    path: p,
                    pattern: g,
                    max_matches: max_matches(m),
                    invert_match: get_flag(m, "invert_match"),
                },
            ),
            Err(e) => Err(e),
        }
    } else if is_word(w, "wc") {
        Ok(RpcRequest::Wc { path: p })
    } else if is_word(w, "stat") {
        Ok(RpcRequest::Stat { path: p })
    } else {
        match get(m, "description") {
            None => Ok(RpcRequest::DescribeGet { path: p }),
            Some(v) => match v {
                JsonValue::String(s) => {
                    let d = if s.as_str().unicode_len() == 0 {
                        None
                    } else {
                        Some(owned(s.as_str()))
                    };
                    Ok(RpcRequest::DescribeSet { path: p, description: d })
                },
                _ => Err(
                    RpcAppError::Other(
                        Error::InvalidInput(
                            owned("describe: param description must be a string when provided"),
                        ),
                    ),
                ),
            },
        }
    }
}

} // verus!

verus! {

/// Parent directory and final name of a canonical path (`/a/b` is `/a` and
/// `b`; `/b` is `/` and `b`); the root has no final name.
pub open spec fn spec_parent_and_final_name(path: Seq<char>) -> Result<(Seq<char>, Seq<char>), Seq<char>> {
    let p = drop_back(path, slash());
    match crate::text::last_index(p, '/') {
        None => Err("path has no final name"@),
        Some(i) => if i + 1 == p.len() {
            Err("path has no final name"@)
        } else {
            Ok((if i == 0 { seq!['/'] } else { p.take(i as int) }, p.skip(i + 1 as int)))
        },
    }
}

pub fn parent_and_final_name(path: &str) -> (r: Result<(String, String), Error>)
    ensures
        match r {
            Ok((a, b)) => spec_parent_and_final_name(path@) == Ok::<
                (Seq<char>, Seq<char>),
                Seq<char>,
            >((a@, b@)),
            Err(e) => spec_parent_and_final_name(path@) is Err && is_invalid(
                e,
                spec_parent_and_final_name(path@)->Err_0,
            ),
        },
{
    let p = trim_back(chars_of(path).as_slice(), CharClass::Exactly('/'));
    let n = p.len();
    match crate::text::rfind_char(p.as_slice(), '/') {
        None => Err(Error::InvalidInput(owned("path has no final name"))),
        Some(i) => {
            if i + 1 == n {
                Err(Error::InvalidInput(owned("path has no final name")))
            } else {
                let parent = if i == 0 {
                    let mut r: Vec<char> = Vec::new();
                    r.push('/');
                    r
                } else {
                    crate::text::copy_range(p.as_slice(), 0, i)
                };
                let name = crate::text::copy_range(p.as_slice(), i + 1, n);
                assert(name@ =~= p@.skip(i + 1 as int));
                assert(i == 0 ==> parent@ =~= seq!['/']);
                Ok((string_of(parent.as_slice()), string_of(name.as_slice())))
            }
        },
    }
}

} // verus!

//! HTTP-side rules of the server: REST paths, request content types, the
//! errors' HTTP and JSON-RPC codes, directory creation bodies and the static
//! UI's file types.

use vstd::prelude::*;
use crate::chat::{lower, lower_chars};
use crate::paths::{entity_name_error, spec_normalize_path};
use crate::shell_path::slash;
use crate::text::{
    begins_with, chars_of, copy_range, drop_back, drop_front, has_char, last_index,
    owned, pieces, pieces_of, rfind_char, starts_with, string_of, trim, trim_back, trim_front,
    trim_ws, views, CharClass,
};

verus! {

/// The store's error kinds, each with its message.
#[derive(Clone, Debug)]
pub enum Error {
    NotFound(String),
    Duplicate(String),
    NotEmpty(String),
    InvalidInput(String),
    Unauthorized(String),
    Forbidden(String),
    Io(String),
    Other(String),
}

/// The kind of an error and its message, as plain values.
pub enum ErrorKind {
    NotFound,
    Duplicate,
    NotEmpty,
    InvalidInput,
    Unauthorized,
    Forbidden,
    Io,
    Other,
}

impl Error {
    pub open spec fn kind(self) -> ErrorKind {
        match self {
            Error::NotFound(_) => ErrorKind::NotFound,
            Error::Duplicate(_) => ErrorKind::Duplicate,
            Error::NotEmpty(_) => ErrorKind::NotEmpty,
            Error::InvalidInput(_) => ErrorKind::InvalidInput,
            Error::Unauthorized(_) => ErrorKind::Unauthorized,
            Error::Forbidden(_) => ErrorKind::Forbidden,
            Error::Io(_) => ErrorKind::Io,
            Error::Other(_) => ErrorKind::Other,
        }
    }

    pub open spec fn msg(self) -> Seq<char> {
        match self {
            Error::NotFound(s) => s@,
            Error::Duplicate(s) => s@,
            Error::NotEmpty(s) => s@,
            Error::InvalidInput(s) => s@,
            Error::Unauthorized(s) => s@,
            Error::Forbidden(s) => s@,
            Error::Io(s) => s@,
            Error::Other(s) => s@,
        }
    }

    /// The error's message.
    pub fn message(&self) -> (m: String)
        ensures
            m@ == self.msg(),
    {
        let s = match self {
            Error::NotFound(s) => s,
            Error::Duplicate(s) => s,
            Error::NotEmpty(s) => s,
            Error::InvalidInput(s) => s,
            Error::Unauthorized(s) => s,
            Error::Forbidden(s) => s,
            Error::Io(s) => s,
            Error::Other(s) => s,
        };
        string_of(chars_of(s.as_str()).as_slice())
    }
}

/// `/api/doc/{rest}` as a canonical path: trimmed, leading slashes collapsed
/// into one, `/` for nothing.
pub open spec fn spec_rest_to_canonical(rest: Seq<char>) -> Seq<char> {
    let t = drop_front(trim(rest), slash());
    if t.len() == 0 {
        seq!['/']
    } else {
        seq!['/'] + t
    }
}

pub fn rest_to_canonical(rest: &str) -> (r: String)
    ensures
        r@ == spec_rest_to_canonical(rest@),
{
    let v = chars_of(rest);
    let t0 = trim_ws(v.as_slice());
    let t = trim_front(t0.as_slice(), CharClass::Exactly('/'));
    let mut out: Vec<char> = Vec::new();
    out.push('/');
    crate::text::append_chars(&mut out, t.as_slice());
    assert(out@ =~= seq!['/'] + t@);
    assert(t@.len() == 0 ==> out@ =~= seq!['/']);
    string_of(out.as_slice())
}

/// Whether a content type, in any letter case, begins with `prefix`.
pub open spec fn content_type_is(ct: Seq<char>, prefix: Seq<char>) -> bool {
    starts_with(lower(ct), prefix)
}

pub fn is_multipart_form(ct: &str) -> (b: bool)
    ensures
        b == content_type_is(ct@, "multipart/form-data"@),
{
    let l = lower_chars(chars_of(ct).as_slice());
    let p = chars_of("multipart/form-data");
    begins_with(l.as_slice(), p.as_slice())
}

pub fn is_www_form_urlencoded(ct: &str) -> (b: bool)
    ensures
        b == content_type_is(ct@, "application/x-www-form-urlencoded"@),
{
    let l = lower_chars(chars_of(ct).as_slice());
    let p = chars_of("application/x-www-form-urlencoded");
    begins_with(l.as_slice(), p.as_slice())
}

/// A document body that holds nothing but line breaks is stored empty.
pub open spec fn spec_normalize_put_content(content: Seq<char>) -> Seq<char> {
    if drop_back(content, CharClass::LineBreak).len() == 0 {
        seq![]
    } else {
        content
    }
}

pub fn normalize_put_content(content: String) -> (r: String)
    ensures
        r@ == spec_normalize_put_content(content@),
{
    let v = chars_of(content.as_str());
    let t = trim_back(v.as_slice(), CharClass::LineBreak);
    if t.len() == 0 {
        String::new()
    } else {
        content
    }
}

/// The last piece of `ps` that is not `.`.
pub open spec fn last_normal(ps: Seq<Seq<char>>) -> Option<Seq<char>>
    decreases ps.len(),
{
    if ps.len() == 0 {
        None
    } else if ps.last() == seq!['.'] {
        last_normal(ps.drop_last())
    } else {
        Some(ps.last())
    }
}

/// The last normal component of a path (`Path::file_name`): empty pieces and
/// `.` are skipped; none when there is no piece left or the last is `..`.
pub open spec fn file_name(path: Seq<char>) -> Option<Seq<char>> {
    match last_normal(pieces(path)) {
        Some(p) => if p == seq!['.', '.'] {
            None
        } else {
            Some(p)
        },
        None => None,
    }
}

/// `Path::extension`: the text after the last `.` of the file name, unless
/// that dot is the name's first character.
pub open spec fn extension(path: Seq<char>) -> Option<Seq<char>> {
    match file_name(path) {
        None => None,
        Some(f) => match last_index(f, '.') {
            Some(i) => if i == 0 {
                None
            } else {
                Some(f.skip(i + 1 as int))
            },
            None => None,
        },
    }
}

/// The content type served for a UI file, by its extension in any letter case.
pub open spec fn spec_content_type(path: Seq<char>) -> Seq<char> {
    match extension(path) {
        Some(e) => {
            let x = lower(e);
            if x == "html"@ {
                "text/html; charset=utf-8"@
            } else if x == "css"@ {
                "text/css; charset=utf-8"@
            } else if x == "js"@ || x == "mjs"@ {
                "application/javascript; charset=utf-8"@
            } else if x == "svg"@ {
                "image/svg+xml"@
            } else if x == "woff2"@ {
                "font/woff2"@
            } else if x == "woff"@ {
                "font/woff"@
            } else if x == "json"@ || x == "map"@ {
                "application/json; charset=utf-8"@
            } else if x == "ico"@ {
                "image/x-icon"@
            } else {
                "application/octet-stream"@
            }
        },
        None => "application/octet-stream"@,
    }
}

fn last_normal_piece(path: &[char]) -> (r: Option<Vec<char>>)
    ensures
        match r {
            Some(f) => file_name(path@) == Some(f@),
            None => file_name(path@) is None,
        },
{
    let ps = pieces_of(path);
    let ghost all = views(ps@);
    let mut i: usize = ps.len();
    assert(all.take(all.len() as int) =~= all);
    while i > 0
        invariant
            i <= ps@.len(),
            all == views(ps@),
            all == pieces(path@),
            all.len() == ps@.len(),
            last_normal(all) == last_normal(all.take(i as int)),
        decreases i,
    {
        let p = &ps[i - 1];
        proof {
            assert(all.take(i as int).drop_last() =~= all.take(i - 1));
            assert(all.take(i as int).last() == p@);
        }
        if p.len() == 1 && p[0] == '.' {
            assert(p@ =~= seq!['.']);
            i = i - 1;
        } else {
            assert(p@ != seq!['.']) by {
                if p@ == seq!['.'] {
                    assert(p@.len() == 1 && p@[0] == '.');
                }
            }
            if p.len() == 2 && p[0] == '.' && p[1] == '.' {
                assert(p@ =~= seq!['.', '.']);
                return None;
            }
            assert(p@ != seq!['.', '.']) by {
                if p@ == seq!['.', '.'] {
                    assert(p@.len() == 2 && p@[0] == '.' && p@[1] == '.');
                }
            }
            let f = copy_range(p.as_slice(), 0, p.len());
            assert(f@ =~= p@);
            return Some(f);
        }
    }
    None
}

pub(crate) fn extension_of(path: &[char]) -> (r: Option<Vec<char>>)
    ensures
        match r {
            Some(e) => extension(path@) == Some(e@),
            None => extension(path@) is None,
        },
{
    match last_normal_piece(path) {
        None => None,
        Some(f) => match rfind_char(f.as_slice(), '.') {
            Some(i) => if i == 0 {
                None
            } else {
                let n = f.len();
                let e = copy_range(f.as_slice(), i + 1, n);
                assert(e@ =~= f@.skip(i + 1 as int));
                Some(e)
            },
            None => None,
        },
    }
}

pub fn content_type(path: &str) -> (r: &'static str)
    ensures
        r@ == spec_content_type(path@),
{
    match extension_of(chars_of(path).as_slice()) {
        Some(e) => {
            let x = lower_chars(e.as_slice());
            let x = x.as_slice();
            if crate::text::is_word(x, "html") {
                "text/html; charset=utf-8"
            } else if crate::text::is_word(x, "css") {
                "text/css; charset=utf-8"
            } else if crate::text::is_word(x, "js") || crate::text::is_word(x, "mjs") {
                "application/javascript; charset=utf-8"
            } else if crate::text::is_word(x, "svg") {
                "image/svg+xml"
            } else if crate::text::is_word(x, "woff2") {
                "font/woff2"
            } else if crate::text::is_word(x, "woff") {
                "font/woff"
            } else if crate::text::is_word(x, "json") || crate::text::is_word(x, "map") {
                "application/json; charset=utf-8"
            } else if crate::text::is_word(x, "ico") {
                "image/x-icon"
            } else {
                "application/octet-stream"
            }
        },
        None => "application/octet-stream",
    }
}

/// Whether `p` holds `..` starting at index `i`.
pub open spec fn dots_at(p: Seq<char>, i: int) -> bool {
    p[i] == '.' && p[i + 1] == '.'
}

/// The embedded UI file asked for by a request path: leading slashes dropped,
/// `index.html` for the root, none (not found) when the path holds `..`.
pub open spec fn ui_target(raw: Seq<char>) -> Seq<char> {
    let p = drop_front(raw, slash());
    if p.len() == 0 {
        "index.html"@
    } else {
        p
    }
}

pub open spec fn has_dot_dot(p: Seq<char>) -> bool {
    exists|i: int| 0 <= i && i + 1 < p.len() && #[trigger] dots_at(p, i)
}

pub open spec fn spec_ui_file(raw: Seq<char>) -> Option<Seq<char>> {
    if has_dot_dot(ui_target(raw)) {
        None
    } else {
        Some(ui_target(raw))
    }
}

pub fn ui_file(raw: &str) -> (r: Option<String>)
    ensures
        crate::listing::opt_str_view(r) == spec_ui_file(raw@),
{
    let v = chars_of(raw);
    let t = trim_front(v.as_slice(), CharClass::Exactly('/'));
    let p = if t.len() == 0 {
        chars_of("index.html")
    } else {
        t
    };
    let ghost q = if t@.len() == 0 {
        "index.html"@
    } else {
        t@
    };
    assert(p@ == q);
    assert(q == ui_target(raw@));
    let mut i: usize = 0;
    while i < p.len()
        invariant
            i <= p@.len(),
            p@ == q,
            q == ui_target(raw@),
            forall|j: int| 0 <= j < i && j + 1 < p@.len() ==> !#[trigger] dots_at(p@, j),
        decreases p@.len() - i,
    {
        if i + 1 < p.len() && p[i] == '.' && p[i + 1] == '.' {
            assert(dots_at(q, i as int));
            assert(has_dot_dot(q));
            return None;
        }
        i = i + 1;
    }
    Some(string_of(p.as_slice()))
}

/// The HTTP status and message a REST handler answers an error with.
pub open spec fn spec_api_status(e: Error) -> (u16, Seq<char>) {
    match e {
        Error::NotFound(s) => (404, s@),
        Error::Duplicate(s) => (409, s@),
        Error::NotEmpty(s) => (409, s@),
        Error::InvalidInput(s) => (400, s@),
        _ => (500, e.msg()),
    }
}

pub fn api_status(e: &Error) -> (r: (u16, String))
    ensures
        (r.0, r.1@) == spec_api_status(*e),
{
    match e {
        Error::NotFound(_) => (404, e.message()),
        Error::Duplicate(_) => (409, e.message()),
        Error::NotEmpty(_) => (409, e.message()),
        Error::InvalidInput(_) => (400, e.message()),
        _ => (500, e.message()),
    }
}

/// A JSON-RPC dispatch failure: an unknown method or a store error.
pub enum RpcAppError {
    MethodNotFound(String),
    Other(Error),
}

/// JSON-RPC code for a resource that already exists.
pub const DUPLICATE_RESOURCE: i32 = -32002;

/// The JSON-RPC error code and message a dispatch failure is answered with.
pub open spec fn spec_rpc_error(e: RpcAppError) -> (i32, Seq<char>) {
    match e {
        RpcAppError::MethodNotFound(m) => (-32601i32, m@),
        RpcAppError::Other(err) => match err {
            Error::InvalidInput(s) => (-32602i32, s@),
            Error::NotEmpty(s) => (-32602i32, s@),
            Error::Duplicate(_) => (DUPLICATE_RESOURCE, err.msg()),
            _ => (-32603i32, err.msg()),
        },
    }
}

pub fn rpc_error_code(e: &RpcAppError) -> (r: (i32, String))
    ensures
        (r.0, r.1@) == spec_rpc_error(*e),
{
    match e {
        RpcAppError::MethodNotFound(m) => (-32601, string_of(chars_of(m.as_str()).as_slice())),
        RpcAppError::Other(err) => match err {
            Error::InvalidInput(_) => (-32602, err.message()),
            Error::NotEmpty(_) => (-32602, err.message()),
            Error::Duplicate(_) => (DUPLICATE_RESOURCE, err.message()),
            _ => (-32603, err.message()),
        },
    }
}

/// A JSON-RPC request as it arrives: version, method, parameters and id.
pub struct RpcEnvelope {
    pub jsonrpc: String,
    pub method: String,
    pub params: Option<crate::json::JsonValue>,
    pub id: Option<crate::json::JsonValue>,
}

/// A JSON-RPC error answer: the request's id (none when the request could not
/// be read), the code and the message.
pub struct RpcErrorReply {
    pub id: Option<crate::json::JsonValue>,
    pub code: i32,
    pub message: String,
}

/// JSON-RPC code for a body that is not a request at all.
pub const PARSE_ERROR: i32 = -32700;

/// JSON-RPC code for a request of another protocol version.
pub const INVALID_REQUEST: i32 = -32600;

/// Admits a request of JSON-RPC version `2.0` as it is; any other version is
/// answered with `-32600` ("invalid jsonrpc version"), echoing the request's id.
pub fn check_envelope(req: RpcEnvelope) -> (r: Result<RpcEnvelope, RpcErrorReply>)
    ensures
        r is Ok <==> req.jsonrpc@ == "2.0"@,
        r matches Ok(q) ==> q == req,
        r matches Err(e) ==> e.id == req.id && e.code == INVALID_REQUEST && e.message@
            == "invalid jsonrpc version"@,
{
    let v = chars_of(req.jsonrpc.as_str());
    if crate::text::is_word(v.as_slice(), "2.0") {
        Ok(req)
    } else {
        Err(RpcErrorReply { id: req.id, code: INVALID_REQUEST, message: owned("invalid jsonrpc version") })
    }
}

/// The answer to a body that could not be read as a request: no id, `-32700`,
/// and the reader's message.
pub fn parse_error_reply(message: String) -> (r: RpcErrorReply)
    ensures
        r.id is None,
        r.code == PARSE_ERROR,
        r.message@ == message@,
{
    RpcErrorReply { id: None, code: PARSE_ERROR, message }
}

/// The answer to a request whose dispatch failed: the request's id, with the
/// code and message of `spec_rpc_error`.
pub fn dispatch_error_reply(id: Option<crate::json::JsonValue>, e: &RpcAppError) -> (r: RpcErrorReply)
    ensures
        r.id == id,
        (r.code, r.message@) == spec_rpc_error(*e),
{
    let (code, message) = rpc_error_code(e);
    RpcErrorReply { id, code, message }
}

/// A JSON-RPC answer: the dispatch result, or an error; each with the id it
/// answers (`jsonrpc` is always `"2.0"`).
pub enum RpcReply {
    Success { id: Option<crate::json::JsonValue>, result: crate::json::JsonValue },
    Failure(RpcErrorReply),
}

/// An answer with its message as characters.
pub enum ReplyView {
    Result(Option<crate::json::JsonValue>, crate::json::JsonValue),
    Error(Option<crate::json::JsonValue>, i32, Seq<char>),
}

impl RpcErrorReply {
    pub open spec fn view(self) -> ReplyView {
        ReplyView::Error(self.id, self.code, self.message@)
    }
}

impl RpcReply {
    pub open spec fn view(self) -> ReplyView {
        match self {
            RpcReply::Success { id, result } => ReplyView::Result(id, result),
            RpcReply::Failure(e) => e.view(),
        }
    }
}

/// The answer a request gets before any dispatch, if it gets one there: a
/// body that could not be read (its reader's message given) gets `-32700`
/// with no id; a request of another version gets `-32600` with its id; a
/// `2.0` request gets none and goes on to dispatch.
pub open spec fn spec_admit(parsed: Result<RpcEnvelope, String>) -> Option<ReplyView> {
    match parsed {
        Err(m) => Some(ReplyView::Error(None, PARSE_ERROR, m@)),
        Ok(q) => if q.jsonrpc@ == "2.0"@ {
            None
        } else {
            Some(ReplyView::Error(q.id, INVALID_REQUEST, "invalid jsonrpc version"@))
        },
    }
}

/// The answer to a dispatched request: its result, or the code and message
/// of `spec_rpc_error`; the request's id either way.
pub open spec fn spec_reply(id: Option<crate::json::JsonValue>, outcome: Result<crate::json::JsonValue, RpcAppError>) -> ReplyView {
    match outcome {
        Ok(v) => ReplyView::Result(id, v),
        Err(e) => ReplyView::Error(id, spec_rpc_error(e).0, spec_rpc_error(e).1),
    }
}

/// Reads what arrived at the JSON-RPC endpoint: the request to dispatch, or
/// the answer it gets at once.
pub fn admit_request(parsed: Result<RpcEnvelope, String>) -> (r: Result<RpcEnvelope, RpcErrorReply>)
    ensures
        r is Ok <==> spec_admit(parsed) is None,
        r matches Ok(q) ==> parsed == Ok::<RpcEnvelope, String>(q),
        r matches Err(e) ==> spec_admit(parsed) == Some(e.view()),
{
    match parsed {
        Err(m) => Err(parse_error_reply(m)),
        Ok(q) => check_envelope(q),
    }
}

/// The answer to a dispatched request, given what the dispatch gave.
pub fn reply_for(id: Option<crate::json::JsonValue>, outcome: Result<crate::json::JsonValue, RpcAppError>) -> (r: RpcReply)
    ensures
        r.view() == spec_reply(id, outcome),
{
    match outcome {
        Ok(v) => RpcReply::Success { id, result: v },
        Err(e) => RpcReply::Failure(dispatch_error_reply(id, &e)),
    }
}

/// A store error that is answered as an internal error.
pub open spec fn internal_error(e: Error) -> bool {
    !(e is InvalidInput) && !(e is NotEmpty) && !(e is Duplicate)
}

/// Every JSON-RPC request is answered with exactly one result or error, for
/// the id it came with: an unreadable body gets `-32700` and no id; another
/// version gets `-32600`; a `2.0` request gets its dispatch result, or for a
/// failed dispatch `-32601` (unknown method), `-32602` (invalid input, not
/// empty), `-32002` (duplicate) or `-32603` (anything else), with the
/// failure's message.
pub proof fn law_rpc_reply(parsed: Result<RpcEnvelope, String>, outcome: Result<crate::json::JsonValue, RpcAppError>)
    ensures
        parsed matches Err(m) ==> spec_admit(parsed) == Some(ReplyView::Error(None, -32700i32, m@)),
        parsed is Ok && parsed->Ok_0.jsonrpc@ != "2.0"@ ==> spec_admit(parsed) == Some(
            ReplyView::Error(parsed->Ok_0.id, -32600i32, "invalid jsonrpc version"@),
        ),
        parsed is Ok && parsed->Ok_0.jsonrpc@ == "2.0"@ ==> {
            &&& spec_admit(parsed) is None
            &&& outcome matches Ok(v) ==> spec_reply(parsed->Ok_0.id, outcome) == ReplyView::Result(parsed->Ok_0.id, v)
            &&& outcome matches Err(RpcAppError::MethodNotFound(m)) ==> spec_reply(parsed->Ok_0.id, outcome)
                == ReplyView::Error(parsed->Ok_0.id, -32601i32, m@)
            &&& outcome matches Err(RpcAppError::Other(Error::InvalidInput(m))) ==> spec_reply(
                parsed->Ok_0.id,
                outcome,
            ) == ReplyView::Error(parsed->Ok_0.id, -32602i32, m@)
            &&& outcome matches Err(RpcAppError::Other(Error::NotEmpty(m))) ==> spec_reply(
                parsed->Ok_0.id,
                outcome,
            ) == ReplyView::Error(parsed->Ok_0.id, -32602i32, m@)
            &&& outcome matches Err(RpcAppError::Other(Error::Duplicate(_))) ==> spec_reply(
                parsed->Ok_0.id,
                outcome,
            ) == ReplyView::Error(parsed->Ok_0.id, -32002i32, outcome->Err_0->Other_0.msg())
            &&& outcome is Err && outcome->Err_0 is Other && internal_error(outcome->Err_0->Other_0)
                ==> spec_reply(parsed->Ok_0.id, outcome) == ReplyView::Error(
                parsed->Ok_0.id,
                -32603i32,
                outcome->Err_0->Other_0.msg(),
            )
        },
{
}

/// Body of `POST /api/doc`: a full `path`, or one root-level `name`.
pub struct CreateDirectoryBody {
    pub path: Option<String>,
    pub name: Option<String>,
    pub description: Option<String>,
    pub parents: bool,
}

pub open spec fn spec_create_directory_path(path: Option<Seq<char>>, name: Option<Seq<char>>) -> Result<
    Seq<char>,
    Seq<char>,
> {
    match path {
        Some(p) => spec_normalize_path(trim(p)),
        None => match name {
            Some(n0) => {
                let n = trim(n0);
                if n.len() == 0 {
                    Err("name must not be empty"@)
                } else if n.contains('/') || n.contains('\\') {
                    Err("name must not contain '/'"@)
                } else {
                    match entity_name_error(n) {
                        Some(e) => Err(e),
                        None => Ok(seq!['/'] + n),
                    }
                }
            },
            None => Err("missing path or name"@),
        },
    }
}

pub open spec fn invalid_input_result(r: Result<String, Error>) -> Result<Seq<char>, Seq<char>> {
    match r {
        Ok(s) => Ok(s@),
        Err(Error::InvalidInput(m)) => Err(m@),
        Err(_) => Err(seq![]),
    }
}

/// The directory path a `POST /api/doc` body asks to create; every failure is
/// invalid input.
pub fn resolve_create_directory_body(body: &CreateDirectoryBody) -> (r: Result<String, Error>)
    ensures
        r is Err ==> r->Err_0 is InvalidInput,
        invalid_input_result(r) == spec_create_directory_path(
            crate::commands::opt_string_view(body.path),
            crate::commands::opt_string_view(body.name),
        ),
{
    match &body.path {
        Some(p) => {
            let t = trim_ws(chars_of(p.as_str()).as_slice());
            let ts = string_of(t.as_slice());
            match crate::paths::normalize_path(ts.as_str()) {
                Ok(s) => Ok(s),
                Err(m) => Err(Error::InvalidInput(m)),
            }
        },
        None => match &body.name {
            Some(n0) => {
                let n = trim_ws(chars_of(n0.as_str()).as_slice());
                if n.len() == 0 {
                    Err(Error::InvalidInput(owned("name must not be empty")))
                } else if has_char(n.as_slice(), '/') || has_char(n.as_slice(), '\\') {
                    Err(Error::InvalidInput(owned("name must not contain '/'")))
                } else {
                    match crate::paths::check_entity_name(n.as_slice()) {
                        Err(m) => Err(Error::InvalidInput(m)),
                        Ok(()) => {
                            let mut out: Vec<char> = Vec::new();
                            out.push('/');
                            crate::text::append_chars(&mut out, n.as_slice());
                            assert(out@ =~= seq!['/'] + n@);
                            Ok(string_of(out.as_slice()))
                        },
                    }
                }
            },
            None => Err(Error::InvalidInput(owned("missing path or name"))),
        },
    }
}

/// Where the content of a document write comes from.
pub enum PutBody {
    /// A `multipart/form-data` field named `content`.
    Multipart,
    /// An `application/x-www-form-urlencoded` field named `content`.
    Form,
    /// No body, allowed: the content is empty.
    Empty,
    /// JSON `{"content": ...}`, or else the body as text.
    Raw,
}

/// The source of a write's content by content type and body size; an empty
/// body that is not allowed is `empty body`.
pub open spec fn spec_put_body(ct: Seq<char>, body_len: nat, allow_empty: bool) -> Result<PutBody, Seq<char>> {
    if content_type_is(ct, "multipart/form-data"@) {
        Ok(PutBody::Multipart)
    } else if content_type_is(ct, "application/x-www-form-urlencoded"@) {
        Ok(PutBody::Form)
    } else if body_len == 0 {
        if allow_empty {
            Ok(PutBody::Empty)
        } else {
            Err("empty body"@)
        }
    } else {
        Ok(PutBody::Raw)
    }
}

pub fn put_body_kind(ct: &str, body_len: usize, allow_empty_raw_body: bool) -> (r: Result<PutBody, Error>)
    ensures
        match spec_put_body(ct@, body_len as nat, allow_empty_raw_body) {
            Ok(k) => r == Ok::<PutBody, Error>(k),
            Err(m) => r matches Err(e) && e.kind() == ErrorKind::InvalidInput && e.msg() == m,
        },
{
    if is_multipart_form(ct) {
        Ok(PutBody::Multipart)
    } else if is_www_form_urlencoded(ct) {
        Ok(PutBody::Form)
    } else if body_len == 0 {
        if allow_empty_raw_body {
            Ok(PutBody::Empty)
        } else {
            Err(Error::InvalidInput(string_of(chars_of("empty body").as_slice())))
        }
    } else {
        Ok(PutBody::Raw)
    }
}

/// The content of a raw body: its JSON `content` field when it parsed as
/// such, else the bytes as text (invalid UTF-8 replaced).
pub fn raw_put_content(body: &[u8], json_content: Option<String>) -> (r: String)
    ensures
        match json_content {
            Some(c) => r@ == c@,
            None => r@ == crate::logline::lossy(body@),
        },
{
    match json_content {
        Some(c) => c,
        None => crate::logline::utf8_lossy(body),
    }
}

/// A required form field: its value, or `multipart field <name> required`.
pub fn required_field(value: Option<String>, name: &str) -> (r: Result<String, Error>)
    ensures
        match value {
            Some(v) => r matches Ok(x) && x@ == v@,
            None => r matches Err(e) && e.kind() == ErrorKind::InvalidInput && e.msg()
                == "multipart field "@ + name@ + " required"@,
        },
{
    match value {
        Some(v) => Ok(v),
        None => {
            let mut m = chars_of("multipart field ");
            crate::text::append_chars(&mut m, chars_of(name).as_slice());
            crate::text::append_chars(&mut m, chars_of(" required").as_slice());
            Err(Error::InvalidInput(string_of(m.as_slice())))
        },
    }
}

} // verus!

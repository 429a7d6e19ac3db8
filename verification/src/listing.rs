//! CLI output and path helpers: `rm`/`mv` path shapes, directory joins, local
//! file names, table cell widths, uptime and search-hit text.

use vstd::prelude::*;
use crate::paths::{is_dot, is_dot_dot, unit_result};
use crate::shell_path::{slash, spec_has_glob, strings_view};
use crate::text::{
    append_chars, blen, chars_of, copy_range, dec, dec_chars, dec_string, drop_back, drop_front,
    has_char, lemma_drop_front_len, owned, starts_with, string_of, trim_back, trim_front,
    utf8_width, CharClass,
};

verus! {

/// Whether a path holds a glob metacharacter (`*`, `?`, `[`).
pub fn path_has_glob_metachar(path: &str) -> (b: bool)
    ensures
        b == spec_has_glob(path@),
{
    crate::shell_path::shell_path_has_glob(path)
}

/// `rm -r /dir`: the directory when `path` is one absolute segment under the root.
pub open spec fn spec_rm_absolute_single_segment(path: Seq<char>) -> Option<Seq<char>> {
    let p = drop_back(path, slash());
    if starts_with(p, seq!['/']) {
        let rest = p.drop_first();
        if rest.len() == 0 || rest.contains('/') {
            None
        } else {
            Some(seq!['/'] + rest)
        }
    } else {
        None
    }
}

pub open spec fn opt_str_view(o: Option<String>) -> Option<Seq<char>> {
    match o {
        Some(s) => Some(s@),
        None => None,
    }
}

pub fn rm_absolute_single_segment(path: &str) -> (r: Option<String>)
    ensures
        opt_str_view(r) == spec_rm_absolute_single_segment(path@),
{
    let v = chars_of(path);
    let p = trim_back(v.as_slice(), CharClass::Exactly('/'));
    if p.len() > 0 && p[0] == '/' {
        assert(p@.subrange(0, 1) =~= seq!['/']);
        let rest = copy_range(p.as_slice(), 1, p.len());
        assert(rest@ =~= p@.drop_first());
        if rest.len() == 0 || has_char(rest.as_slice(), '/') {
            None
        } else {
            let mut r: Vec<char> = Vec::new();
            r.push('/');
            append_chars(&mut r, rest.as_slice());
            assert(r@ =~= seq!['/'] + rest@);
            Some(string_of(r.as_slice()))
        }
    } else {
        assert(!starts_with(p@, seq!['/'])) by {
            if p@.len() > 0 {
                assert(p@.subrange(0, 1)[0] == p@[0]);
            }
        }
        None
    }
}

/// Strips trailing `/` so `mv cat/doc dest/` and `mv cat/doc dest` both work.
pub fn normalize_mv_segment(path: &str) -> (r: &str)
    ensures
        r@ == drop_back(path@, slash()),
{
    let v = chars_of(path);
    let t = trim_back(v.as_slice(), CharClass::Exactly('/'));
    path.substring_char(0, t.len())
}

/// Joins a canonical directory path with one name (`/a` + `b` is `/a/b`).
pub open spec fn spec_join_abs_dir_entry(parent: Seq<char>, name: Seq<char>) -> Seq<char> {
    let p = drop_back(parent, slash());
    let n = drop_front(name, slash());
    if p.len() == 0 {
        seq!['/'] + n
    } else {
        p.push('/') + n
    }
}

pub fn join_abs_dir_entry(parent: &str, name: &str) -> (r: String)
    ensures
        r@ == spec_join_abs_dir_entry(parent@, name@),
{
    let pv = chars_of(parent);
    let p = trim_back(pv.as_slice(), CharClass::Exactly('/'));
    let nv = chars_of(name);
    let n = trim_front(nv.as_slice(), CharClass::Exactly('/'));
    let mut r: Vec<char> = if p.len() == 0 {
        Vec::new()
    } else {
        copy_range(p.as_slice(), 0, p.len())
    };
    assert(p@.subrange(0, p@.len() as int) =~= p@);
    r.push('/');
    append_chars(&mut r, n.as_slice());
    assert(p@.len() == 0 ==> r@ =~= seq!['/'] + n@);
    string_of(r.as_slice())
}

/// Why `name` cannot be a local file name (Unix rules), if it cannot.
pub open spec fn fs_name_error(name: Seq<char>) -> Option<Seq<char>> {
    if name.len() == 0 {
        Some("empty name"@)
    } else if is_dot(name) || is_dot_dot(name) {
        Some("reserved name"@)
    } else if name.contains('/') || name.contains('\\') || name.contains('\0') {
        Some("path separator or NUL in name"@)
    } else {
        None
    }
}

/// Checks a name used for a local file or directory on export.
pub fn validate_fs_name(name: &str) -> (r: Result<(), String>)
    ensures
        unit_result(r) == fs_name_error(name@),
{
    let v = chars_of(name);
    if v.len() == 0 {
        Err(owned("empty name"))
    } else if crate::paths::is_dot_chars(v.as_slice()) || crate::paths::is_dot_dot_chars(
        v.as_slice(),
    ) {
        Err(owned("reserved name"))
    } else if has_char(v.as_slice(), '/') || has_char(v.as_slice(), '\\') || has_char(
        v.as_slice(),
        '\0',
    ) {
        Err(owned("path separator or NUL in name"))
    } else {
        Ok(())
    }
}

pub open spec fn esc() -> char {
    '\x1b'
}

pub open spec fn width(c: char) -> nat {
    vstd::utf8::encode_scalar(c as u32).len()
}

/// Visible byte length of a cell: bytes outside `ESC ... m` colour sequences;
/// an escape with no closing `m` hides the rest of the cell.
pub open spec fn vis_len(s: Seq<char>) -> nat
    decreases s.len(),
{
    if s.len() == 0 {
        0
    } else if s[0] == esc() {
        let a = drop_front(s.drop_first(), CharClass::Other('m'));
        proof {
            lemma_drop_front_len(s.drop_first(), CharClass::Other('m'));
        }
        if a.len() == 0 {
            0
        } else {
            vis_len(a.drop_first())
        }
    } else {
        width(s[0]) + vis_len(s.drop_first())
    }
}

/// What remains visible of `r`, the text just after an escape character.
pub open spec fn vis_after_esc(r: Seq<char>) -> nat {
    let a = drop_front(r, CharClass::Other('m'));
    if a.len() == 0 {
        0
    } else {
        vis_len(a.drop_first())
    }
}

proof fn lemma_drop_front_blen(s: Seq<char>, k: CharClass)
    ensures
        blen(drop_front(s, k)) <= blen(s),
    decreases s.len(),
{
    if s.len() > 0 && crate::text::in_class(k, s[0]) {
        lemma_drop_front_blen(s.drop_first(), k);
    }
}

proof fn lemma_vis_le_blen(s: Seq<char>)
    ensures
        vis_len(s) <= blen(s),
    decreases s.len(),
{
    if s.len() > 0 {
        if s[0] == esc() {
            let a = drop_front(s.drop_first(), CharClass::Other('m'));
            lemma_drop_front_len(s.drop_first(), CharClass::Other('m'));
            lemma_drop_front_blen(s.drop_first(), CharClass::Other('m'));
            if a.len() > 0 {
                lemma_vis_le_blen(a.drop_first());
            }
        } else {
            lemma_vis_le_blen(s.drop_first());
        }
    }
}

/// Byte length of a table cell without ANSI colour sequences.
pub fn visible_cell_len(s: &str) -> (n: usize)
    ensures
        n == vis_len(s@),
{
    let v = chars_of(s);
    let total = s.as_bytes_vec().len();
    let mut n: usize = 0;
    let mut i: usize = 0;
    let mut skipping = false;
    proof {
        lemma_vis_le_blen(v@);
        assert(v@.skip(0) =~= v@);
    }
    while i < v.len()
        invariant
            i <= v@.len(),
            blen(v@) == total,
            n + (if skipping {
                vis_after_esc(v@.skip(i as int))
            } else {
                vis_len(v@.skip(i as int))
            }) == vis_len(v@),
            vis_len(v@) <= blen(v@),
        decreases v@.len() - i,
    {
        let c = v[i];
        let ghost r = v@.skip(i as int);
        assert(r.drop_first() =~= v@.skip(i + 1));
        assert(r[0] == c);
        if skipping {
            if c == 'm' {
                skipping = false;
            }
        } else if c == '\x1b' {
            skipping = true;
        } else {
            n = n + utf8_width(c);
        }
        i = i + 1;
    }
    n
}

pub open spec fn spaces(n: nat) -> Seq<char> {
    Seq::new(n, |i: int| ' ')
}

/// A cell padded with spaces to `width` visible bytes (never truncated).
pub open spec fn spec_pad_cell_visible(cell: Seq<char>, width: nat) -> Seq<char> {
    let v = vis_len(cell);
    if v >= width {
        cell
    } else {
        cell + spaces((width - v) as nat)
    }
}

pub fn pad_cell_visible(cell: &str, width: usize) -> (r: String)
    ensures
        r@ == spec_pad_cell_visible(cell@, width as nat),
{
    let v = visible_cell_len(cell);
    let mut out = chars_of(cell);
    if v < width {
        let ghost c0 = out@;
        let k = width - v;
        let mut j: usize = 0;
        while j < k
            invariant
                j <= k,
                out@ == c0 + spaces(j as nat),
            decreases k - j,
        {
            out.push(' ');
            j = j + 1;
            assert(out@ =~= c0 + spaces(j as nat));
        }
    }
    string_of(out.as_slice())
}

/// `Xd Xh Xm Xs` for an uptime in nanoseconds.
pub open spec fn spec_format_uptime_ns(ns: nat) -> Seq<char> {
    let total = ns / 1_000_000_000;
    let days = total / 86_400;
    let rem = total % 86_400;
    let hours = rem / 3600;
    let rem2 = rem % 3600;
    dec(days) + "d "@ + dec(hours) + "h "@ + dec(rem2 / 60) + "m "@ + dec(rem2 % 60) + "s"@
}

pub fn format_uptime_ns(ns: u64) -> (r: String)
    ensures
        r@ == spec_format_uptime_ns(ns as nat),
{
    let total_secs = ns / 1_000_000_000;
    let days = total_secs / 86_400;
    let rem = total_secs % 86_400;
    let hours = rem / 3600;
    let rem = rem % 3600;
    let mins = rem / 60;
    let secs = rem % 60;
    let mut out = dec_string(days);
    out.append("d ");
    out.append(dec_string(hours).as_str());
    out.append("h ");
    out.append(dec_string(mins).as_str());
    out.append("m ");
    out.append(dec_string(secs).as_str());
    out.append("s");
    out
}

/// Search snippet on one line: `\n` and `\r` become spaces.
pub open spec fn spec_snippet_cli_display(s: Seq<char>) -> Seq<char> {
    Seq::new(s.len(), |i: int| if s[i] == '\n' || s[i] == '\r' { ' ' } else { s[i] })
}

pub fn snippet_cli_display(snippet: &str) -> (r: String)
    ensures
        r@ == spec_snippet_cli_display(snippet@),
{
    let v = chars_of(snippet);
    let mut out: Vec<char> = Vec::new();
    let mut i: usize = 0;
    while i < v.len()
        invariant
            i <= v@.len(),
            out@ == spec_snippet_cli_display(v@.subrange(0, i as int)),
        decreases v@.len() - i,
    {
        let c = v[i];
        out.push(if c == '\n' || c == '\r' { ' ' } else { c });
        i = i + 1;
        assert(out@ =~= spec_snippet_cli_display(v@.subrange(0, i as int)));
    }
    assert(v@.subrange(0, v@.len() as int) =~= v@);
    string_of(out.as_slice())
}

/// `path:line` for a search hit with a line number, else the path.
pub open spec fn spec_search_hit_path_line(path: Seq<char>, line: Option<u64>) -> Seq<char> {
    match line {
        Some(n) => path.push(':') + dec(n as nat),
        None => path,
    }
}

pub fn search_hit_path_line(path: &str, line_number: Option<u64>) -> (r: String)
    ensures
        r@ == spec_search_hit_path_line(path@, line_number),
{
    match line_number {
        Some(n) => {
            let mut v = chars_of(path);
            v.push(':');
            let d = dec_chars(n);
            append_chars(&mut v, d.as_slice());
            string_of(v.as_slice())
        },
        None => owned(path),
    }
}

/// How a nested `tb` (spawned by the shell, e.g. for `wait`) reaches the server.
pub struct ShellChildRpc {
    pub api_uri: String,
    pub timeout_sec: u64,
    /// Exact `--header` values given to the parent (the child merges TB_HEADERS, then these).
    pub header_flags: Vec<String>,
}

pub open spec fn header_args(hs: Seq<Seq<char>>) -> Seq<Seq<char>>
    decreases hs.len(),
{
    if hs.len() == 0 {
        seq![]
    } else {
        header_args(hs.drop_last()) + seq!["--header"@, hs.last()]
    }
}

impl ShellChildRpc {
    pub fn new(api_uri: String, timeout_sec: u64, header_flags: Vec<String>) -> (s: Self)
        ensures
            s.api_uri == api_uri,
            s.timeout_sec == timeout_sec,
            s.header_flags == header_flags,
    {
        ShellChildRpc { api_uri, timeout_sec, header_flags }
    }

    pub fn timeout_sec(&self) -> (t: u64)
        ensures
            t == self.timeout_sec,
    {
        self.timeout_sec
    }

    pub fn set_timeout_sec(&mut self, sec: u64)
        ensures
            final(self).timeout_sec == sec,
            final(self).api_uri == old(self).api_uri,
            final(self).header_flags == old(self).header_flags,
    {
        self.timeout_sec = sec;
    }

    pub open spec fn spec_global_args(self) -> Seq<Seq<char>> {
        let t: nat = if self.timeout_sec > 1 {
            self.timeout_sec as nat
        } else {
            1
        };
        seq!["-u"@, self.api_uri@, "-t"@, dec(t)] + header_args(strings_view(self.header_flags@))
    }

    /// The global arguments the child gets before its subcommand: `-u URI`,
    /// `-t SECS` (at least 1), and each `--header VALUE` in order.
    pub fn global_args(&self) -> (args: Vec<String>)
        ensures
            strings_view(args@) == self.spec_global_args(),
    {
        let mut args: Vec<String> = Vec::new();
        args.push(owned("-u"));
        args.push(owned(self.api_uri.as_str()));
        args.push(owned("-t"));
        let t = if self.timeout_sec > 1 {
            self.timeout_sec
        } else {
            1
        };
        args.push(dec_string(t));
        let ghost hs = strings_view(self.header_flags@);
        assert(strings_view(args@) =~= seq!["-u"@, self.api_uri@, "-t"@, dec(t as nat)]
            + header_args(hs.take(0)));
        let mut i: usize = 0;
        while i < self.header_flags.len()
            invariant
                i <= self.header_flags@.len(),
                hs == strings_view(self.header_flags@),
                strings_view(args@) == seq!["-u"@, self.api_uri@, "-t"@, dec(t as nat)]
                    + header_args(hs.take(i as int)),
            decreases self.header_flags@.len() - i,
        {
            let ghost a0 = strings_view(args@);
            let h = owned("--header");
            let v = owned(self.header_flags[i].as_str());
            args.push(h);
            args.push(v);
            assert(hs.take(i + 1).drop_last() =~= hs.take(i as int));
            assert(strings_view(args@) =~= a0 + seq!["--header"@, hs[i as int]]);
            i = i + 1;
        }
        assert(hs.take(hs.len() as int) =~= hs);
        args
    }
}

} // verus!

verus! {

/// Whether an error from opening a document for editing means that the
/// document does not exist: a not-found error, or invalid input whose message
/// starts with `not found: ` (how the RPC layer reports it).
pub open spec fn spec_edit_missing_document_error(e: crate::web::Error) -> bool {
    match e {
        crate::web::Error::NotFound(_) => true,
        crate::web::Error::InvalidInput(m) => starts_with(m@, "not found: "@),
        _ => false,
    }
}

pub fn edit_missing_document_error(err: &crate::web::Error) -> (b: bool)
    ensures
        b == spec_edit_missing_document_error(*err),
{
    match err {
        crate::web::Error::NotFound(_) => true,
        crate::web::Error::InvalidInput(message) => {
            let p = chars_of("not found: ");
            crate::text::begins_with(chars_of(message.as_str()).as_slice(), p.as_slice())
        },
        _ => false,
    }
}

/// The part of a path after its first `/` (all of it when it has none).
pub open spec fn edit_doc_name(path: Seq<char>) -> Seq<char> {
    match crate::text::first_index(path, '/') {
        None => path,
        Some(i) => path.skip(i + 1int),
    }
}

/// The suffix of the temporary file a document is edited in: `.` and the
/// document's extension, or `.md` when it has none.
pub open spec fn spec_edit_suffix(path: Seq<char>) -> Seq<char> {
    match crate::web::extension(edit_doc_name(path)) {
        Some(e) => seq!['.'] + e,
        None => ".md"@,
    }
}

pub fn edit_suffix(path: &str) -> (r: String)
    ensures
        r@ == spec_edit_suffix(path@),
{
    let v = chars_of(path);
    let len = v.len();
    let name = match crate::text::find_char(v.as_slice(), '/') {
        None => v,
        Some(i) => {
            let n = copy_range(v.as_slice(), i + 1, len);
            assert(n@ =~= v@.skip(i + 1));
            n
        },
    };
    match crate::web::extension_of(name.as_slice()) {
        Some(e) => {
            let mut r: Vec<char> = Vec::new();
            r.push('.');
            append_chars(&mut r, e.as_slice());
            assert(r@ =~= seq!['.'] + e@);
            string_of(r.as_slice())
        },
        None => owned(".md"),
    }
}

/// After editing a chat document: `Ok(false)` when the text is unchanged
/// (nothing to upload), `Ok(true)` to upload it, and a refusal when the
/// document changed on the server meanwhile.
pub fn chat_edit_outcome(original: &str, edited: &str, modified_before: u64, modified_now: u64) -> (r:
    Result<bool, String>)
    ensures
        edited@ == original@ ==> r == Ok::<bool, String>(false),
        edited@ != original@ && modified_now != modified_before ==> (r matches Err(e) && e@
            == "document changed on the server while editing; re-open chat and retry"@),
        edited@ != original@ && modified_now == modified_before ==> r == Ok::<bool, String>(true),
{
    if crate::text::chars_eq(chars_of(edited).as_slice(), chars_of(original).as_slice()) {
        return Ok(false);
    }
    if modified_now != modified_before {
        return Err(owned("document changed on the server while editing; re-open chat and retry"));
    }
    Ok(true)
}

} // verus!

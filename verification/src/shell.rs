//! Interactive shell: subcommand tables, flags, prompt target, word boundaries
//! and the shapes of completion candidates.

use vstd::prelude::*;
use crate::chat::strip_scheme;
use crate::text::{
    all_ascii_digits, begins_with, blen, chars_of, copy_range, digits_only, drop_back, drop_front,
    find_char, first_index, is_whitespace, is_word, is_ws, last_index, lemma_blen_push, rfind_char,
    starts_with, string_of, trim, trim_back, trim_front, trim_ws, utf8_width, CharClass,
};

verus! {

/// The views of a sequence of string slices.
pub open spec fn strs(v: Seq<&str>) -> Seq<Seq<char>> {
    v.map_values(|s: &str| s@)
}

/// Shell subcommands offered for the first word, sorted.
pub open spec fn spec_subcommands() -> Seq<Seq<char>> {
    seq![
        "?"@, "append"@, "cat"@, "cd"@, "chat"@, "clear"@, "cp"@, "desc"@, "edit"@, "exit"@,
        "export"@, "find"@, "grep"@, "h"@, "head"@, "help"@, "import"@, "l"@, "less"@, "ll"@,
        "ls"@, "lt"@, "mkdir"@, "mv"@, "put"@, "q"@, "quit"@, "reindex"@, "rm"@, "search"@,
        "slice"@, "stat"@, "tail"@, "test"@, "timeout"@, "touch"@, "wait"@, "wc"@,
    ]
}

pub fn subcommands() -> (v: Vec<&'static str>)
    ensures
        strs(v@) == spec_subcommands(),
{
    let v = vec![
        "?", "append", "cat", "cd", "chat", "clear", "cp", "desc", "edit", "exit", "export",
        "find", "grep", "h", "head", "help", "import", "l", "less", "ll", "ls", "lt", "mkdir",
        "mv", "put", "q", "quit", "reindex", "rm", "search", "slice", "stat", "tail", "test",
        "timeout", "touch", "wait", "wc",
    ];
    assert(strs(v@) =~= spec_subcommands());
    v
}

/// Subcommands whose first argument is a document path, sorted.
pub open spec fn spec_path_first() -> Seq<Seq<char>> {
    seq![
        "append"@, "cat"@, "chat"@, "cp"@, "desc"@, "edit"@, "head"@, "less"@, "mv"@, "put"@,
        "rm"@, "slice"@, "stat"@, "tail"@, "touch"@, "wait"@, "wc"@,
    ]
}

pub fn path_first() -> (v: Vec<&'static str>)
    ensures
        strs(v@) == spec_path_first(),
{
    let v = vec![
        "append", "cat", "chat", "cp", "desc", "edit", "head", "less", "mv", "put", "rm", "slice",
        "stat", "tail", "touch", "wait", "wc",
    ];
    assert(strs(v@) =~= spec_path_first());
    v
}

/// The flags offered for completion after `sub`.
pub open spec fn spec_flags_for(sub: Seq<char>) -> Seq<Seq<char>> {
    if sub == "cat"@ || sub == "slice"@ {
        seq!["--raw"@]
    } else if sub == "chat"@ {
        seq!["-i"@, "--id"@, "--raw"@]
    } else if sub == "cp"@ {
        seq!["-r"@, "--recursive"@]
    } else if sub == "export"@ {
        seq!["-d"@, "--destination"@]
    } else if sub == "find"@ || sub == "search"@ {
        seq!["-d"@, "--directory"@]
    } else if sub == "grep"@ {
        seq!["-m"@, "-v"@, "--invert-match"@]
    } else if sub == "head"@ {
        seq!["-n"@, "--raw"@]
    } else if sub == "import"@ {
        seq!["-n"@, "--name"@]
    } else if sub == "l"@ || sub == "ll"@ || sub == "ls"@ {
        seq!["-t"@, "--time"@, "-r"@, "--reverse"@]
    } else if sub == "lt"@ {
        seq!["-r"@, "--reverse"@]
    } else if sub == "mkdir"@ {
        seq!["--description"@, "-p"@, "--parents"@]
    } else if sub == "rm"@ {
        seq!["-r"@, "--recursive"@]
    } else if sub == "tail"@ {
        seq!["-n"@, "-f"@, "--follow"@, "--raw"@]
    } else {
        seq![]
    }
}

pub fn flags_for(sub: &str) -> (r: Vec<&'static str>)
    ensures
        strs(r@) == spec_flags_for(sub@),
{
    let s = chars_of(sub);
    let s = s.as_slice();
    let r = if is_word(s, "cat") || is_word(s, "slice") {
        vec!["--raw"]
    } else if is_word(s, "chat") {
        vec!["-i", "--id", "--raw"]
    } else if is_word(s, "cp") {
        vec!["-r", "--recursive"]
    } else if is_word(s, "export") {
        vec!["-d", "--destination"]
    } else if is_word(s, "find") || is_word(s, "search") {
        vec!["-d", "--directory"]
    } else if is_word(s, "grep") {
        vec!["-m", "-v", "--invert-match"]
    } else if is_word(s, "head") {
        vec!["-n", "--raw"]
    } else if is_word(s, "import") {
        vec!["-n", "--name"]
    } else if is_word(s, "l") || is_word(s, "ll") || is_word(s, "ls") {
        vec!["-t", "--time", "-r", "--reverse"]
    } else if is_word(s, "lt") {
        vec!["-r", "--reverse"]
    } else if is_word(s, "mkdir") {
        vec!["--description", "-p", "--parents"]
    } else if is_word(s, "rm") {
        vec!["-r", "--recursive"]
    } else if is_word(s, "tail") {
        vec!["-n", "-f", "--follow", "--raw"]
    } else {
        Vec::new()
    };
    assert(strs(r@) =~= spec_flags_for(sub@));
    r
}

/// The directory-listing subcommands (`ls` and its aliases).
pub open spec fn spec_is_dir_list(sub: Seq<char>) -> bool {
    sub == "ls"@ || sub == "l"@ || sub == "ll"@ || sub == "lt"@
}

pub fn is_dir_list(sub: &str) -> (b: bool)
    ensures
        b == spec_is_dir_list(sub@),
{
    let s = chars_of(sub);
    let s = s.as_slice();
    is_word(s, "ls") || is_word(s, "l") || is_word(s, "ll") || is_word(s, "lt")
}

/// Whether `authority` ends in `:<digits>` (after the `]` of a bracketed IPv6 host).
pub open spec fn spec_has_explicit_port(a: Seq<char>) -> bool {
    if starts_with(a, seq!['[']) {
        let inner = a.drop_first();
        match first_index(inner, ']') {
            Some(idx) => {
                let after = inner.skip(idx + 1 as int);
                after.len() > 1 && after[0] == ':' && digits_only(after.skip(1))
            },
            None => false,
        }
    } else {
        match last_index(a, ':') {
            Some(colon) => {
                let tail = a.skip(colon + 1 as int);
                tail.len() > 0 && digits_only(tail)
            },
            None => false,
        }
    }
}

pub fn has_explicit_port(authority: &str) -> (b: bool)
    ensures
        b == spec_has_explicit_port(authority@),
{
    let a = chars_of(authority);
    if a.len() > 0 && a[0] == '[' {
        assert(a@.subrange(0, 1) =~= seq!['[']);
        let inner = copy_range(a.as_slice(), 1, a.len());
        assert(inner@ =~= a@.drop_first());
        match find_char(inner.as_slice(), ']') {
            Some(idx) => {
                let after = copy_range(inner.as_slice(), idx + 1, inner.len());
                assert(after@ =~= inner@.skip(idx + 1 as int));
                if after.len() > 1 && after[0] == ':' {
                    let digits = copy_range(after.as_slice(), 1, after.len());
                    assert(digits@ =~= after@.skip(1));
                    all_ascii_digits(digits.as_slice())
                } else {
                    false
                }
            },
            None => false,
        }
    } else {
        assert(!starts_with(a@, seq!['['])) by {
            if a@.len() > 0 {
                assert(a@.subrange(0, 1)[0] == a@[0]);
            }
        }
        match rfind_char(a.as_slice(), ':') {
            Some(colon) => {
                let tail = copy_range(a.as_slice(), colon + 1, a.len());
                assert(tail@ =~= a@.skip(colon + 1 as int));
                tail.len() > 0 && all_ascii_digits(tail.as_slice())
            },
            None => false,
        }
    }
}

/// Text before the first `/` of `s` (all of `s` when there is none).
pub open spec fn before_slash(s: Seq<char>) -> Seq<char> {
    match first_index(s, '/') {
        Some(i) => s.take(i as int),
        None => s,
    }
}

/// The host (and explicit port) that the shell prompt shows for an API URI.
pub open spec fn spec_shell_prompt_target(api_uri: Seq<char>) -> Seq<char> {
    let authority = before_slash(strip_scheme(trim(api_uri)));
    if authority.len() == 0 {
        seq!['?']
    } else if spec_has_explicit_port(authority) {
        authority
    } else if starts_with(authority, seq!['[']) {
        let stripped = authority.drop_first();
        match first_index(stripped, ']') {
            Some(end) => seq!['['] + stripped.take(end as int) + seq![']'],
            None => authority,
        }
    } else {
        match first_index(authority, ':') {
            Some(i) => authority.take(i as int),
            None => authority,
        }
    }
}

pub fn prompt_target(api_uri: &str) -> (r: String)
    ensures
        r@ == spec_shell_prompt_target(api_uri@),
{
    let v = chars_of(api_uri);
    let t = trim_ws(v.as_slice());
    let http = chars_of("http://");
    let https = chars_of("https://");
    proof {
        reveal_strlit("http://");
        reveal_strlit("https://");
    }
    let rest = if begins_with(t.as_slice(), http.as_slice()) {
        copy_range(t.as_slice(), 7, t.len())
    } else if begins_with(t.as_slice(), https.as_slice()) {
        copy_range(t.as_slice(), 8, t.len())
    } else {
        copy_range(t.as_slice(), 0, t.len())
    };
    assert(rest@ =~= strip_scheme(t@));
    let authority = match find_char(rest.as_slice(), '/') {
        Some(i) => copy_range(rest.as_slice(), 0, i),
        None => rest,
    };
    assert(authority@ =~= before_slash(strip_scheme(t@)));
    if authority.len() == 0 {
        return string_of(&['?']);
    }
    let astr = string_of(authority.as_slice());
    if has_explicit_port(astr.as_str()) {
        return astr;
    }
    if authority[0] == '[' {
        assert(authority@.subrange(0, 1) =~= seq!['[']);
        let stripped = copy_range(authority.as_slice(), 1, authority.len());
        assert(stripped@ =~= authority@.drop_first());
        match find_char(stripped.as_slice(), ']') {
            Some(end) => {
                let mut out: Vec<char> = Vec::new();
                out.push('[');
                let host = copy_range(stripped.as_slice(), 0, end);
                crate::text::append_chars(&mut out, host.as_slice());
                out.push(']');
                assert(out@ =~= seq!['['] + stripped@.take(end as int) + seq![']']);
                string_of(out.as_slice())
            },
            None => astr,
        }
    } else {
        assert(!starts_with(authority@, seq!['['])) by {
            assert(authority@.subrange(0, 1)[0] == authority@[0]);
        }
        match find_char(authority.as_slice(), ':') {
            Some(i) => {
                let h = copy_range(authority.as_slice(), 0, i);
                string_of(h.as_slice())
            },
            None => astr,
        }
    }
}

/// Index just past the last whitespace character of `s` (0 when there is none).
pub open spec fn ws_end(s: Seq<char>) -> nat
    decreases s.len(),
{
    if s.len() == 0 {
        0
    } else if is_ws(s.last()) {
        s.len()
    } else {
        ws_end(s.drop_last())
    }
}

/// Byte offset `pos` falls after the first `k` characters of `s`.
pub open spec fn at_byte(s: Seq<char>, pos: int, k: int) -> bool {
    0 <= k <= s.len() && blen(s.take(k)) == pos
}

/// A byte offset that falls on a character boundary of `s`.
pub open spec fn char_boundary(s: Seq<char>, pos: int) -> bool {
    exists|k: int| at_byte(s, pos, k)
}

pub proof fn lemma_blen_take_grows(s: Seq<char>, i: int, j: int)
    requires
        0 <= i <= j <= s.len(),
    ensures
        blen(s.take(i)) + (j - i) <= blen(s.take(j)),
    decreases j - i,
{
    if i < j {
        lemma_blen_take_grows(s, i, j - 1);
        lemma_blen_push(s.take(j - 1), s[j - 1]);
        assert(s.take(j - 1).push(s[j - 1]) =~= s.take(j));
    }
}

/// Byte offset of the start of the word that ends at byte offset `pos` of `line`.
pub fn word_start(line: &str, pos: usize) -> (r: usize)
    requires
        char_boundary(line@, pos as int),
    ensures
        forall|k: int|
            at_byte(line@, pos as int, k) ==> r == blen(line@.take(ws_end(line@.take(k)) as int)),
{
    let v = chars_of(line);
    let ghost s = line@;
    let ghost kk = choose|k: int| at_byte(s, pos as int, k);
    let mut i: usize = 0;
    let mut off: usize = 0;
    let mut ws_off: usize = 0;
    assert(s.take(0) =~= Seq::<char>::empty());
    while off < pos
        invariant
            v@ == s,
            at_byte(s, pos as int, kk),
            i <= kk,
            off == blen(s.take(i as int)),
            ws_off == blen(s.take(ws_end(s.take(i as int)) as int)),
            off <= pos,
        decreases kk - i,
    {
        proof {
            if kk <= i {
                lemma_blen_take_grows(s, kk, i as int);
            }
            lemma_blen_push(s.take(i as int), s[i as int]);
            assert(s.take(i as int).push(s[i as int]) =~= s.take(i + 1));
            lemma_blen_take_grows(s, i + 1, kk);
        }
        let c = v[i];
        off = off + utf8_width(c);
        i = i + 1;
        proof {
            assert(s.take(i as int).drop_last() =~= s.take(i - 1));
            assert(s.take(i as int).last() == c);
        }
        if is_whitespace(c) {
            ws_off = off;
            assert(ws_end(s.take(i as int)) == i);
        }
    }
    proof {
        assert forall|k: int| at_byte(s, pos as int, k) implies k == i by {
            if k < i {
                lemma_blen_take_grows(s, k, i as int);
            }
            if k > i {
                lemma_blen_take_grows(s, i as int, k);
            }
        }
    }
    ws_off
}

/// Display and replacement text for one completion candidate: relative to the
/// shell directory unless the user typed an absolute path; directories get a
/// trailing `/` in the display only.
pub open spec fn completion_base(full_abs: Seq<char>, abs_partial: bool, cwd: Option<Seq<char>>) -> Seq<
    char,
> {
    if abs_partial {
        full_abs
    } else {
        match cwd {
            Some(c) => {
                let cw = seq!['/'] + drop_back(
                    drop_front(c, CharClass::Exactly('/')),
                    CharClass::Exactly('/'),
                );
                if full_abs == cw {
                    seq!['.']
                } else if starts_with(full_abs, cw.push('/')) {
                    full_abs.skip(cw.len() + 1 as int)
                } else {
                    drop_front(full_abs, CharClass::Exactly('/'))
                }
            },
            None => drop_front(full_abs, CharClass::Exactly('/')),
        }
    }
}

pub open spec fn spec_completion_display(
    full_abs: Seq<char>,
    is_dir: bool,
    abs_partial: bool,
    cwd: Option<Seq<char>>,
) -> (Seq<char>, Seq<char>) {
    let base = completion_base(full_abs, abs_partial, cwd);
    if is_dir {
        (base.push('/'), base)
    } else {
        (base, base)
    }
}

pub fn completion_path_display_and_replacement(
    full_abs: &str,
    is_dir: bool,
    abs_partial: bool,
    cwd: Option<&str>,
) -> (r: (String, String))
    ensures
        (r.0@, r.1@) == spec_completion_display(
            full_abs@,
            is_dir,
            abs_partial,
            crate::shell_path::opt_view(cwd),
        ),
{
    let f = chars_of(full_abs);
    let base: Vec<char> = if abs_partial {
        f
    } else {
        match cwd {
            Some(c) => {
                let cv = chars_of(c);
                let c1 = trim_front(cv.as_slice(), CharClass::Exactly('/'));
                let c2 = trim_back(c1.as_slice(), CharClass::Exactly('/'));
                let mut cw: Vec<char> = Vec::new();
                cw.push('/');
                crate::text::append_chars(&mut cw, c2.as_slice());
                assert(cw@ =~= seq!['/'] + c2@);
                if crate::text::chars_eq(f.as_slice(), cw.as_slice()) {
                    let mut d: Vec<char> = Vec::new();
                    d.push('.');
                    d
                } else {
                    let mut cws = copy_range(cw.as_slice(), 0, cw.len());
                    assert(cws@ =~= cw@);
                    cws.push('/');
                    if begins_with(f.as_slice(), cws.as_slice()) {
                        let r = copy_range(f.as_slice(), cws.len(), f.len());
                        assert(r@ =~= f@.skip(cw@.len() + 1 as int));
                        r
                    } else {
                        trim_front(f.as_slice(), CharClass::Exactly('/'))
                    }
                }
            },
            None => trim_front(f.as_slice(), CharClass::Exactly('/')),
        }
    };
    assert(base@ == completion_base(full_abs@, abs_partial, crate::shell_path::opt_view(cwd)));
    if is_dir {
        let mut d = copy_range(base.as_slice(), 0, base.len());
        assert(d@ =~= base@);
        d.push('/');
        (string_of(d.as_slice()), string_of(base.as_slice()))
    } else {
        (string_of(base.as_slice()), string_of(base.as_slice()))
    }
}

} // verus!

verus! {

/// `shell_words::split`: the words of a command line after quote removal;
/// none when a quote is left open.
pub uninterp spec fn shell_split(s: Seq<char>) -> Option<Seq<Seq<char>>>;

/// Splits a line into words with `shell_words::split` (POSIX shell quoting).
/// The result is named, a function of the line alone; the crate's parse
/// error (an unclosed quote) becomes none.
#[verifier::external_body]
fn split_shell_words(s: &str) -> (r: Option<Vec<String>>)
    ensures
        match r {
            Some(v) => shell_split(s@) == Some(crate::completion::string_views(v@)),
            None => shell_split(s@) is None,
        },
{
    match shell_words::split(s) {
        Ok(v) => Some(v),
        Err(_) => None,
    }
}

/// The words of a shell line that runs a subcommand; an open quote is
/// reported as `missing closing quote`.
pub fn shell_command_words(line: &str) -> (r: Result<Vec<String>, String>)
    ensures
        match shell_split(line@) {
            Some(ws) => r matches Ok(v) && crate::completion::string_views(v@) == ws,
            None => r matches Err(e) && e@ == "missing closing quote"@,
        },
{
    match split_shell_words(line) {
        Some(v) => Ok(v),
        None => Err(crate::text::owned("missing closing quote")),
    }
}

/// What the shell does with one input line.
pub enum ShellLine {
    /// A blank line.
    Skip,
    Exit,
    Help,
    Clear,
    /// `cd ...`
    Cd,
    /// `timeout ...`
    Timeout,
    /// `!script`: run in the login shell.
    Script(String),
    /// `!` with nothing after it.
    EmptyScript,
    /// Any other line: a `tb` subcommand.
    Run,
}

pub enum LineView {
    Skip,
    Exit,
    Help,
    Clear,
    Cd,
    Timeout,
    Script(Seq<char>),
    EmptyScript,
    Run,
}

impl ShellLine {
    pub open spec fn view(self) -> LineView {
        match self {
            ShellLine::Skip => LineView::Skip,
            ShellLine::Exit => LineView::Exit,
            ShellLine::Help => LineView::Help,
            ShellLine::Clear => LineView::Clear,
            ShellLine::Cd => LineView::Cd,
            ShellLine::Timeout => LineView::Timeout,
            ShellLine::Script(s) => LineView::Script(s@),
            ShellLine::EmptyScript => LineView::EmptyScript,
            ShellLine::Run => LineView::Run,
        }
    }
}

pub open spec fn spec_classify(line: Seq<char>) -> LineView {
    let t = trim(line);
    if t.len() == 0 {
        LineView::Skip
    } else if t == "exit"@ || t == "quit"@ || t == "q"@ {
        LineView::Exit
    } else if t == "help"@ || t == "h"@ || t == "?"@ {
        LineView::Help
    } else if t == "clear"@ {
        LineView::Clear
    } else if crate::text::words(t).len() > 0 && crate::text::words(t)[0] == "cd"@ {
        LineView::Cd
    } else if crate::text::words(t).len() > 0 && crate::text::words(t)[0] == "timeout"@ {
        LineView::Timeout
    } else if t[0] == '!' {
        let script = drop_front(t.drop_first(), CharClass::Space);
        if script.len() == 0 {
            LineView::EmptyScript
        } else {
            LineView::Script(script)
        }
    } else {
        LineView::Run
    }
}

/// Classifies a line read by the shell (it is trimmed first).
pub fn classify_shell_line(line: &str) -> (r: ShellLine)
    ensures
        r.view() == spec_classify(line@),
{
    let t = trim_ws(chars_of(line).as_slice());
    let ts = t.as_slice();
    if t.len() == 0 {
        return ShellLine::Skip;
    }
    if is_word(ts, "exit") || is_word(ts, "quit") || is_word(ts, "q") {
        return ShellLine::Exit;
    }
    if is_word(ts, "help") || is_word(ts, "h") || is_word(ts, "?") {
        return ShellLine::Help;
    }
    if is_word(ts, "clear") {
        return ShellLine::Clear;
    }
    let ws = crate::text::split_words(ts);
    if ws.len() > 0 {
        assert(crate::text::views(ws@)[0] == ws@[0]@);
        if is_word(ws[0].as_slice(), "cd") {
            return ShellLine::Cd;
        }
        if is_word(ws[0].as_slice(), "timeout") {
            return ShellLine::Timeout;
        }
    }
    if t[0] == '!' {
        let rest = copy_range(ts, 1, t.len());
        assert(rest@ =~= t@.drop_first());
        let script = trim_front(rest.as_slice(), CharClass::Space);
        if script.len() == 0 {
            ShellLine::EmptyScript
        } else {
            ShellLine::Script(string_of(script.as_slice()))
        }
    } else {
        ShellLine::Run
    }
}

/// What a `cd` asks for: a new shell directory outright, or a directory that
/// must be checked on the server first.
pub enum CdStep {
    SetCwd(Option<String>),
    Visit(String),
}

/// The shell directory one level up (none at or directly under the root).
pub open spec fn parent_cwd(cwd: Option<Seq<char>>) -> Option<Seq<char>> {
    match cwd {
        None => None,
        Some(c) => match last_index(c, '/') {
            Some(i) => if i > 0 {
                Some(c.take(i as int))
            } else {
                None
            },
            None => None,
        },
    }
}

pub open spec fn cd_step_view(s: CdStep) -> (bool, Option<Seq<char>>) {
    match s {
        CdStep::SetCwd(c) => (false, crate::listing::opt_str_view(c)),
        CdStep::Visit(p) => (true, Some(p@)),
    }
}

/// `cd` with its words: `/` goes to the root, `..` one level up, anything
/// else is resolved against the shell directory and visited.
pub open spec fn spec_cd_step(line: Seq<char>, cwd: Option<Seq<char>>) -> Result<
    (bool, Option<Seq<char>>),
    Seq<char>,
> {
    match shell_split(line) {
        None => Err("cd: unmatched quote"@),
        Some(ws) => if ws.len() == 0 || ws[0] != "cd"@ {
            Err("internal: expected cd"@)
        } else if ws.len() == 1 {
            Err("cd: missing operand"@)
        } else if ws.len() > 2 {
            Err("cd: too many arguments"@)
        } else {
            let t = trim(ws[1]);
            if t == seq!['/'] {
                Ok((false, None))
            } else if t == seq!['.', '.'] {
                Ok((false, parent_cwd(cwd)))
            } else {
                match crate::shell_path::spec_merge_cd_path(t, cwd) {
                    Ok(p) => Ok((true, Some(p))),
                    Err(e) => Err(e),
                }
            }
        },
    }
}

pub fn shell_cd_step(line: &str, cwd: Option<&str>) -> (r: Result<CdStep, String>)
    ensures
        match r {
            Ok(s) => spec_cd_step(line@, crate::shell_path::opt_view(cwd)) == Ok::<
                (bool, Option<Seq<char>>),
                Seq<char>,
            >(cd_step_view(s)),
            Err(e) => spec_cd_step(line@, crate::shell_path::opt_view(cwd)) == Err::<
                (bool, Option<Seq<char>>),
                Seq<char>,
            >(e@),
        },
{
    let ws = match split_shell_words(line) {
        Some(ws) => ws,
        None => return Err(crate::text::owned("cd: unmatched quote")),
    };
    let ghost wv = crate::completion::string_views(ws@);
    if ws.len() == 0 || !is_word(chars_of(ws[0].as_str()).as_slice(), "cd") {
        return Err(crate::text::owned("internal: expected cd"));
    }
    if ws.len() == 1 {
        return Err(crate::text::owned("cd: missing operand"));
    }
    if ws.len() > 2 {
        return Err(crate::text::owned("cd: too many arguments"));
    }
    assert(wv[1] == ws@[1]@);
    let t = trim_ws(chars_of(ws[1].as_str()).as_slice());
    if t.len() == 1 && t[0] == '/' {
        assert(t@ =~= seq!['/']);
        return Ok(CdStep::SetCwd(None));
    }
    if t.len() == 2 && t[0] == '.' && t[1] == '.' {
        assert(t@ =~= seq!['.', '.']);
        assert(t@ != seq!['/']);
        let up = match cwd {
            None => None,
            Some(c) => {
                let cv = chars_of(c);
                match rfind_char(cv.as_slice(), '/') {
                    Some(i) => if i > 0 {
                        Some(string_of(copy_range(cv.as_slice(), 0, i).as_slice()))
                    } else {
                        None
                    },
                    None => None,
                }
            },
        };
        return Ok(CdStep::SetCwd(up));
    }
    assert(t@ != seq!['/']) by {
        if t@ == seq!['/'] {
            assert(t@.len() == 1 && t@[0] == '/');
        }
    }
    assert(t@ != seq!['.', '.']) by {
        if t@ == seq!['.', '.'] {
            assert(t@.len() == 2 && t@[0] == '.' && t@[1] == '.');
        }
    }
    let ts = string_of(t.as_slice());
    match crate::shell_path::merge_cd_path(ts.as_str(), cwd) {
        Ok(p) => Ok(CdStep::Visit(p)),
        Err(e) => Err(e),
    }
}

/// The shell directory after visiting `path`: none at the root, else the
/// path without its leading slashes.
pub open spec fn spec_cwd_for_path(path: Seq<char>) -> Option<Seq<char>> {
    if path == seq!['/'] {
        None
    } else {
        Some(drop_front(path, CharClass::Exactly('/')))
    }
}

pub fn cwd_for_path(path: &str) -> (r: Option<String>)
    ensures
        crate::listing::opt_str_view(r) == spec_cwd_for_path(path@),
{
    let v = chars_of(path);
    if v.len() == 1 && v[0] == '/' {
        assert(v@ =~= seq!['/']);
        None
    } else {
        assert(v@ != seq!['/']) by {
            if v@ == seq!['/'] {
                assert(v@.len() == 1 && v@[0] == '/');
            }
        }
        Some(string_of(trim_front(v.as_slice(), CharClass::Exactly('/')).as_slice()))
    }
}

/// The directory a shell opened with an initial directory must visit: none
/// for a missing or blank one; a `cd:` error is reported as a `shell:` error.
pub open spec fn spec_initial_cwd(cwd: Option<Seq<char>>) -> Result<Option<Seq<char>>, Seq<char>> {
    match cwd {
        None => Ok(None),
        Some(c) => if trim(c).len() == 0 {
            Ok(None)
        } else {
            match crate::shell_path::spec_merge_cd_path(trim(c), None) {
                Ok(p) => Ok(Some(p)),
                Err(e) => if starts_with(e, "cd: "@) {
                    Err("shell: "@ + e.skip(4))
                } else {
                    Err(e)
                },
            }
        },
    }
}

pub fn initial_shell_cwd(cwd: Option<&str>) -> (r: Result<Option<String>, String>)
    ensures
        match r {
            Ok(p) => spec_initial_cwd(crate::shell_path::opt_view(cwd)) == Ok::<
                Option<Seq<char>>,
                Seq<char>,
            >(crate::listing::opt_str_view(p)),
            Err(e) => spec_initial_cwd(crate::shell_path::opt_view(cwd)) == Err::<
                Option<Seq<char>>,
                Seq<char>,
            >(e@),
        },
{
    match cwd {
        None => Ok(None),
        Some(c) => {
            let t = trim_ws(chars_of(c).as_slice());
            if t.len() == 0 {
                return Ok(None);
            }
            let ts = string_of(t.as_slice());
            match crate::shell_path::merge_cd_path(ts.as_str(), None) {
                Ok(p) => Ok(Some(p)),
                Err(e) => {
                    let ev = chars_of(e.as_str());
                    let pre = chars_of("cd: ");
                    proof {
                        reveal_strlit("cd: ");
                    }
                    if begins_with(ev.as_slice(), pre.as_slice()) {
                        let mut m = chars_of("shell: ");
                        let rest = copy_range(ev.as_slice(), 4, ev.len());
                        assert(rest@ =~= e@.skip(4));
                        crate::text::append_chars(&mut m, rest.as_slice());
                        Err(string_of(m.as_slice()))
                    } else {
                        Err(e)
                    }
                },
            }
        },
    }
}

/// What `timeout` asks for: show the current value, or set a new one.
pub enum TimeoutStep {
    Show,
    SetTo(u64),
}

pub open spec fn spec_timeout_step(ws: Seq<Seq<char>>) -> Result<Option<u64>, Seq<char>> {
    if ws.len() == 0 || ws[0] != "timeout"@ {
        Err("internal: expected timeout"@)
    } else if ws.len() == 1 {
        Ok(None)
    } else if ws.len() == 2 {
        match crate::numbers::spec_parse_u64(ws[1]) {
            None => Err("timeout: invalid number"@),
            Some(n) => Ok(Some(if n < 1 { 1 } else { n })),
        }
    } else {
        Err("timeout: too many arguments"@)
    }
}

/// `timeout` on an input line: none when the line's first word after quote
/// removal is not `timeout`.
pub open spec fn spec_timeout_line(line: Seq<char>) -> Result<Option<Option<u64>>, Seq<char>> {
    match shell_split(line) {
        None => Err("missing closing quote"@),
        Some(ws) => if ws.len() > 0 && ws[0] == "timeout"@ {
            match spec_timeout_step(ws) {
                Ok(s) => Ok(Some(s)),
                Err(e) => Err(e),
            }
        } else {
            Ok(None)
        },
    }
}

pub open spec fn timeout_view(s: TimeoutStep) -> Option<u64> {
    match s {
        TimeoutStep::Show => None,
        TimeoutStep::SetTo(n) => Some(n),
    }
}

pub fn shell_timeout_line(line: &str) -> (r: Result<Option<TimeoutStep>, String>)
    ensures
        match r {
            Ok(None) => spec_timeout_line(line@) == Ok::<Option<Option<u64>>, Seq<char>>(None),
            Ok(Some(s)) => spec_timeout_line(line@) == Ok::<Option<Option<u64>>, Seq<char>>(
                Some(timeout_view(s)),
            ),
            Err(e) => spec_timeout_line(line@) == Err::<Option<Option<u64>>, Seq<char>>(e@),
        },
{
    let ws = match split_shell_words(line) {
        Some(ws) => ws,
        None => return Err(crate::text::owned("missing closing quote")),
    };
    let ghost wv = crate::completion::string_views(ws@);
    if ws.len() == 0 || !is_word(chars_of(ws[0].as_str()).as_slice(), "timeout") {
        return Ok(None);
    }
    if ws.len() == 1 {
        return Ok(Some(TimeoutStep::Show));
    }
    if ws.len() == 2 {
        assert(wv[1] == ws@[1]@);
        return match crate::numbers::parse_u64(ws[1].as_str()) {
            None => Err(crate::text::owned("timeout: invalid number")),
            Some(n) => Ok(Some(TimeoutStep::SetTo(if n < 1 { 1 } else { n }))),
        };
    }
    Err(crate::text::owned("timeout: too many arguments"))
}

/// Subcommands after which the completion cache is stale.
pub open spec fn spec_invalidates(cmd: crate::commands::Command) -> bool {
    match cmd {
        crate::commands::Command::Put { .. } => true,
        crate::commands::Command::Import { .. } => true,
        crate::commands::Command::Append { .. } => true,
        crate::commands::Command::Chat { .. } => true,
        crate::commands::Command::Rm { .. } => true,
        crate::commands::Command::Mv { .. } => true,
        crate::commands::Command::Cp { .. } => true,
        crate::commands::Command::Mkdir { .. } => true,
        crate::commands::Command::Touch { .. } => true,
        crate::commands::Command::Desc { .. } => true,
        _ => false,
    }
}

pub fn should_invalidate_cache(cmd: &crate::commands::Command) -> (b: bool)
    ensures
        b == spec_invalidates(*cmd),
{
    match cmd {
        crate::commands::Command::Put { .. } => true,
        crate::commands::Command::Import { .. } => true,
        crate::commands::Command::Append { .. } => true,
        crate::commands::Command::Chat { .. } => true,
        crate::commands::Command::Rm { .. } => true,
        crate::commands::Command::Mv { .. } => true,
        crate::commands::Command::Cp { .. } => true,
        crate::commands::Command::Mkdir { .. } => true,
        crate::commands::Command::Touch { .. } => true,
        crate::commands::Command::Desc { .. } => true,
        _ => false,
    }
}

/// The plain shell prompt: `tb host/dir ❯ `.
pub open spec fn spec_prompt_text(api_uri: Seq<char>, cwd: Option<Seq<char>>) -> Seq<char> {
    let target = spec_shell_prompt_target(api_uri);
    let scope = match cwd {
        None => target.push('/'),
        Some(c) => target.push('/') + c,
    };
    "tb "@ + scope + " ❯ "@
}

pub fn prompt_text(api_uri: &str, cwd: Option<&str>) -> (r: String)
    ensures
        r@ == spec_prompt_text(api_uri@, crate::shell_path::opt_view(cwd)),
{
    let mut v = chars_of("tb ");
    let t = prompt_target(api_uri);
    crate::text::append_chars(&mut v, chars_of(t.as_str()).as_slice());
    v.push('/');
    match cwd {
        Some(c) => crate::text::append_chars(&mut v, chars_of(c).as_slice()),
        None => {},
    }
    crate::text::append_chars(&mut v, chars_of(" ❯ ").as_slice());
    string_of(v.as_slice())
}

/// The directory segments of a shell directory as the shell keeps it (a
/// canonical path without its leading `/`).
proof fn lemma_cwd_segments_canonical(c: Seq<char>)
    requires
        c.len() > 0,
        crate::paths::spec_normalize_path(seq!['/'] + c) == Ok::<Seq<char>, Seq<char>>(
            seq!['/'] + c,
        ),
        !crate::text::is_ws(c[0]),
        !crate::text::is_ws(c.last()),
    ensures
        c == crate::text::join_with(crate::shell_path::cwd_segments(Some(c)), '/'),
        crate::paths::valid_segments(crate::shell_path::cwd_segments(Some(c))),
        crate::shell_path::cwd_segments(Some(c)).len() > 0,
{
    let full = seq!['/'] + c;
    let t = crate::text::trim(full);
    let segs = crate::paths::fold_segments(seq![], crate::text::pieces(t))->Ok_0;
    assert(crate::paths::valid_segments(Seq::<Seq<char>>::empty()));
    crate::paths::lemma_fold_valid(seq![], crate::text::pieces(t));
    crate::paths::lemma_valid_plain(segs);
    let j = crate::text::join_with(segs, '/');
    assert(full == seq!['/'] + j);
    assert(c =~= j) by {
        assert forall|k: int| 0 <= k < c.len() implies c[k] == j[k] by {
            assert(full[k + 1] == c[k]);
        }
    }
    if segs.len() == 0 {
        assert(j.len() == 0);
    }
    crate::text::lemma_join_ends(segs);
    crate::text::lemma_trim_noop(c);
    crate::text::lemma_drop_front_at(c, crate::shell_path::slash(), 0);
    assert(c.subrange(0, c.len() as int) =~= c);
    crate::text::lemma_drop_back_at(c, crate::shell_path::slash(), c.len() as int);
    assert forall|i: int| 0 <= i < segs.len() implies !(#[trigger] segs[i]).contains('/') by {
        assert(crate::text::plain_segments(segs));
        assert(segs[i].len() > 0 && !segs[i].contains('/'));
    }
    crate::text::lemma_split_join(segs);
}

/// `cd NAME` into a directory (a valid name, as typed without surrounding
/// blanks) followed by `cd ..` leaves the shell where it was: the directory
/// kept after the first is the current one with the name appended, and one
/// level up from it is the current directory again. The shell keeps its
/// directory as a canonical path without the leading `/` (none at the root).
pub proof fn law_cd_into_then_up(cwd: Option<Seq<char>>, name: Seq<char>)
    requires
        crate::paths::entity_name_error(name) is None,
        crate::text::trim(name) == name,
        cwd matches Some(c) ==> c.len() > 0 && crate::paths::spec_normalize_path(seq!['/'] + c)
            == Ok::<Seq<char>, Seq<char>>(seq!['/'] + c) && !crate::text::is_ws(c[0])
            && !crate::text::is_ws(c.last()),
    ensures
        crate::shell_path::spec_merge_cd_path(name, cwd) is Ok,
        parent_cwd(spec_cwd_for_path(crate::shell_path::spec_merge_cd_path(name, cwd)->Ok_0))
            == cwd,
{
    let cs = crate::shell_path::cwd_segments(cwd);
    match cwd {
        Some(c) => {
            lemma_cwd_segments_canonical(c);
        },
        None => {},
    }
    assert(crate::paths::valid_segments(cs)) by {
        if cwd is None {
            assert(cs =~= Seq::<Seq<char>>::empty());
        }
    }
    let one = seq![name];
    assert(crate::paths::valid_segments(one)) by {
        assert forall|i: int| 0 <= i < one.len() implies crate::paths::entity_name_error(#[trigger] one[i]) is None by {
            assert(one[i] == name);
        }
    }
    crate::paths::lemma_valid_plain(one);
    assert(name.len() > 0 && !name.contains('/') && !name.contains('\\')) by {
        assert(one[0] == name);
    }
    assert(name[0] != '/');
    assert(name.last() != '/') by {
        assert(name[name.len() - 1] == name.last());
    }
    assert(!crate::text::starts_with(name, seq!['/'])) by {
        if crate::text::starts_with(name, seq!['/']) {
            assert(name.subrange(0, 1)[0] == name[0]);
        }
    }
    assert(name != seq!['/']) by {
        if name == seq!['/'] {
            assert(name[0] == '/');
        }
    }
    crate::text::lemma_drop_back_at(name, crate::shell_path::slash(), name.len() as int);
    assert(name.subrange(0, name.len() as int) =~= name);
    crate::text::lemma_pieces_append_word(seq![], name);
    assert(Seq::<char>::empty() + name =~= name);
    assert(crate::text::pieces(Seq::<char>::empty()) =~= Seq::<Seq<char>>::empty());
    assert(Seq::<Seq<char>>::empty().push(name) =~= one);
    crate::paths::lemma_fold_plain(cs, one);
    let segs = cs + one;
    assert(segs =~= cs.push(name));
    let s = crate::text::join_with(segs, '/');
    crate::text::lemma_valid_plain_push(cs, name);
    crate::text::lemma_join_ends(segs);
    assert(s != seq!['/']) by {
        if s == seq!['/'] {
            assert(s.last() == '/');
        }
    }
    let p = seq!['/'] + s;
    assert(crate::shell_path::spec_merge_cd_path(name, cwd) == Ok::<Seq<char>, Seq<char>>(p));
    assert(p != seq!['/']) by {
        if p == seq!['/'] {
            assert(p.len() == 1);
        }
    }
    assert(s[0] != '/');
    crate::text::lemma_drop_front_at(p, crate::shell_path::slash(), 1);
    assert(p.subrange(1, p.len() as int) =~= s);
    assert(spec_cwd_for_path(p) == Some(s));
    if cs.len() == 0 {
        assert(segs =~= seq![name]);
        assert(s == name);
        assert forall|j: int| 0 <= j < s.len() implies s[j] != '/' by {
            assert(s[j] == name[j]);
        }
        crate::text::lemma_last_index(s, '/', 0);
        assert(cwd is None);
    } else {
        let a = crate::text::join_with(cs, '/');
        assert(segs.drop_last() =~= cs);
        assert(s == a.push('/') + name);
        let e: int = 1 + a.len() as int;
        assert forall|j: int| e <= j < s.len() implies s[j] != '/' by {
            assert(s[j] == name[j - e]);
        }
        assert(s[e - 1] == '/');
        crate::text::lemma_last_index(s, '/', e);
        crate::text::lemma_join_ends(cs);
        assert(s.take(e - 1) =~= a);
    }
}

} // verus!

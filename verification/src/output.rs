//! How document text goes to standard output: raw or rendered, a closing
//! newline, and when it is long enough for a pager.

use vstd::prelude::*;
use crate::commands::Command;
use crate::text::{append_chars, chars_of, join_chars, join_with, owned, string_of, trim, views};

verus! {

/// Output options taken from a subcommand.
pub struct ExecuteOpts {
    /// Print documents as they are instead of rendering Markdown.
    pub raw: bool,
}

pub open spec fn spec_raw_flag(cmd: Command) -> bool {
    match cmd {
        Command::Cat { raw, .. } => raw,
        Command::Head { raw, .. } => raw,
        Command::Tail { raw, .. } => raw,
        Command::Slice { raw, .. } => raw,
        Command::Chat { raw, .. } => raw,
        _ => false,
    }
}

/// The `--raw` flag of the commands that print a document (`cat`, `head`,
/// `tail`, `slice`, `chat`); off for every other command.
pub fn execute_opts_from_command(cmd: &Command) -> (o: ExecuteOpts)
    ensures
        o.raw == spec_raw_flag(*cmd),
{
    let raw = match cmd {
        Command::Cat { raw, .. } => *raw,
        Command::Head { raw, .. } => *raw,
        Command::Tail { raw, .. } => *raw,
        Command::Slice { raw, .. } => *raw,
        Command::Chat { raw, .. } => *raw,
        _ => false,
    };
    ExecuteOpts { raw }
}

/// Every command that prints a document keeps its own `--raw` flag in the
/// output options (`cat`, `head`, `tail`, `slice`, `chat`); no other command
/// asks for raw output.
pub proof fn law_raw_follows_the_command(cmd: Command)
    ensures
        cmd matches Command::Cat { raw, .. } ==> spec_raw_flag(cmd) == raw,
        cmd matches Command::Head { raw, .. } ==> spec_raw_flag(cmd) == raw,
        cmd matches Command::Tail { raw, .. } ==> spec_raw_flag(cmd) == raw,
        cmd matches Command::Slice { raw, .. } ==> spec_raw_flag(cmd) == raw,
        cmd matches Command::Chat { raw, .. } ==> spec_raw_flag(cmd) == raw,
        !(cmd is Cat || cmd is Head || cmd is Tail || cmd is Slice || cmd is Chat) ==> !spec_raw_flag(cmd),
{
}

/// Documents go out unrendered when `--raw` was given or the output is not a
/// terminal.
pub fn stdout_forces_raw_document(opts: &ExecuteOpts, stdout_is_terminal: bool) -> (b: bool)
    ensures
        b == (opts.raw || !stdout_is_terminal),
{
    opts.raw || !stdout_is_terminal
}

/// A newline follows printed content that is not empty and does not end in one.
pub fn needs_closing_newline(content: &str) -> (b: bool)
    ensures
        b == (content@.len() > 0 && content@.last() != '\n'),
{
    let v = chars_of(content);
    v.len() > 0 && v[v.len() - 1] != '\n'
}

/// The number of `\n` in `s`.
pub open spec fn newlines(s: Seq<char>) -> nat
    decreases s.len(),
{
    if s.len() == 0 {
        0
    } else {
        newlines(s.drop_last()) + (if s.last() == '\n' {
            1nat
        } else {
            0
        })
    }
}

proof fn lemma_newlines_le(s: Seq<char>)
    ensures
        newlines(s) <= s.len(),
    decreases s.len(),
{
    if s.len() > 0 {
        lemma_newlines_le(s.drop_last());
    }
}

/// `str::lines().count()`: one line per `\n`, and one more for text after
/// the last `\n`.
pub open spec fn line_count(s: Seq<char>) -> nat {
    newlines(s) + (if s.len() > 0 && s.last() != '\n' {
        1nat
    } else {
        0
    })
}

pub fn count_lines(content: &str) -> (n: usize)
    ensures
        n == line_count(content@),
{
    let v = chars_of(content);
    let mut i: usize = 0;
    let mut n: usize = 0;
    while i < v.len()
        invariant
            i <= v@.len(),
            v@ == content@,
            n == newlines(v@.take(i as int)),
            n <= i,
        decreases v@.len() - i,
    {
        assert(v@.take(i + 1).drop_last() =~= v@.take(i as int));
        if v[i] == '\n' {
            n = n + 1;
        }
        i = i + 1;
    }
    assert(v@.take(v@.len() as int) =~= v@);
    if v.len() > 0 && v[v.len() - 1] != '\n' {
        proof {
            lemma_newlines_le(v@.drop_last());
        }
        n + 1
    } else {
        n
    }
}

/// Whether text is paged on a terminal `rows` high: when it has more lines
/// than the terminal (counting empty text as one line); never for a
/// terminal of unknown (zero) height.
pub fn pager_needed(content: &str, rows: usize) -> (b: bool)
    ensures
        b == (rows > 0 && (if line_count(content@) < 1 {
            1
        } else {
            line_count(content@)
        }) > rows),
{
    if rows == 0 {
        return false;
    }
    let n = count_lines(content);
    let n = if n < 1 {
        1
    } else {
        n
    };
    n > rows
}

/// The search query: the words joined by single spaces; refused when empty.
pub open spec fn spec_search_query(words: Seq<Seq<char>>) -> Result<Seq<char>, Seq<char>> {
    let q = join_with(words, ' ');
    if q.len() == 0 {
        Err("search: empty query"@)
    } else {
        Ok(q)
    }
}

pub fn search_query(words: &Vec<String>) -> (r: Result<String, String>)
    ensures
        crate::paths::string_result(r) == spec_search_query(crate::completion::string_views(words@)),
{
    let mut parts: Vec<Vec<char>> = Vec::new();
    let mut i: usize = 0;
    while i < words.len()
        invariant
            i <= words@.len(),
            parts@.len() == i,
            views(parts@) == crate::completion::string_views(words@).take(i as int),
        decreases words@.len() - i,
    {
        parts.push(chars_of(words[i].as_str()));
        assert(views(parts@) =~= crate::completion::string_views(words@).take(i + 1));
        i = i + 1;
    }
    assert(crate::completion::string_views(words@).take(words@.len() as int)
        =~= crate::completion::string_views(words@));
    let q = join_chars(&parts, ' ');
    if q.len() == 0 {
        Err(owned("search: empty query"))
    } else {
        Ok(string_of(q.as_slice()))
    }
}

/// The subtree a search is limited to: none for an absent or blank
/// directory, else the normalized directory.
pub open spec fn spec_search_directory(directory: Option<Seq<char>>) -> Result<Option<Seq<char>>, Seq<char>> {
    match directory {
        None => Ok(None),
        Some(d) => if trim(d).len() == 0 {
            Ok(None)
        } else {
            match crate::paths::spec_normalize_path(trim(d)) {
                Ok(p) => Ok(Some(p)),
                Err(e) => Err(e),
            }
        },
    }
}

pub fn search_directory(directory: Option<&str>) -> (r: Result<Option<String>, String>)
    ensures
        crate::paths::opt_string_result(r) == spec_search_directory(crate::shell_path::opt_view(directory)),
{
    match directory {
        None => Ok(None),
        Some(d) => {
            let t = crate::text::trim_ws(chars_of(d).as_slice());
            if t.len() == 0 {
                Ok(None)
            } else {
                match crate::paths::normalize_path(string_of(t.as_slice()).as_str()) {
                    Ok(p) => Ok(Some(p)),
                    Err(e) => Err(e),
                }
            }
        },
    }
}

/// `desc PATH` with no words prints the description (nothing when it is
/// absent or empty); with words, sets it to the words joined by spaces.
pub enum DescAction {
    Show,
    Assign { description: String },
}

pub fn desc_action(words: &Vec<String>) -> (r: DescAction)
    ensures
        match r {
            DescAction::Show => words@.len() == 0,
            DescAction::Assign { description } => words@.len() > 0 && description@ == join_with(
                crate::completion::string_views(words@),
                ' ',
            ),
        },
{
    if words.len() == 0 {
        return DescAction::Show;
    }
    match search_query(words) {
        Ok(q) => DescAction::Assign { description: q },
        Err(_) => DescAction::Assign { description: string_of(Vec::<char>::new().as_slice()) },
    }
}

/// The description `desc PATH` prints: the stored one when it is not empty.
pub fn description_to_print(stored: Option<String>) -> (r: Option<String>)
    ensures
        match stored {
            Some(s) => if s@.len() > 0 {
                r matches Some(t) && t@ == s@
            } else {
                r is None
            },
            None => r is None,
        },
{
    match stored {
        Some(s) => {
            if chars_of(s.as_str()).len() > 0 {
                Some(s)
            } else {
                None
            }
        },
        None => None,
    }
}

/// The scope of `reindex`: the whole repository for `/`, else the directory.
pub fn reindex_scope(normalized: &str) -> (r: Option<String>)
    ensures
        if normalized@ == seq!['/'] {
            r is None
        } else {
            r matches Some(p) && p@ == normalized@
        },
{
    let v = chars_of(normalized);
    if v.len() == 1 && v[0] == '/' {
        assert(normalized@ =~= seq!['/']);
        None
    } else {
        assert(normalized@ != seq!['/']);
        Some(owned(normalized))
    }
}

/// The line printed before each document when `cat` prints several.
pub open spec fn spec_cat_banner(path: Seq<char>) -> Seq<char> {
    "==> "@ + path + " <=="@
}

pub fn cat_banner(path: &str) -> (r: String)
    ensures
        r@ == spec_cat_banner(path@),
{
    let mut v = chars_of("==> ");
    append_chars(&mut v, chars_of(path).as_slice());
    append_chars(&mut v, chars_of(" <==").as_slice());
    string_of(v.as_slice())
}

} // verus!

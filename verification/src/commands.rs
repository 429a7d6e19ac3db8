//! `tb` subcommands as plain values, and how the interactive shell rewrites
//! their paths against its current directory.

use vstd::prelude::*;
use crate::shell_path::{
    opt_view, resolve_ls_directory, resolve_shell_doc_path, resolve_shell_rm_path,
    resolve_shell_tree_scope, spec_doc_path, spec_ls_directory, spec_rm_path, spec_tree_scope,
};
use crate::text::{chars_of, trim, trim_ws, string_of};

verus! {

/// Which lines of a document a `tail` shows.
#[derive(Clone, Copy, Debug, PartialEq, Eq, Structural)]
pub enum TailMode {
    /// The last `n` lines.
    Last(u32),
    /// From 1-based line `n` to the end (`-n +N`).
    FromLine(u32),
}

/// One `tb` subcommand with its arguments.
#[derive(Clone, Debug)]
pub enum Command {
    Append { path: String, file: Option<String> },
    Cat { path: String, raw: bool },
    Chat { nickname: Option<String>, path: String, raw: bool },
    Cp { recursive: bool, src: String, dst: String },
    Desc { path: String, description: Vec<String> },
    Ec { path: String },
    Edit { path: String },
    Export { directory: String, destination: Option<String> },
    Find { directory: Option<String>, name: Option<String> },
    Grep { pattern: String, path: String, max_matches: u64, invert_match: bool },
    Head { path: String, lines: u32, raw: bool },
    Import { directory: String, dir: String, name: Option<String> },
    Less { path: String },
    Ls { sort_by_time: bool, reverse: bool, directory: Option<String> },
    Lt { reverse: bool, directory: Option<String> },
    Mkdir { parents: bool, description: Option<String>, path: String },
    Mv { src: String, dst: String },
    Put { path: String, file: Option<String> },
    Reindex { path: String },
    Rm { recursive: bool, path: String },
    Search { directory: Option<String>, query: Vec<String> },
    Shell { parents: bool, cwd: Option<String> },
    Slice { path: String, start: u32, end: u32, raw: bool },
    Stat { path: String },
    Test,
    Tail { tail: TailMode, follow: bool, path: String, raw: bool },
    Touch { path: String, time: Option<String> },
    Wait { path: String },
    Wc { path: String },
}

pub open spec fn opt_string_view(o: Option<String>) -> Option<Seq<char>> {
    match o {
        Some(s) => Some(s@),
        None => None,
    }
}

pub type Paths = Seq<Option<Seq<char>>>;

pub open spec fn one(r: Result<Seq<char>, Seq<char>>) -> Result<Paths, Seq<char>> {
    match r {
        Ok(p) => Ok(seq![Some(p)]),
        Err(e) => Err(e),
    }
}

pub open spec fn two(r1: Result<Seq<char>, Seq<char>>, r2: Result<Seq<char>, Seq<char>>) -> Result<
    Paths,
    Seq<char>,
> {
    match r1 {
        Err(e) => Err(e),
        Ok(a) => match r2 {
            Err(e) => Err(e),
            Ok(b) => Ok(seq![Some(a), Some(b)]),
        },
    }
}

pub open spec fn maybe(r: Result<Option<Seq<char>>, Seq<char>>) -> Result<Paths, Seq<char>> {
    match r {
        Ok(p) => Ok(seq![p]),
        Err(e) => Err(e),
    }
}

pub open spec fn opt_scope(d: Option<Seq<char>>, cwd: Option<Seq<char>>) -> Result<
    Option<Seq<char>>,
    Seq<char>,
> {
    match d {
        None => Ok(None),
        Some(c) => match spec_tree_scope(c, cwd) {
            Ok(s) => Ok(Some(s)),
            Err(e) => Err(e),
        },
    }
}

/// The initial directory of a nested `shell`: empty means the root, as does `/`.
pub open spec fn shell_cwd_scope(d: Option<Seq<char>>, cwd: Option<Seq<char>>) -> Result<
    Option<Seq<char>>,
    Seq<char>,
> {
    match d {
        None => Ok(None),
        Some(p) => {
            let t = trim(p);
            if t.len() == 0 {
                Ok(None)
            } else {
                match spec_tree_scope(t, cwd) {
                    Err(e) => Err(e),
                    Ok(r) => if r == seq!['/'] {
                        Ok(None)
                    } else {
                        Ok(Some(r))
                    },
                }
            }
        },
    }
}

/// The new values of a command's path arguments, in field order, or the first error.
pub open spec fn spec_shell_paths(cmd: Command, cwd: Option<Seq<char>>) -> Result<Paths, Seq<char>> {
    match cmd {
        Command::Ls { directory, .. } => maybe(
            spec_ls_directory(opt_string_view(directory), cwd),
        ),
        Command::Lt { directory, .. } => maybe(
            spec_ls_directory(opt_string_view(directory), cwd),
        ),
        Command::Rm { recursive, path } => one(spec_rm_path(path@, recursive, cwd)),
        Command::Mv { src, dst } => two(spec_doc_path(src@, cwd), spec_doc_path(dst@, cwd)),
        Command::Cp { src, dst, .. } => two(
            spec_tree_scope(src@, cwd),
            spec_tree_scope(dst@, cwd),
        ),
        Command::Search { directory, .. } => maybe(
            opt_scope(opt_string_view(directory), cwd),
        ),
        Command::Find { directory, .. } => maybe(opt_scope(opt_string_view(directory), cwd)),
        Command::Import { directory, .. } => one(spec_tree_scope(directory@, cwd)),
        Command::Export { directory, .. } => one(spec_tree_scope(directory@, cwd)),
        Command::Reindex { path } => one(spec_tree_scope(path@, cwd)),
        Command::Test => Ok(seq![]),
        Command::Shell { cwd: c, .. } => maybe(shell_cwd_scope(opt_string_view(c), cwd)),
        Command::Append { path, .. } => one(spec_doc_path(path@, cwd)),
        Command::Cat { path, .. } => one(spec_doc_path(path@, cwd)),
        Command::Chat { path, .. } => one(spec_doc_path(path@, cwd)),
        Command::Desc { path, .. } => one(spec_doc_path(path@, cwd)),
        Command::Ec { path } => one(spec_doc_path(path@, cwd)),
        Command::Edit { path } => one(spec_doc_path(path@, cwd)),
        Command::Grep { path, .. } => one(spec_doc_path(path@, cwd)),
        Command::Head { path, .. } => one(spec_doc_path(path@, cwd)),
        Command::Less { path } => one(spec_doc_path(path@, cwd)),
        Command::Mkdir { path, .. } => one(spec_doc_path(path@, cwd)),
        Command::Put { path, .. } => one(spec_doc_path(path@, cwd)),
        Command::Slice { path, .. } => one(spec_doc_path(path@, cwd)),
        Command::Stat { path } => one(spec_doc_path(path@, cwd)),
        Command::Tail { path, .. } => one(spec_doc_path(path@, cwd)),
        Command::Touch { path, .. } => one(spec_doc_path(path@, cwd)),
        Command::Wait { path } => one(spec_doc_path(path@, cwd)),
        Command::Wc { path } => one(spec_doc_path(path@, cwd)),
    }
}

/// `b` is `a` with its path arguments replaced by strings whose views are `ps`.
pub open spec fn rebuilt(a: Command, b: Command, ps: Paths) -> bool {
    let p0 = ps[0];
    let p1 = ps[1];
    match (a, b) {
        (Command::Ls { sort_by_time: t1, reverse: r1, .. }, Command::Ls {
            sort_by_time: t2,
            reverse: r2,
            directory: d,
        }) => t1 == t2 && r1 == r2 && opt_string_view(d) == p0,
        (Command::Lt { reverse: r1, .. }, Command::Lt { reverse: r2, directory: d }) => r1 == r2
            && opt_string_view(d) == p0,
        (Command::Rm { recursive: r1, .. }, Command::Rm { recursive: r2, path: p }) => r1 == r2
            && Some(p@) == p0,
        (Command::Mv { .. }, Command::Mv { src, dst }) => Some(src@) == p0 && Some(dst@) == p1,
        (Command::Cp { recursive: r1, .. }, Command::Cp { recursive: r2, src, dst }) => r1 == r2
            && Some(src@) == p0 && Some(dst@) == p1,
        (Command::Search { query: q1, .. }, Command::Search { directory: d, query: q2 }) => q1
            == q2 && opt_string_view(d) == p0,
        (Command::Find { name: n1, .. }, Command::Find { directory: d, name: n2 }) => n1 == n2
            && opt_string_view(d) == p0,
        (Command::Import { dir: x1, name: n1, .. }, Command::Import {
            directory: d,
            dir: x2,
            name: n2,
        }) => x1 == x2 && n1 == n2 && Some(d@) == p0,
        (Command::Export { destination: x1, .. }, Command::Export {
            directory: d,
            destination: x2,
        }) => x1 == x2 && Some(d@) == p0,
        (Command::Reindex { .. }, Command::Reindex { path }) => Some(path@) == p0,
        (Command::Test, Command::Test) => true,
        (Command::Shell { parents: a1, .. }, Command::Shell { parents: a2, cwd }) => a1 == a2
            && opt_string_view(cwd) == p0,
        (Command::Append { file: f1, .. }, Command::Append { path, file: f2 }) => f1 == f2
            && Some(path@) == p0,
        (Command::Cat { raw: r1, .. }, Command::Cat { path, raw: r2 }) => r1 == r2 && Some(path@)
            == p0,
        (Command::Chat { nickname: n1, raw: r1, .. }, Command::Chat {
            nickname: n2,
            path,
            raw: r2,
        }) => n1 == n2 && r1 == r2 && Some(path@) == p0,
        (Command::Desc { description: d1, .. }, Command::Desc { path, description: d2 }) => d1
            == d2 && Some(path@) == p0,
        (Command::Ec { .. }, Command::Ec { path }) => Some(path@) == p0,
        (Command::Edit { .. }, Command::Edit { path }) => Some(path@) == p0,
        (Command::Grep { pattern: a1, max_matches: m1, invert_match: i1, .. }, Command::Grep {
            pattern: a2,
            path,
            max_matches: m2,
            invert_match: i2,
        }) => a1 == a2 && m1 == m2 && i1 == i2 && Some(path@) == p0,
        (Command::Head { lines: l1, raw: r1, .. }, Command::Head { path, lines: l2, raw: r2 }) => l1
            == l2 && r1 == r2 && Some(path@) == p0,
        (Command::Less { .. }, Command::Less { path }) => Some(path@) == p0,
        (Command::Mkdir { parents: a1, description: d1, .. }, Command::Mkdir {
            parents: a2,
            description: d2,
            path,
        }) => a1 == a2 && d1 == d2 && Some(path@) == p0,
        (Command::Put { file: f1, .. }, Command::Put { path, file: f2 }) => f1 == f2 && Some(path@)
            == p0,
        (Command::Slice { start: s1, end: e1, raw: r1, .. }, Command::Slice {
            path,
            start: s2,
            end: e2,
            raw: r2,
        }) => s1 == s2 && e1 == e2 && r1 == r2 && Some(path@) == p0,
        (Command::Stat { .. }, Command::Stat { path }) => Some(path@) == p0,
        (Command::Tail { tail: t1, follow: f1, raw: r1, .. }, Command::Tail {
            tail: t2,
            follow: f2,
            path,
            raw: r2,
        }) => t1 == t2 && f1 == f2 && r1 == r2 && Some(path@) == p0,
        (Command::Touch { time: t1, .. }, Command::Touch { path, time: t2 }) => t1 == t2 && Some(
            path@,
        ) == p0,
        (Command::Wait { .. }, Command::Wait { path }) => Some(path@) == p0,
        (Command::Wc { .. }, Command::Wc { path }) => Some(path@) == p0,
        _ => false,
    }
}

fn scope_opt(d: Option<String>, cwd: Option<&str>) -> (r: Result<Option<String>, String>)
    ensures
        crate::paths::opt_string_result(r) == opt_scope(opt_string_view(d), opt_view(cwd)),
{
    match d {
        None => Ok(None),
        Some(c) => match resolve_shell_tree_scope(c.as_str(), cwd) {
            Ok(s) => Ok(Some(s)),
            Err(e) => Err(e),
        },
    }
}

fn shell_cwd_opt(d: Option<String>, cwd: Option<&str>) -> (r: Result<Option<String>, String>)
    ensures
        crate::paths::opt_string_result(r) == shell_cwd_scope(opt_string_view(d), opt_view(cwd)),
{
    match d {
        None => Ok(None),
        Some(p) => {
            let pv = chars_of(p.as_str());
            let t = trim_ws(pv.as_slice());
            if t.len() == 0 {
                return Ok(None);
            }
            let ts = string_of(t.as_slice());
            match resolve_shell_tree_scope(ts.as_str(), cwd) {
                Err(e) => Err(e),
                Ok(r) => {
                    let rv = chars_of(r.as_str());
                    if rv.len() == 1 && rv[0] == '/' {
                        assert(r@ =~= seq!['/']);
                        Ok(None)
                    } else {
                        assert(rv@ != seq!['/']);
                        Ok(Some(r))
                    }
                },
            }
        },
    }
}

/// Resolves the path arguments of a command typed in the interactive shell
/// against the shell's current directory (`None` = root); other arguments are
/// kept. The first path that fails to resolve gives the error.
#[verifier::rlimit(100)]
#[verifier::spinoff_prover]
pub fn apply_shell_cwd(cmd: Command, shell_cwd: Option<&str>) -> (r: Result<Command, String>)
    ensures
        match spec_shell_paths(cmd, opt_view(shell_cwd)) {
            Err(e) => r matches Err(x) && x@ == e,
            Ok(ps) => r matches Ok(c) && rebuilt(cmd, c, ps),
        },
{
    let c = shell_cwd;
    match cmd {
        Command::Ls { sort_by_time, reverse, directory } => {
            let d = match &directory {
                Some(s) => Some(s.as_str()),
                None => None,
            };
            let directory = resolve_ls_directory(d, c)?;
            Ok(Command::Ls { sort_by_time, reverse, directory })
        },
        Command::Lt { reverse, directory } => {
            let d = match &directory {
                Some(s) => Some(s.as_str()),
                None => None,
            };
            let directory = resolve_ls_directory(d, c)?;
            Ok(Command::Lt { reverse, directory })
        },
        Command::Rm { recursive, path } => {
            let path = resolve_shell_rm_path(path.as_str(), recursive, c)?;
            Ok(Command::Rm { recursive, path })
        },
        Command::Mv { src, dst } => {
            let src = resolve_shell_doc_path(src.as_str(), c)?;
            let dst = resolve_shell_doc_path(dst.as_str(), c)?;
            Ok(Command::Mv { src, dst })
        },
        Command::Cp { recursive, src, dst } => {
            let src = resolve_shell_tree_scope(src.as_str(), c)?;
            let dst = resolve_shell_tree_scope(dst.as_str(), c)?;
            Ok(Command::Cp { recursive, src, dst })
        },
        Command::Search { directory, query } => {
            let directory = scope_opt(directory, c)?;
            Ok(Command::Search { directory, query })
        },
        Command::Find { directory, name } => {
            let directory = scope_opt(directory, c)?;
            Ok(Command::Find { directory, name })
        },
        Command::Import { directory, dir, name } => {
            let directory = resolve_shell_tree_scope(directory.as_str(), c)?;
            Ok(Command::Import { directory, dir, name })
        },
        Command::Export { directory, destination } => {
            let directory = resolve_shell_tree_scope(directory.as_str(), c)?;
            Ok(Command::Export { directory, destination })
        },
        Command::Reindex { path } => {
            let path = resolve_shell_tree_scope(path.as_str(), c)?;
            Ok(Command::Reindex { path })
        },
        Command::Test => Ok(Command::Test),
        Command::Shell { parents, cwd } => {
            let cwd = shell_cwd_opt(cwd, c)?;
            Ok(Command::Shell { parents, cwd })
        },
        Command::Append { path, file } => {
            let path = resolve_shell_doc_path(path.as_str(), c)?;
            Ok(Command::Append { path, file })
        },
        Command::Cat { path, raw } => {
            let path = resolve_shell_doc_path(path.as_str(), c)?;
            Ok(Command::Cat { path, raw })
        },
        Command::Chat { nickname, path, raw } => {
            let path = resolve_shell_doc_path(path.as_str(), c)?;
            Ok(Command::Chat { nickname, path, raw })
        },
        Command::Desc { path, description } => {
            let path = resolve_shell_doc_path(path.as_str(), c)?;
            Ok(Command::Desc { path, description })
        },
        Command::Ec { path } => {
            let path = resolve_shell_doc_path(path.as_str(), c)?;
            Ok(Command::Ec { path })
        },
        Command::Edit { path } => {
            let path = resolve_shell_doc_path(path.as_str(), c)?;
            Ok(Command::Edit { path })
        },
        Command::Grep { pattern, path, max_matches, invert_match } => {
            let path = resolve_shell_doc_path(path.as_str(), c)?;
            Ok(Command::Grep { pattern, path, max_matches, invert_match })
        },
        Command::Head { path, lines, raw } => {
            let path = resolve_shell_doc_path(path.as_str(), c)?;
            Ok(Command::Head { path, lines, raw })
        },
        Command::Less { path } => {
            let path = resolve_shell_doc_path(path.as_str(), c)?;
            Ok(Command::Less { path })
        },
        Command::Mkdir { parents, description, path } => {
            let path = resolve_shell_doc_path(path.as_str(), c)?;
            Ok(Command::Mkdir { parents, description, path })
        },
        Command::Put { path, file } => {
            let path = resolve_shell_doc_path(path.as_str(), c)?;
            Ok(Command::Put { path, file })
        },
        Command::Slice { path, start, end, raw } => {
            let path = resolve_shell_doc_path(path.as_str(), c)?;
            Ok(Command::Slice { path, start, end, raw })
        },
        Command::Stat { path } => {
            let path = resolve_shell_doc_path(path.as_str(), c)?;
            Ok(Command::Stat { path })
        },
        Command::Tail { tail, follow, path, raw } => {
            let path = resolve_shell_doc_path(path.as_str(), c)?;
            Ok(Command::Tail { tail, follow, path, raw })
        },
        Command::Touch { path, time } => {
            let path = resolve_shell_doc_path(path.as_str(), c)?;
            Ok(Command::Touch { path, time })
        },
        Command::Wait { path } => {
            let path = resolve_shell_doc_path(path.as_str(), c)?;
            Ok(Command::Wait { path })
        },
        Command::Wc { path } => {
            let path = resolve_shell_doc_path(path.as_str(), c)?;
            Ok(Command::Wc { path })
        },
    }
}

} // verus!

//! Interactive-shell path resolution: fold `.` / `..` / `./` against the shell's
//! current directory before a path goes to the server.
//!
//! Results carry no leading `/` (the RPC layer adds it), except the root
//! sentinel `/` of a tree scope.

use vstd::prelude::*;
use crate::paths::{fold_parts, fold_segments, segs_result, string_result, opt_string_result};
use crate::text::{
    append_chars, begins_with, chars_of, drop_back, drop_front, has_char, join_chars, join_with,
    owned, pieces, pieces_of, split_chars, split_on, starts_with, string_of, trim, trim_back,
    trim_front, trim_ws, views, CharClass,
};

verus! {

pub open spec fn opt_view(o: Option<&str>) -> Option<Seq<char>> {
    match o {
        Some(s) => Some(s@),
        None => None,
    }
}

pub open spec fn opt_chars(o: &Option<Vec<char>>) -> Option<Seq<char>> {
    match o {
        Some(v) => Some(v@),
        None => None,
    }
}

pub open spec fn slash() -> CharClass {
    CharClass::Exactly('/')
}

/// The segments of the shell's current directory (`None` is the root).
pub open spec fn cwd_segments(cwd: Option<Seq<char>>) -> Seq<Seq<char>> {
    match cwd {
        None => seq![],
        Some(c) => {
            let t = drop_back(drop_front(trim(c), slash()), slash());
            if t.len() == 0 {
                seq![]
            } else {
                split_on(t, '/')
            }
        },
    }
}

/// Segments of an absolute shell path.
pub open spec fn spec_absolute_segments(path: Seq<char>) -> Result<Seq<Seq<char>>, Seq<char>> {
    let t = trim(path);
    if path.contains('\\') {
        Err("path must not contain a backslash"@)
    } else if !starts_with(t, seq!['/']) {
        Err("internal: expected absolute path"@)
    } else {
        fold_segments(seq![], pieces(t))
    }
}

/// Segments of a relative shell path, folded onto the current directory.
pub open spec fn spec_relative_segments(rel: Seq<char>, cwd: Option<Seq<char>>) -> Result<
    Seq<Seq<char>>,
    Seq<char>,
> {
    if rel.contains('\\') {
        Err("path must not contain a backslash"@)
    } else {
        fold_segments(cwd_segments(cwd), pieces(trim(drop_back(rel, slash()))))
    }
}

/// A document path from folded segments; the root itself is no document path.
pub open spec fn spec_finish_doc_path(segs: Seq<Seq<char>>) -> Result<Seq<char>, Seq<char>> {
    let out = join_with(segs, '/');
    if out.len() == 0 {
        Err("path resolves to the repository root"@)
    } else {
        Ok(out)
    }
}

pub open spec fn then_finish(r: Result<Seq<Seq<char>>, Seq<char>>) -> Result<Seq<char>, Seq<char>> {
    match r {
        Err(e) => Err(e),
        Ok(segs) => spec_finish_doc_path(segs),
    }
}

/// A document path typed in the shell, resolved against the current directory.
pub open spec fn spec_doc_path(path: Seq<char>, cwd: Option<Seq<char>>) -> Result<
    Seq<char>,
    Seq<char>,
> {
    let p = trim(path);
    if p.len() == 0 {
        Err("path must not be empty"@)
    } else if starts_with(p, seq!['/']) {
        then_finish(spec_absolute_segments(p))
    } else {
        then_finish(spec_relative_segments(drop_back(p, slash()), cwd))
    }
}

/// A tree scope (`/`, or a directory path without leading `/`).
pub open spec fn spec_tree_scope(dir: Seq<char>, cwd: Option<Seq<char>>) -> Result<
    Seq<char>,
    Seq<char>,
> {
    let d = trim(dir);
    if d.len() == 0 {
        Err("directory path must not be empty"@)
    } else if d == seq!['/'] {
        Ok(seq!['/'])
    } else {
        let r = if starts_with(d, seq!['/']) {
            spec_absolute_segments(d)
        } else {
            spec_relative_segments(d, cwd)
        };
        match r {
            Err(e) => Err(e),
            Ok(segs) => if segs.len() == 0 {
                Ok(seq!['/'])
            } else {
                Ok(join_with(segs, '/'))
            },
        }
    }
}

/// One root-level name with no dot semantics (`ls other`).
pub open spec fn spec_bare_root_relative(p: Seq<char>) -> bool {
    let q = drop_back(trim(p), slash());
    q.len() > 0 && q != seq!['.'] && q != seq!['.', '.'] && !q.contains('/')
}

pub open spec fn spec_has_glob(p: Seq<char>) -> bool {
    p.contains('*') || p.contains('?') || p.contains('[')
}

/// `c/t`.
pub open spec fn under(c: Seq<char>, t: Seq<char>) -> Seq<char> {
    c.push('/') + t
}

/// The path `rm` sends: globs are passed on (made relative to the current
/// directory when they are one bare segment), other paths resolve as documents.
pub open spec fn spec_rm_path(path: Seq<char>, recursive: bool, cwd: Option<Seq<char>>) -> Result<
    Seq<char>,
    Seq<char>,
> {
    if spec_has_glob(path) {
        if starts_with(path, seq!['/']) {
            Ok(drop_back(path.drop_first(), slash()))
        } else {
            let t = drop_back(path, slash());
            if recursive || t.contains('/') {
                Ok(t)
            } else {
                match cwd {
                    Some(c) => Ok(under(c, t)),
                    None => Ok(t),
                }
            }
        }
    } else {
        spec_doc_path(path, cwd)
    }
}

/// The directory `ls` lists: the current directory when none is given, a bare
/// name under the current directory, otherwise a tree scope.
pub open spec fn spec_ls_directory(dir: Option<Seq<char>>, cwd: Option<Seq<char>>) -> Result<
    Option<Seq<char>>,
    Seq<char>,
> {
    match dir {
        None => Ok(cwd),
        Some(d) => {
            let p = trim(d);
            if spec_bare_root_relative(p) {
                let p2 = drop_back(p, slash());
                Ok(
                    Some(
                        match cwd {
                            Some(c) => {
                                let c2 = drop_back(c, slash());
                                if c2.len() == 0 {
                                    p2
                                } else {
                                    under(c2, p2)
                                }
                            },
                            None => p2,
                        },
                    ),
                )
            } else {
                match spec_tree_scope(p, cwd) {
                    Err(e) => Err(e),
                    Ok(s) => Ok(Some(s)),
                }
            }
        },
    }
}

/// The absolute directory path that `cd` lists.
pub open spec fn spec_merge_cd_path(target: Seq<char>, cwd: Option<Seq<char>>) -> Result<
    Seq<char>,
    Seq<char>,
> {
    let t = trim(target);
    if t.len() == 0 {
        Err("cd: empty path"@)
    } else {
        match spec_tree_scope(t, cwd) {
            Err(e) => Err("cd: "@ + e),
            Ok(s) => if s == seq!['/'] {
                Ok(seq!['/'])
            } else {
                Ok(seq!['/'] + s)
            },
        }
    }
}

fn opt_to_chars(o: Option<&str>) -> (r: Option<Vec<char>>)
    ensures
        opt_chars(&r) == opt_view(o),
{
    match o {
        Some(s) => Some(chars_of(s)),
        None => None,
    }
}

fn cwd_segs(cwd: &Option<Vec<char>>) -> (r: Vec<Vec<char>>)
    ensures
        views(r@) == cwd_segments(opt_chars(cwd)),
{
    match cwd {
        None => {
            let r: Vec<Vec<char>> = Vec::new();
            assert(views(r@) =~= Seq::<Seq<char>>::empty());
            r
        },
        Some(c) => {
            let a = trim_ws(c.as_slice());
            let b = trim_front(a.as_slice(), CharClass::Exactly('/'));
            let t = trim_back(b.as_slice(), CharClass::Exactly('/'));
            if t.len() == 0 {
                let r: Vec<Vec<char>> = Vec::new();
                assert(views(r@) =~= Seq::<Seq<char>>::empty());
                r
            } else {
                split_chars(t.as_slice(), '/')
            }
        },
    }
}

fn absolute_segs(path: &[char]) -> (r: Result<Vec<Vec<char>>, String>)
    ensures
        segs_result(r) == spec_absolute_segments(path@),
{
    if has_char(path, '\\') {
        return Err(owned("path must not contain a backslash"));
    }
    let t = trim_ws(path);
    let root = ['/'];
    if !begins_with(t.as_slice(), &root) {
        assert(root@ =~= seq!['/']);
        return Err(owned("internal: expected absolute path"));
    }
    assert(root@ =~= seq!['/']);
    let parts = pieces_of(t.as_slice());
    let mut segs: Vec<Vec<char>> = Vec::new();
    assert(views(segs@) =~= Seq::<Seq<char>>::empty());
    match fold_parts(&mut segs, &parts) {
        Err(e) => Err(e),
        Ok(()) => Ok(segs),
    }
}

fn relative_segs(rel: &[char], cwd: &Option<Vec<char>>) -> (r: Result<Vec<Vec<char>>, String>)
    ensures
        segs_result(r) == spec_relative_segments(rel@, opt_chars(cwd)),
{
    if has_char(rel, '\\') {
        return Err(owned("path must not contain a backslash"));
    }
    let a = trim_back(rel, CharClass::Exactly('/'));
    let t = trim_ws(a.as_slice());
    let parts = pieces_of(t.as_slice());
    let mut segs = cwd_segs(cwd);
    match fold_parts(&mut segs, &parts) {
        Err(e) => Err(e),
        Ok(()) => Ok(segs),
    }
}

fn finish_doc_path(r: Result<Vec<Vec<char>>, String>) -> (out: Result<String, String>)
    ensures
        string_result(out) == then_finish(segs_result(r)),
{
    match r {
        Err(e) => Err(e),
        Ok(segs) => {
            let j = join_chars(&segs, '/');
            if j.len() == 0 {
                Err(owned("path resolves to the repository root"))
            } else {
                Ok(string_of(j.as_slice()))
            }
        },
    }
}

fn doc_path_chars(path: &[char], cwd: &Option<Vec<char>>) -> (r: Result<String, String>)
    ensures
        string_result(r) == spec_doc_path(path@, opt_chars(cwd)),
{
    let p = trim_ws(path);
    if p.len() == 0 {
        return Err(owned("path must not be empty"));
    }
    let root = ['/'];
    assert(root@ =~= seq!['/']);
    if begins_with(p.as_slice(), &root) {
        return finish_doc_path(absolute_segs(p.as_slice()));
    }
    let rel = trim_back(p.as_slice(), CharClass::Exactly('/'));
    finish_doc_path(relative_segs(rel.as_slice(), cwd))
}

/// Resolves a document path typed in the shell against the current directory
/// (`None` = root). The result has no leading `/`.
pub fn resolve_shell_doc_path(path: &str, shell_cwd: Option<&str>) -> (r: Result<String, String>)
    ensures
        string_result(r) == spec_doc_path(path@, opt_view(shell_cwd)),
{
    let p = chars_of(path);
    let c = opt_to_chars(shell_cwd);
    doc_path_chars(p.as_slice(), &c)
}

fn is_root_chars(v: &[char]) -> (b: bool)
    ensures
        b == (v@ == seq!['/']),
{
    let r = v.len() == 1 && v[0] == '/';
    if r {
        assert(v@ =~= seq!['/']);
    }
    r
}

fn tree_scope_chars(dir: &[char], cwd: &Option<Vec<char>>) -> (r: Result<Vec<char>, String>)
    ensures
        match r {
            Ok(s) => spec_tree_scope(dir@, opt_chars(cwd)) == Ok::<Seq<char>, Seq<char>>(s@),
            Err(e) => spec_tree_scope(dir@, opt_chars(cwd)) == Err::<Seq<char>, Seq<char>>(e@),
        },
{
    let d = trim_ws(dir);
    if d.len() == 0 {
        return Err(owned("directory path must not be empty"));
    }
    let mut root_v: Vec<char> = Vec::new();
    root_v.push('/');
    assert(root_v@ =~= seq!['/']);
    if is_root_chars(d.as_slice()) {
        return Ok(root_v);
    }
    let segs = if begins_with(d.as_slice(), root_v.as_slice()) {
        absolute_segs(d.as_slice())
    } else {
        relative_segs(d.as_slice(), cwd)
    };
    match segs {
        Err(e) => Err(e),
        Ok(segs) => {
            if segs.len() == 0 {
                Ok(root_v)
            } else {
                Ok(join_chars(&segs, '/'))
            }
        },
    }
}

/// Resolves a tree scope (`/`, or a directory path without leading `/`).
pub fn resolve_shell_tree_scope(dir: &str, shell_cwd: Option<&str>) -> (r: Result<String, String>)
    ensures
        string_result(r) == spec_tree_scope(dir@, opt_view(shell_cwd)),
{
    let d = chars_of(dir);
    let c = opt_to_chars(shell_cwd);
    match tree_scope_chars(d.as_slice(), &c) {
        Ok(s) => Ok(string_of(s.as_slice())),
        Err(e) => Err(e),
    }
}

fn bare_chars(p: &[char]) -> (b: bool)
    ensures
        b == spec_bare_root_relative(p@),
{
    let t = trim_ws(p);
    let q = trim_back(t.as_slice(), CharClass::Exactly('/'));
    let dot = ['.'];
    let dotdot = ['.', '.'];
    assert(dot@ =~= seq!['.']);
    assert(dotdot@ =~= seq!['.', '.']);
    q.len() > 0 && !crate::text::chars_eq(q.as_slice(), &dot) && !crate::text::chars_eq(
        q.as_slice(),
        &dotdot,
    ) && !has_char(q.as_slice(), '/')
}

/// `true` for `ls other` style names: one root-level segment, no dot semantics.
pub fn shell_ls_bare_root_relative(p: &str) -> (b: bool)
    ensures
        b == spec_bare_root_relative(p@),
{
    let v = chars_of(p);
    bare_chars(v.as_slice())
}

fn glob_chars(p: &[char]) -> (b: bool)
    ensures
        b == spec_has_glob(p@),
{
    has_char(p, '*') || has_char(p, '?') || has_char(p, '[')
}

/// Whether a shell path holds a glob metacharacter (`*`, `?`, `[`).
pub fn shell_path_has_glob(path: &str) -> (b: bool)
    ensures
        b == spec_has_glob(path@),
{
    let v = chars_of(path);
    glob_chars(v.as_slice())
}

fn under_chars(c: &[char], t: &[char]) -> (r: Vec<char>)
    ensures
        r@ == under(c@, t@),
{
    let mut r = crate::text::copy_range(c, 0, c.len());
    assert(c@.subrange(0, c@.len() as int) =~= c@);
    r.push('/');
    append_chars(&mut r, t);
    r
}

/// The path `rm` sends to the server.
pub fn resolve_shell_rm_path(path: &str, recursive: bool, shell_cwd: Option<&str>) -> (r: Result<
    String,
    String,
>)
    ensures
        string_result(r) == spec_rm_path(path@, recursive, opt_view(shell_cwd)),
{
    let v = chars_of(path);
    let c = opt_to_chars(shell_cwd);
    if glob_chars(v.as_slice()) {
        let root = ['/'];
        assert(root@ =~= seq!['/']);
        if begins_with(v.as_slice(), &root) {
            let rest = crate::text::copy_range(v.as_slice(), 1, v.len());
            assert(rest@ =~= v@.drop_first());
            let t = trim_back(rest.as_slice(), CharClass::Exactly('/'));
            return Ok(string_of(t.as_slice()));
        }
        let t = trim_back(v.as_slice(), CharClass::Exactly('/'));
        if recursive || has_char(t.as_slice(), '/') {
            return Ok(string_of(t.as_slice()));
        }
        match c {
            Some(cw) => Ok(string_of(under_chars(cw.as_slice(), t.as_slice()).as_slice())),
            None => Ok(string_of(t.as_slice())),
        }
    } else {
        doc_path_chars(v.as_slice(), &c)
    }
}

/// The directory `ls` lists (`None` = the repository root).
pub fn resolve_ls_directory(directory: Option<&str>, shell_cwd: Option<&str>) -> (r: Result<
    Option<String>,
    String,
>)
    ensures
        opt_string_result(r) == spec_ls_directory(opt_view(directory), opt_view(shell_cwd)),
{
    match directory {
        None => match shell_cwd {
            Some(c) => Ok(Some(owned(c))),
            None => Ok(None),
        },
        Some(d) => {
            let dv = chars_of(d);
            let p = trim_ws(dv.as_slice());
            let cv = opt_to_chars(shell_cwd);
            if bare_chars(p.as_slice()) {
                let p2 = trim_back(p.as_slice(), CharClass::Exactly('/'));
                let out = match &cv {
                    Some(cw) => {
                        let c2 = trim_back(cw.as_slice(), CharClass::Exactly('/'));
                        if c2.len() == 0 {
                            p2
                        } else {
                            under_chars(c2.as_slice(), p2.as_slice())
                        }
                    },
                    None => p2,
                };
                Ok(Some(string_of(out.as_slice())))
            } else {
                match tree_scope_chars(p.as_slice(), &cv) {
                    Err(e) => Err(e),
                    Ok(s) => Ok(Some(string_of(s.as_slice()))),
                }
            }
        },
    }
}

/// Resolves a `cd` target to the absolute directory path that is listed.
pub fn merge_cd_path(target: &str, cwd: Option<&str>) -> (r: Result<String, String>)
    ensures
        string_result(r) == spec_merge_cd_path(target@, opt_view(cwd)),
{
    let tv = chars_of(target);
    let t = trim_ws(tv.as_slice());
    if t.len() == 0 {
        return Err(owned("cd: empty path"));
    }
    let cv = opt_to_chars(cwd);
    match tree_scope_chars(t.as_slice(), &cv) {
        Err(e) => {
            let mut m = owned("cd: ");
            m.append(e.as_str());
            Err(m)
        },
        Ok(s) => {
            if is_root_chars(s.as_slice()) {
                Ok(string_of(s.as_slice()))
            } else {
                let mut r: Vec<char> = Vec::new();
                r.push('/');
                append_chars(&mut r, s.as_slice());
                assert(r@ =~= seq!['/'] + s@);
                Ok(string_of(r.as_slice()))
            }
        },
    }
}

} // verus!

verus! {

pub open spec fn strings_view(v: Seq<String>) -> Seq<Seq<char>> {
    Seq::new(v.len(), |i: int| v[i]@)
}

fn to_strings(v: &Vec<Vec<char>>) -> (r: Vec<String>)
    ensures
        strings_view(r@) == views(v@),
{
    let mut r: Vec<String> = Vec::new();
    let mut i: usize = 0;
    while i < v.len()
        invariant
            i <= v@.len(),
            r@.len() == i,
            strings_view(r@) == views(v@).take(i as int),
        decreases v@.len() - i,
    {
        let ghost r0 = r@;
        let x = string_of(v[i].as_slice());
        r.push(x);
        assert(r@ == r0.push(x));
        assert(strings_view(r@)[i as int] == views(v@)[i as int]);
        assert(strings_view(r@) =~= views(v@).take(i + 1));
        i = i + 1;
    }
    assert(views(v@).take(v@.len() as int) =~= views(v@));
    r
}

fn from_strings(v: &Vec<String>) -> (r: Vec<Vec<char>>)
    ensures
        views(r@) == strings_view(v@),
{
    let mut r: Vec<Vec<char>> = Vec::new();
    let mut i: usize = 0;
    while i < v.len()
        invariant
            i <= v@.len(),
            r@.len() == i,
            views(r@) == strings_view(v@).take(i as int),
        decreases v@.len() - i,
    {
        let ghost r0 = r@;
        let x = chars_of(v[i].as_str());
        r.push(x);
        assert(r@ == r0.push(x));
        assert(views(r@)[i as int] == strings_view(v@)[i as int]);
        assert(views(r@) =~= strings_view(v@).take(i + 1));
        i = i + 1;
    }
    assert(strings_view(v@).take(v@.len() as int) =~= strings_view(v@));
    r
}

/// The segments of the shell's current directory (`None` = root): surrounding
/// whitespace and slashes are ignored, the rest is split on `/`.
pub fn cwd_to_segments(cwd: Option<&str>) -> (r: Vec<String>)
    ensures
        strings_view(r@) == cwd_segments(opt_view(cwd)),
{
    let c = opt_to_chars(cwd);
    let s = cwd_segs(&c);
    to_strings(&s)
}

/// Whether a relative document path takes the current directory as its base
/// (it does whenever anything but slashes and whitespace is left).
pub fn doc_path_merge_with_cwd(rel: &str) -> (b: bool)
    ensures
        b == (trim(drop_back(rel@, slash())).len() > 0),
{
    let v = chars_of(rel);
    let a = trim_back(v.as_slice(), CharClass::Exactly('/'));
    let t = trim_ws(a.as_slice());
    t.len() > 0
}

/// Joins resolved segments into a document path; the root is refused.
pub fn finish_doc_path_from_segments(base: Vec<String>) -> (r: Result<String, String>)
    ensures
        string_result(r) == spec_finish_doc_path(strings_view(base@)),
{
    let segs = from_strings(&base);
    finish_doc_path(Ok(segs))
}

/// A path that starts with `/` (after trimming) names the same document and the
/// same tree scope whatever the shell's current directory is.
pub proof fn law_absolute_path_ignores_cwd(path: Seq<char>, cwd1: Option<Seq<char>>, cwd2: Option<Seq<char>>)
    requires
        starts_with(trim(path), seq!['/']),
    ensures
        spec_doc_path(path, cwd1) == spec_doc_path(path, cwd2),
        spec_tree_scope(path, cwd1) == spec_tree_scope(path, cwd2),
{
}

/// The names that a document path typed in the shell resolves to: valid names,
/// at least one, joined with `/`.
proof fn lemma_doc_path_names(p: Seq<char>, cwd: Option<Seq<char>>) -> (segs: Seq<Seq<char>>)
    requires
        crate::paths::valid_segments(cwd_segments(cwd)),
        spec_doc_path(p, cwd) is Ok,
    ensures
        crate::paths::valid_segments(segs),
        segs.len() > 0,
        spec_doc_path(p, cwd)->Ok_0 == join_with(segs, '/'),
{
    let q = trim(p);
    let empty = Seq::<Seq<char>>::empty();
    assert(crate::paths::valid_segments(empty));
    if starts_with(q, seq!['/']) {
        let parts = pieces(trim(q));
        crate::paths::lemma_fold_valid(empty, parts);
        fold_segments(empty, parts)->Ok_0
    } else {
        let rel = drop_back(q, slash());
        let parts = pieces(trim(drop_back(rel, slash())));
        crate::paths::lemma_fold_valid(cwd_segments(cwd), parts);
        fold_segments(cwd_segments(cwd), parts)->Ok_0
    }
}

/// Valid names joined with `/`, with no whitespace at either end, resolve from the
/// root to themselves, as a document path and as a tree scope.
proof fn lemma_joined_names_resolve(segs: Seq<Seq<char>>)
    requires
        crate::paths::valid_segments(segs),
        segs.len() > 0,
        !crate::text::is_ws(join_with(segs, '/')[0]),
        !crate::text::is_ws(join_with(segs, '/').last()),
    ensures
        spec_doc_path(join_with(segs, '/'), None) == Ok::<Seq<char>, Seq<char>>(join_with(segs, '/')),
        spec_tree_scope(join_with(segs, '/'), None) == Ok::<Seq<char>, Seq<char>>(join_with(segs, '/')),
{
    let r = join_with(segs, '/');
    crate::paths::lemma_valid_plain(segs);
    crate::text::lemma_join_ends(segs);
    crate::text::lemma_trim_noop(r);
    crate::text::lemma_join_lacks(segs, '\\');
    assert(!starts_with(r, seq!['/'])) by {
        if starts_with(r, seq!['/']) {
            assert(r.subrange(0, 1)[0] == r[0]);
        }
    }
    assert(r != seq!['/']) by {
        if r == seq!['/'] {
            assert(r[0] == '/');
        }
    }
    assert(drop_back(r, slash()) == r);
    crate::text::lemma_pieces_lead_slash(r);
    crate::text::lemma_pieces_join(segs);
    assert(cwd_segments(None) =~= Seq::<Seq<char>>::empty());
    crate::paths::lemma_fold_plain(Seq::<Seq<char>>::empty(), segs);
    assert(Seq::<Seq<char>>::empty() + segs =~= segs);
}

/// Resolving is stable: a document path that the shell resolved (with a current
/// directory made of valid names) resolves to itself from the root, unless it
/// starts or ends in whitespace, which the trim of the input would cut off.
pub proof fn law_doc_path_stable(p: Seq<char>, cwd: Option<Seq<char>>)
    requires
        crate::paths::valid_segments(cwd_segments(cwd)),
        spec_doc_path(p, cwd) is Ok,
        !crate::text::is_ws(spec_doc_path(p, cwd)->Ok_0[0]),
        !crate::text::is_ws(spec_doc_path(p, cwd)->Ok_0.last()),
    ensures
        spec_doc_path(spec_doc_path(p, cwd)->Ok_0, None) == spec_doc_path(p, cwd),
{
    let segs = lemma_doc_path_names(p, cwd);
    lemma_joined_names_resolve(segs);
}

/// Resolving a tree scope is stable in the same way: the scope that the shell
/// resolved resolves to itself from the root (`/` included), unless it starts or
/// ends in whitespace.
pub proof fn law_tree_scope_stable(dir: Seq<char>, cwd: Option<Seq<char>>)
    requires
        crate::paths::valid_segments(cwd_segments(cwd)),
        spec_tree_scope(dir, cwd) is Ok,
        !crate::text::is_ws(spec_tree_scope(dir, cwd)->Ok_0[0]),
        !crate::text::is_ws(spec_tree_scope(dir, cwd)->Ok_0.last()),
    ensures
        spec_tree_scope(spec_tree_scope(dir, cwd)->Ok_0, None) == spec_tree_scope(dir, cwd),
{
    let d = trim(dir);
    let empty = Seq::<Seq<char>>::empty();
    assert(crate::paths::valid_segments(empty));
    let root = seq!['/'];
    if d == root {
        assert(root.len() == 1 && root[0] == '/');
        crate::text::lemma_trim_noop(root);
    } else {
        let segs = if starts_with(d, root) {
            let parts = pieces(trim(d));
            crate::paths::lemma_fold_valid(empty, parts);
            fold_segments(empty, parts)->Ok_0
        } else {
            let parts = pieces(trim(drop_back(d, slash())));
            crate::paths::lemma_fold_valid(cwd_segments(cwd), parts);
            fold_segments(cwd_segments(cwd), parts)->Ok_0
        };
        if segs.len() == 0 {
            assert(root.len() == 1 && root[0] == '/');
            crate::text::lemma_trim_noop(root);
        } else {
            lemma_joined_names_resolve(segs);
        }
    }
}

/// `cd` always lands on an absolute path: it starts with `/`, and apart from
/// the root itself it never ends in `/` (with a current directory made of
/// valid names).
pub proof fn law_cd_path_shape(target: Seq<char>, cwd: Option<Seq<char>>)
    requires
        crate::paths::valid_segments(cwd_segments(cwd)),
        spec_merge_cd_path(target, cwd) is Ok,
    ensures
        spec_merge_cd_path(target, cwd)->Ok_0.len() > 0,
        spec_merge_cd_path(target, cwd)->Ok_0[0] == '/',
        spec_merge_cd_path(target, cwd)->Ok_0 != seq!['/'] ==> spec_merge_cd_path(target, cwd)->Ok_0.last() != '/',
{
    let t = trim(target);
    let d = trim(t);
    let root = seq!['/'];
    let empty = Seq::<Seq<char>>::empty();
    assert(crate::paths::valid_segments(empty));
    let r = spec_merge_cd_path(target, cwd)->Ok_0;
    if spec_tree_scope(t, cwd)->Ok_0 != root {
        let segs = if starts_with(d, root) {
            let parts = pieces(trim(d));
            crate::paths::lemma_fold_valid(empty, parts);
            fold_segments(empty, parts)->Ok_0
        } else {
            let parts = pieces(trim(drop_back(d, slash())));
            crate::paths::lemma_fold_valid(cwd_segments(cwd), parts);
            fold_segments(cwd_segments(cwd), parts)->Ok_0
        };
        assert(d != root);
        assert(segs.len() > 0);
        assert(spec_tree_scope(t, cwd)->Ok_0 == join_with(segs, '/'));
        crate::paths::lemma_valid_plain(segs);
        crate::text::lemma_join_ends(segs);
        let j = join_with(segs, '/');
        assert(r =~= root + j);
        assert(r.last() == j.last());
        assert(r != root) by {
            assert(r.len() == j.len() + 1);
        }
    }
}

} // verus!

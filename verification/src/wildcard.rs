//! Wildcards (`*`, `?`, `[..]`) in the last segment of a path: which entries
//! of the parent directory a pattern selects, and in what order they come.

use vstd::prelude::*;
use crate::text::{chars_of, string_of, owned, last_index, rfind_char, copy_range, append_chars};
use crate::shell_path::spec_has_glob;
use crate::listing::{path_has_glob_metachar, spec_join_abs_dir_entry, join_abs_dir_entry};
use crate::ls::ListedEntryRow;
use crate::order::{keyed, sorted_stably, sorted_texts, sort_by_key, sort_texts};
use crate::shell_path::strings_view;

verus! {

#[verifier::external_type_specification]
#[verifier::external_body]
pub struct ExGlobMatcher(globset::GlobMatcher);

/// What globset makes of a name pattern (built with `literal_separator`, so
/// that no wildcard crosses a `/`): `Ok` when it builds, else globset's
/// message for it.
pub uninterp spec fn glob_outcome(pattern: Seq<char>) -> Result<(), Seq<char>>;

/// Whether the matcher built from `pattern` accepts the entry name `name`.
pub uninterp spec fn glob_accepts(pattern: Seq<char>, name: Seq<char>) -> bool;

/// A compiled name pattern, with the text it was compiled from.
pub struct NameGlob {
    pattern: String,
    matcher: globset::GlobMatcher,
}

impl NameGlob {
    /// The pattern this matcher was built from.
    pub closed spec fn source(self) -> Seq<char> {
        self.pattern@
    }

    pub fn pattern(&self) -> (r: &str)
        ensures
            r@ == self.source(),
    {
        self.pattern.as_str()
    }
}

/// What the regex crate's `bytes::RegexBuilder` gives for the regex text that
/// globset makes of `pattern` (`Glob::regex`), configured as globset configures
/// the matcher it compiles (`dot_matches_new_line`, a 10 MiB NFA limit, a
/// 10 MiB lazy-DFA cache, the default nesting limit of 250): `Ok` when it
/// compiles, else the regex crate's message.
pub uninterp spec fn glob_regex_outcome(pattern: Seq<char>) -> Result<(), Seq<char>>;

/// Whether a name pattern can be compiled: globset must build it, and its regex
/// text must compile; the first refusal gives the message.
pub open spec fn glob_build(pattern: Seq<char>) -> Result<(), Seq<char>> {
    if glob_outcome(pattern) is Err {
        glob_outcome(pattern)
    } else {
        glob_regex_outcome(pattern)
    }
}

/// globset's `GlobBuilder::new(pattern).literal_separator(true).build()`; then
/// the regex crate's `bytes::RegexBuilder` on `Glob::regex` with the settings
/// of globset's own matcher compile; then `Glob::compile_matcher`, which is
/// reached only once that compile has succeeded (on a regex that fails it,
/// `compile_matcher` would panic). Claimed: a globset refusal comes back with
/// globset's message (`Error`'s `Display`); after a successful build, the
/// result is `Ok` exactly when `glob_regex_outcome` is `Ok`, and a refusal
/// carries the regex crate's message; the matcher keeps the pattern it came
/// from.
#[verifier::external_body]
fn build_name_glob(pattern: &str) -> (r: Result<NameGlob, String>)
    ensures
        glob_outcome(pattern@) is Err ==> r is Err && r->Err_0@ == glob_outcome(pattern@)->Err_0,
        glob_outcome(pattern@) is Ok ==> (r is Ok <==> glob_regex_outcome(pattern@) is Ok),
        glob_outcome(pattern@) is Ok && r is Err ==> r->Err_0@ == glob_regex_outcome(pattern@)->Err_0,
        r matches Ok(g) ==> g.source() == pattern@,
{
    match globset::GlobBuilder::new(pattern).literal_separator(true).build() {
        Err(e) => Err(e.to_string()),
        Ok(glob) => match regex::bytes::RegexBuilder::new(glob.regex())
            .dot_matches_new_line(true)
            .size_limit(10485760)
            .dfa_size_limit(10485760)
            .build()
        {
            Err(e) => Err(e.to_string()),
            Ok(_) => Ok(NameGlob { pattern: pattern.to_string(), matcher: glob.compile_matcher() }),
        },
    }
}

/// globset's `GlobMatcher::is_match` on an entry name. Claimed: the answer is
/// `glob_accepts` of the matcher's pattern and the name.
#[verifier::external_body]
fn glob_is_match(glob: &NameGlob, name: &str) -> (b: bool)
    ensures
        b == glob_accepts(glob.source(), name@),
{
    glob.matcher.is_match(name)
}

/// The error text of a refused name pattern.
pub open spec fn glob_error(pattern: Seq<char>) -> Seq<char> {
    "invalid glob pattern: "@ + glob_build(pattern)->Err_0
}

/// Compiles a name pattern; a pattern that globset refuses, or whose regex is
/// too deep or too large to compile, is reported as
/// `invalid glob pattern: <the reason>`.
pub fn compile_name_glob(pattern: &str) -> (r: Result<NameGlob, String>)
    ensures
        r is Ok <==> glob_build(pattern@) is Ok,
        r matches Ok(g) ==> g.source() == pattern@,
        r matches Err(e) ==> e@ == glob_error(pattern@),
{
    match build_name_glob(pattern) {
        Ok(g) => Ok(g),
        Err(reason) => {
            let mut v = chars_of("invalid glob pattern: ");
            append_chars(&mut v, chars_of(reason.as_str()).as_slice());
            Err(string_of(v.as_slice()))
        },
    }
}

/// The parent directory and the last segment of a path: everything before
/// the last `/` (the root when that is empty) and everything after it.
pub open spec fn spec_split_final(path: Seq<char>) -> Option<(Seq<char>, Seq<char>)> {
    match last_index(path, '/') {
        None => None,
        Some(i) => {
            let p = path.take(i as int);
            Some((if p.len() == 0 { seq!['/'] } else { p }, path.skip(i + 1int)))
        },
    }
}

pub fn split_final_segment(path: &str) -> (r: Option<(String, String)>)
    ensures
        match r {
            Some((p, n)) => spec_split_final(path@) == Some((p@, n@)),
            None => spec_split_final(path@) is None,
        },
{
    let v = chars_of(path);
    let len = v.len();
    match rfind_char(v.as_slice(), '/') {
        None => None,
        Some(i) => {
            let p = if i == 0 {
                let mut r: Vec<char> = Vec::new();
                r.push('/');
                r
            } else {
                copy_range(v.as_slice(), 0, i)
            };
            let n = copy_range(v.as_slice(), i + 1, len);
            assert(v@.subrange(0, i as int) =~= v@.take(i as int));
            assert(v@.subrange(i + 1, v@.len() as int) =~= v@.skip(i + 1));
            assert(i == 0 ==> p@ =~= seq!['/']);
            Some((string_of(p.as_slice()), string_of(n.as_slice())))
        },
    }
}

/// What a path with a wildcard in its last segment selects from: its parent
/// directory and the compiled pattern.
pub struct GlobScope {
    pub parent: String,
    pub glob: NameGlob,
}

/// How a normalized path is read when it may hold wildcards: `Ok(None)` when
/// it is the root or its last segment has none (the path names one entry);
/// otherwise the parent to list and the pattern, or the reason it is refused.
pub open spec fn spec_glob_scope(path: Seq<char>) -> Result<Option<Seq<char>>, Seq<char>> {
    if path == seq!['/'] {
        Ok(None)
    } else {
        match spec_split_final(path) {
            None => Err("invalid path"@),
            Some((parent, last)) => if !spec_has_glob(last) {
                Ok(None)
            } else if spec_has_glob(parent) {
                Err("wildcards are only allowed in the final path segment"@)
            } else if glob_build(last) is Err {
                Err(glob_error(last))
            } else {
                Ok(Some(parent))
            },
        }
    }
}

/// The scope of a wildcard path (`Ok(Some(..))`: parent and pattern), or
/// `Ok(None)` for a path without wildcards in its last segment.
pub fn glob_scope(normalized_path: &str) -> (r: Result<Option<GlobScope>, String>)
    ensures
        match r {
            Ok(None) => spec_glob_scope(normalized_path@) == Ok::<Option<Seq<char>>, Seq<char>>(
                None,
            ),
            Ok(Some(s)) => spec_glob_scope(normalized_path@) == Ok::<Option<Seq<char>>, Seq<char>>(
                Some(s.parent@),
            ) && s.glob.source() == spec_split_final(normalized_path@)->Some_0.1,
            Err(e) => spec_glob_scope(normalized_path@) == Err::<Option<Seq<char>>, Seq<char>>(e@),
        },
{
    let v = chars_of(normalized_path);
    if v.len() == 1 && v[0] == '/' {
        assert(normalized_path@ =~= seq!['/']);
        return Ok(None);
    }
    assert(normalized_path@ != seq!['/']);
    match split_final_segment(normalized_path) {
        None => {
            proof {
                reveal_strlit("invalid path");
            }
            Err(owned("invalid path"))
        },
        Some((parent, last)) => {
            if !path_has_glob_metachar(last.as_str()) {
                Ok(None)
            } else if path_has_glob_metachar(parent.as_str()) {
                Err(owned("wildcards are only allowed in the final path segment"))
            } else {
                match compile_name_glob(last.as_str()) {
                    Err(e) => Err(e),
                    Ok(g) => Ok(Some(GlobScope { parent, glob: g })),
                }
            }
        },
    }
}

/// The rows whose name the pattern accepts, in their order.
pub open spec fn accepted(rows: Seq<ListedEntryRow>, pattern: Seq<char>) -> Seq<ListedEntryRow>
    decreases rows.len(),
{
    if rows.len() == 0 {
        seq![]
    } else {
        let kept = accepted(rows.drop_last(), pattern);
        if glob_accepts(pattern, rows.last().name@) {
            kept.push(rows.last())
        } else {
            kept
        }
    }
}

/// Each row paired with its full path under `parent`.
pub open spec fn with_paths(parent: Seq<char>, rows: Seq<ListedEntryRow>) -> Seq<(Seq<char>, ListedEntryRow)> {
    rows.map_values(|r: ListedEntryRow| (spec_join_abs_dir_entry(parent, r.name@), r))
}

/// The entries of the scope's parent directory that the pattern selects, each
/// with its full path, ordered by path (entries with equal paths keep their
/// order); when none is selected, `no entries match <path>`.
pub fn select_glob_entries(scope: &GlobScope, rows: Vec<ListedEntryRow>, normalized_path: &str) -> (r:
    Result<Vec<(String, ListedEntryRow)>, String>)
    ensures
        match r {
            Ok(out) => accepted(rows@, scope.glob.source()).len() > 0 && exists|p: Seq<int>|
                sorted_stably(
                    keyed(out@),
                    with_paths(scope.parent@, accepted(rows@, scope.glob.source())),
                    p,
                ),
            Err(e) => accepted(rows@, scope.glob.source()).len() == 0 && e@ == "no entries match "@
                + normalized_path@,
        },
{
    let mut pending = rows;
    let ghost all = pending@;
    let ghost src = scope.glob.source();
    let ghost parent = scope.parent@;
    let n = pending.len();
    let mut tagged: Vec<(String, ListedEntryRow)> = Vec::new();
    let mut i: usize = 0;
    while i < n
        invariant
            n == all.len(),
            i <= n,
            pending@ == all.skip(i as int),
            src == scope.glob.source(),
            parent == scope.parent@,
            keyed(tagged@) == with_paths(parent, accepted(all.take(i as int), src)),
        decreases n - i,
    {
        let ghost before = pending@;
        assert(before.len() == n - i);
        let row = pending.remove(0);
        assert(row == all[i as int]) by {
            assert(before[0] == all.skip(i as int)[0]);
        }
        assert(pending@ =~= all.skip(i + 1));
        let ghost prev = accepted(all.take(i as int), src);
        assert(all.take(i + 1).drop_last() =~= all.take(i as int));
        assert(all.take(i + 1).last() == row);
        if glob_is_match(&scope.glob, row.name.as_str()) {
            let path = join_abs_dir_entry(scope.parent.as_str(), row.name.as_str());
            let ghost old_tagged = tagged@;
            tagged.push((path, row));
            assert(keyed(tagged@) =~= keyed(old_tagged).push((path@, row)));
            assert(with_paths(parent, prev.push(row)) =~= with_paths(parent, prev).push(
                (spec_join_abs_dir_entry(parent, row.name@), row),
            ));
        }
        i = i + 1;
    }
    assert(all.take(n as int) =~= all);
    let ghost unsorted = keyed(tagged@);
    sort_by_key(&mut tagged);
    let ghost p = choose|p: Seq<int>| sorted_stably(keyed(tagged@), unsorted, p);
    assert(sorted_stably(keyed(tagged@), unsorted, p));
    assert(unsorted == with_paths(scope.parent@, accepted(all, scope.glob.source())));
    assert(sorted_stably(keyed(tagged@), with_paths(scope.parent@, accepted(all, scope.glob.source())), p));
    assert(unsorted.len() == accepted(all, src).len());
    if tagged.len() == 0 {
        let mut v = chars_of("no entries match ");
        append_chars(&mut v, chars_of(normalized_path).as_slice());
        Err(string_of(v.as_slice()))
    } else {
        let ghost tv = tagged@;
        let res: Result<Vec<(String, ListedEntryRow)>, String> = Ok(tagged);
        assert(res->Ok_0@ == tv);
        res
    }
}

/// The paths of the entries that are documents, in their order.
pub open spec fn file_paths(entries: Seq<(Seq<char>, ListedEntryRow)>) -> Seq<Seq<char>>
    decreases entries.len(),
{
    if entries.len() == 0 {
        seq![]
    } else {
        let kept = file_paths(entries.drop_last());
        if entries.last().1.kind == 1 {
            kept.push(entries.last().0)
        } else {
            kept
        }
    }
}

/// The documents among the entries a wildcard selected, as sorted paths; when
/// there is none, `no files match <user path>`.
pub fn read_file_paths(entries: Vec<(String, ListedEntryRow)>, user_path: &str) -> (r: Result<
    Vec<String>,
    String,
>)
    ensures
        match r {
            Ok(v) => file_paths(keyed(entries@)).len() > 0 && exists|p: Seq<int>|
                sorted_texts(strings_view(v@), file_paths(keyed(entries@)), p),
            Err(e) => file_paths(keyed(entries@)).len() == 0 && e@ == "no files match "@
                + user_path@,
        },
{
    let mut pending = entries;
    let ghost all = keyed(pending@);
    let n = pending.len();
    let mut paths: Vec<String> = Vec::new();
    let mut i: usize = 0;
    while i < n
        invariant
            n == all.len(),
            i <= n,
            keyed(pending@) == all.skip(i as int),
            strings_view(paths@) == file_paths(all.take(i as int)),
        decreases n - i,
    {
        let ghost before = pending@;
        assert(keyed(before).len() == n - i);
        let (path, row) = pending.remove(0);
        assert(keyed(before)[0] == all.skip(i as int)[0]);
        assert((path@, row) == all[i as int]);
        assert(keyed(pending@) =~= all.skip(i + 1)) by {
            assert forall|k: int| 0 <= k < pending@.len() implies #[trigger] keyed(pending@)[k]
                == all.skip(i + 1)[k] by {
                assert(pending@[k] == before[k + 1]);
                assert(keyed(before)[k + 1] == all.skip(i as int)[k + 1]);
            }
        }
        assert(all.take(i + 1).drop_last() =~= all.take(i as int));
        assert(all.take(i + 1).last() == (path@, row));
        if row.is_file() {
            paths.push(path);
            assert(strings_view(paths@) =~= file_paths(all.take(i as int)).push(path@));
        }
        i = i + 1;
    }
    assert(all.take(n as int) =~= all);
    let ghost found = strings_view(paths@);
    let sorted = sort_texts(paths);
    if sorted.len() == 0 {
        let mut v = chars_of("no files match ");
        append_chars(&mut v, chars_of(user_path).as_slice());
        Err(string_of(v.as_slice()))
    } else {
        let ghost sv = sorted@;
        let res: Result<Vec<String>, String> = Ok(sorted);
        assert(res->Ok_0@ == sv);
        res
    }
}

/// What `rm` with a wildcard removes: the documents of one directory whose
/// names match, or the entries of the root whose names match.
pub enum RmGlob {
    Documents { parent: String, glob: NameGlob },
    RootEntries { glob: NameGlob },
}

/// The reading of an `rm` path: `Ok(None)` when it holds no wildcard (a
/// literal path); `Ok(Some((Some(parent), pattern)))` for documents of one
/// directory; `Ok(Some((None, pattern)))` for entries of the root.
pub open spec fn spec_rm_glob(path: Seq<char>, recursive: bool) -> Result<
    Option<(Option<Seq<char>>, Seq<char>)>,
    Seq<char>,
> {
    if !spec_has_glob(path) {
        Ok(None)
    } else if path.contains('/') {
        if recursive {
            Err("rm: -r/--recursive with globs: use literal directory path (no wildcards in parent)"@)
        } else {
            match crate::paths::spec_normalize_path(path) {
                Err(e) => Err(e),
                Ok(full) => match last_index(full, '/') {
                    None => Err("rm: invalid path"@),
                    Some(i) => {
                        let p = full.take(i as int);
                        let parent = if p.len() == 0 { seq!['/'] } else { p };
                        let pattern = full.skip(i + 1int);
                        if spec_has_glob(parent) {
                            Err("rm: parent path must be literal (no wildcards)"@)
                        } else if glob_build(pattern) is Err {
                            Err(glob_error(pattern))
                        } else {
                            Ok(Some((Some(parent), pattern)))
                        }
                    },
                },
            }
        }
    } else if glob_build(path) is Err {
        Err(glob_error(path))
    } else {
        Ok(Some((None, path)))
    }
}

pub open spec fn rm_glob_view(g: RmGlob) -> (Option<Seq<char>>, Seq<char>) {
    match g {
        RmGlob::Documents { parent, glob } => (Some(parent@), glob.source()),
        RmGlob::RootEntries { glob } => (None, glob.source()),
    }
}

/// How `rm` reads its path argument when it may hold wildcards (`None`: a
/// literal path, removed as it is).
pub fn rm_glob_target(path: &str, recursive: bool) -> (r: Result<Option<RmGlob>, String>)
    ensures
        match r {
            Ok(None) => spec_rm_glob(path@, recursive) is Ok && spec_rm_glob(path@, recursive)->Ok_0
                is None,
            Ok(Some(g)) => spec_rm_glob(path@, recursive) is Ok && spec_rm_glob(path@, recursive)->Ok_0
                == Some(rm_glob_view(g)),
            Err(e) => spec_rm_glob(path@, recursive) is Err && spec_rm_glob(path@, recursive)->Err_0
                == e@,
        },
{
    if !path_has_glob_metachar(path) {
        return Ok(None);
    }
    let v = chars_of(path);
    if crate::text::has_char(v.as_slice(), '/') {
        if recursive {
            return Err(
                owned("rm: -r/--recursive with globs: use literal directory path (no wildcards in parent)"),
            );
        }
        let full = match crate::paths::normalize_path(path) {
            Err(e) => {
                return Err(e);
            },
            Ok(f) => f,
        };
        let fv = chars_of(full.as_str());
        let len = fv.len();
        match rfind_char(fv.as_slice(), '/') {
            None => Err(owned("rm: invalid path")),
            Some(i) => {
                let parent_chars = if i == 0 {
                    let mut r: Vec<char> = Vec::new();
                    r.push('/');
                    r
                } else {
                    copy_range(fv.as_slice(), 0, i)
                };
                let pattern_chars = copy_range(fv.as_slice(), i + 1, len);
                assert(fv@.subrange(0, i as int) =~= fv@.take(i as int));
                assert(fv@.subrange(i + 1, len as int) =~= fv@.skip(i + 1));
                assert(i == 0 ==> parent_chars@ =~= seq!['/']);
                let parent = string_of(parent_chars.as_slice());
                let pattern = string_of(pattern_chars.as_slice());
                if path_has_glob_metachar(parent.as_str()) {
                    Err(owned("rm: parent path must be literal (no wildcards)"))
                } else {
                    match compile_name_glob(pattern.as_str()) {
                        Err(e) => Err(e),
                        Ok(g) => Ok(Some(RmGlob::Documents { parent, glob: g })),
                    }
                }
            },
        }
    } else {
        match compile_name_glob(path) {
            Err(e) => Err(e),
            Ok(g) => Ok(Some(RmGlob::RootEntries { glob: g })),
        }
    }
}

/// The paths of the documents (given as name and path) whose name the
/// pattern accepts, in their order.
pub open spec fn document_hits(docs: Seq<(Seq<char>, Seq<char>)>, pattern: Seq<char>) -> Seq<Seq<char>>
    decreases docs.len(),
{
    if docs.len() == 0 {
        seq![]
    } else {
        let kept = document_hits(docs.drop_last(), pattern);
        if glob_accepts(pattern, docs.last().0) {
            kept.push(docs.last().1)
        } else {
            kept
        }
    }
}

pub open spec fn text_pairs(s: Seq<(String, String)>) -> Seq<(Seq<char>, Seq<char>)> {
    s.map_values(|e: (String, String)| (e.0@, e.1@))
}

/// `rm dir/pattern`: the paths of the directory's documents (each given as
/// name and path) that the pattern selects, sorted; when none does,
/// `rm: no documents match <path>`.
pub fn rm_document_hits(glob: &NameGlob, docs: Vec<(String, String)>, path: &str) -> (r: Result<
    Vec<String>,
    String,
>)
    ensures
        match r {
            Ok(v) => document_hits(text_pairs(docs@), glob.source()).len() > 0 && exists|p: Seq<int>|
                sorted_texts(strings_view(v@), document_hits(text_pairs(docs@), glob.source()), p),
            Err(e) => document_hits(text_pairs(docs@), glob.source()).len() == 0 && e@
                == "rm: no documents match "@ + path@,
        },
{
    let mut pending = docs;
    let ghost all = text_pairs(pending@);
    let ghost src = glob.source();
    let n = pending.len();
    let mut hits: Vec<String> = Vec::new();
    let mut i: usize = 0;
    while i < n
        invariant
            n == all.len(),
            i <= n,
            src == glob.source(),
            text_pairs(pending@) == all.skip(i as int),
            strings_view(hits@) == document_hits(all.take(i as int), src),
        decreases n - i,
    {
        let ghost before = pending@;
        assert(text_pairs(before).len() == n - i);
        let (name, doc_path) = pending.remove(0);
        assert(text_pairs(before)[0] == all.skip(i as int)[0]);
        assert((name@, doc_path@) == all[i as int]);
        assert(text_pairs(pending@) =~= all.skip(i + 1)) by {
            assert forall|k: int| 0 <= k < pending@.len() implies #[trigger] text_pairs(pending@)[k]
                == all.skip(i + 1)[k] by {
                assert(pending@[k] == before[k + 1]);
                assert(text_pairs(before)[k + 1] == all.skip(i as int)[k + 1]);
            }
        }
        assert(all.take(i + 1).drop_last() =~= all.take(i as int));
        assert(all.take(i + 1).last() == (name@, doc_path@));
        if glob_is_match(glob, name.as_str()) {
            hits.push(doc_path);
            assert(strings_view(hits@) =~= document_hits(all.take(i as int), src).push(
                all[i as int].1,
            ));
        }
        i = i + 1;
    }
    assert(all.take(n as int) =~= all);
    let sorted = sort_texts(hits);
    if sorted.len() == 0 {
        let mut v = chars_of("rm: no documents match ");
        append_chars(&mut v, chars_of(path).as_slice());
        Err(string_of(v.as_slice()))
    } else {
        let ghost sv = sorted@;
        let res: Result<Vec<String>, String> = Ok(sorted);
        assert(res->Ok_0@ == sv);
        res
    }
}

/// A root entry name as an absolute path (`/` in front unless it has one).
pub open spec fn rooted_name(name: Seq<char>) -> Seq<char> {
    if name.len() > 0 && name[0] == '/' {
        name
    } else {
        seq!['/'] + name
    }
}

/// The root entries (by name) that the pattern selects, as absolute paths,
/// in their order.
pub open spec fn root_hits(names: Seq<Seq<char>>, pattern: Seq<char>) -> Seq<Seq<char>>
    decreases names.len(),
{
    if names.len() == 0 {
        seq![]
    } else {
        let kept = root_hits(names.drop_last(), pattern);
        if glob_accepts(pattern, names.last()) {
            kept.push(rooted_name(names.last()))
        } else {
            kept
        }
    }
}

/// `rm pattern` without a `/`: the root entries whose names the pattern
/// selects, as sorted absolute paths; when none does, `rm: no entries match
/// <path>`.
pub fn rm_root_targets(glob: &NameGlob, names: Vec<String>, path: &str) -> (r: Result<
    Vec<String>,
    String,
>)
    ensures
        match r {
            Ok(v) => root_hits(strings_view(names@), glob.source()).len() > 0 && exists|p: Seq<int>|
                sorted_texts(strings_view(v@), root_hits(strings_view(names@), glob.source()), p),
            Err(e) => root_hits(strings_view(names@), glob.source()).len() == 0 && e@
                == "rm: no entries match "@ + path@,
        },
{
    let ghost all = strings_view(names@);
    let ghost src = glob.source();
    let n = names.len();
    let mut targets: Vec<String> = Vec::new();
    let mut i: usize = 0;
    while i < n
        invariant
            n == all.len(),
            all == strings_view(names@),
            i <= n,
            src == glob.source(),
            strings_view(targets@) == root_hits(all.take(i as int), src),
        decreases n - i,
    {
        let name = names[i].as_str();
        assert(name@ == all[i as int]);
        assert(all.take(i + 1).drop_last() =~= all.take(i as int));
        assert(all.take(i + 1).last() == name@);
        if glob_is_match(glob, name) {
            let nv = chars_of(name);
            let t = if nv.len() > 0 && nv[0] == '/' {
                string_of(nv.as_slice())
            } else {
                let mut w: Vec<char> = Vec::new();
                w.push('/');
                append_chars(&mut w, nv.as_slice());
                assert(w@ =~= seq!['/'] + name@);
                string_of(w.as_slice())
            };
            targets.push(t);
            assert(strings_view(targets@) =~= root_hits(all.take(i as int), src).push(
                rooted_name(name@),
            ));
        }
        i = i + 1;
    }
    assert(all.take(n as int) =~= all);
    let sorted = sort_texts(targets);
    if sorted.len() == 0 {
        let mut v = chars_of("rm: no entries match ");
        append_chars(&mut v, chars_of(path).as_slice());
        Err(string_of(v.as_slice()))
    } else {
        let ghost sv = sorted@;
        let res: Result<Vec<String>, String> = Ok(sorted);
        assert(res->Ok_0@ == sv);
        res
    }
}

/// What `rm` removes for a path without wildcards.
pub enum RmLiteral {
    /// `rm -r /dir`: the top-level directory, recursively.
    TopDirectory { path: String },
    /// The document at the path, or else the directory there.
    Path { path: String },
}

/// `Ok((true, p))` for a recursive removal of the top-level directory `p`,
/// `Ok((false, p))` for the normalized path `p`, or why it is refused.
pub open spec fn spec_rm_literal(path: Seq<char>, recursive: bool) -> Result<(bool, Seq<char>), Seq<char>> {
    if recursive && crate::listing::spec_rm_absolute_single_segment(path) is Some {
        Ok((true, crate::listing::spec_rm_absolute_single_segment(path)->Some_0))
    } else {
        match crate::paths::spec_normalize_path(crate::text::drop_back(path, crate::shell_path::slash())) {
            Ok(n) => Ok((false, n)),
            Err(e) => Err(e),
        }
    }
}

pub fn rm_literal_target(path: &str, recursive: bool) -> (r: Result<RmLiteral, String>)
    ensures
        match r {
            Ok(RmLiteral::TopDirectory { path: p }) => spec_rm_literal(path@, recursive) == Ok::<
                (bool, Seq<char>),
                Seq<char>,
            >((true, p@)),
            Ok(RmLiteral::Path { path: p }) => spec_rm_literal(path@, recursive) == Ok::<
                (bool, Seq<char>),
                Seq<char>,
            >((false, p@)),
            Err(e) => spec_rm_literal(path@, recursive) == Err::<(bool, Seq<char>), Seq<char>>(e@),
        },
{
    if recursive {
        match crate::listing::rm_absolute_single_segment(path) {
            Some(p) => {
                return Ok(RmLiteral::TopDirectory { path: p });
            },
            None => {},
        }
    }
    match crate::paths::normalize_path(crate::listing::normalize_mv_segment(path)) {
        Ok(n) => Ok(RmLiteral::Path { path: n }),
        Err(e) => Err(e),
    }
}

} // verus!

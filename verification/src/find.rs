//! `find`: which entries of a subtree a name matches, the order the hits are
//! listed in (exact name matches first, directories before documents, then by
//! path), and how each hit is shown.

use vstd::prelude::*;
use crate::highlight::{first_match, first_match_from, lowercase, to_lower};
use crate::listing::{join_abs_dir_entry, opt_str_view, spec_join_abs_dir_entry};
use crate::ls::{is_perm, lex_lt, lex_less, lemma_lex_asym, lemma_lex_total, lemma_lex_trans};
use crate::text::{
    append_chars, chars_eq, chars_of, last_index, owned, rfind_char, copy_range, string_of,
};

verus! {

/// One hit of `find`. Times are nanoseconds since the Unix epoch.
pub struct FindRow {
    pub exact: bool,
    /// 0 for a directory, 1 for a document.
    pub kind: u8,
    pub label: String,
    pub modified_at: u64,
    pub description: Option<String>,
}

/// Text order, `None` before any text.
pub open spec fn opt_text_order(a: Option<Seq<char>>, b: Option<Seq<char>>) -> int {
    match (a, b) {
        (None, None) => 0,
        (None, Some(_)) => -1,
        (Some(_), None) => 1,
        (Some(x), Some(y)) => if x == y {
            0
        } else if lex_lt(x, y) {
            -1
        } else {
            1
        },
    }
}

/// The order of hits: exact matches first, then by kind, path, time and
/// description.
pub open spec fn find_order(a: FindRow, b: FindRow) -> int {
    if a.exact != b.exact {
        if a.exact {
            -1
        } else {
            1
        }
    } else if a.kind != b.kind {
        if a.kind < b.kind {
            -1
        } else {
            1
        }
    } else if a.label@ != b.label@ {
        if lex_lt(a.label@, b.label@) {
            -1
        } else {
            1
        }
    } else if a.modified_at != b.modified_at {
        if a.modified_at < b.modified_at {
            -1
        } else {
            1
        }
    } else {
        opt_text_order(opt_str_view(a.description), opt_str_view(b.description))
    }
}

proof fn lemma_text_order(x: Seq<char>, y: Seq<char>)
    ensures
        x != y ==> (lex_lt(x, y) <==> !lex_lt(y, x)),
{
    lemma_lex_asym(x, y);
    lemma_lex_total(x, y);
}

pub proof fn lemma_find_order_antisym(a: FindRow, b: FindRow)
    ensures
        find_order(a, b) == -find_order(b, a),
        -1 <= find_order(a, b) <= 1,
{
    lemma_text_order(a.label@, b.label@);
    lemma_text_order(b.label@, a.label@);
    match (opt_str_view(a.description), opt_str_view(b.description)) {
        (Some(x), Some(y)) => {
            lemma_text_order(x, y);
            lemma_text_order(y, x);
        },
        _ => {},
    }
}

pub proof fn lemma_find_order_trans(a: FindRow, b: FindRow, c: FindRow)
    ensures
        find_order(a, b) <= 0 && find_order(b, c) <= 0 ==> find_order(a, c) <= 0,
{
    lemma_text_order(a.label@, b.label@);
    lemma_text_order(b.label@, c.label@);
    lemma_text_order(a.label@, c.label@);
    lemma_lex_trans(a.label@, b.label@, c.label@);
    lemma_lex_asym(a.label@, c.label@);
    match (opt_str_view(a.description), opt_str_view(b.description), opt_str_view(c.description)) {
        (Some(x), Some(y), Some(z)) => {
            lemma_text_order(x, y);
            lemma_text_order(y, z);
            lemma_text_order(x, z);
            lemma_lex_trans(x, y, z);
            lemma_lex_asym(x, z);
        },
        _ => {},
    }
}

/// Hits in the order `find` lists them.
pub open spec fn find_sorted(s: Seq<FindRow>) -> bool {
    forall|i: int, j: int| 0 <= i < j < s.len() ==> find_order(#[trigger] s[i], #[trigger] s[j]) <= 0
}

fn text_order(a: &str, b: &str) -> (r: i8)
    ensures
        r as int == opt_text_order(Some(a@), Some(b@)),
{
    if chars_eq(chars_of(a).as_slice(), chars_of(b).as_slice()) {
        0
    } else if lex_less(a, b) {
        -1
    } else {
        1
    }
}

fn find_order_of(a: &FindRow, b: &FindRow) -> (r: i8)
    ensures
        r as int == find_order(*a, *b),
{
    if a.exact != b.exact {
        if a.exact {
            -1
        } else {
            1
        }
    } else if a.kind != b.kind {
        if a.kind < b.kind {
            -1
        } else {
            1
        }
    } else {
        let l = text_order(a.label.as_str(), b.label.as_str());
        if l != 0 {
            l
        } else if a.modified_at != b.modified_at {
            if a.modified_at < b.modified_at {
                -1
            } else {
                1
            }
        } else {
            match (&a.description, &b.description) {
                (None, None) => 0,
                (None, Some(_)) => -1,
                (Some(_), None) => 1,
                (Some(x), Some(y)) => text_order(x.as_str(), y.as_str()),
            }
        }
    }
}

/// Sorts the hits of `find` into the order they are listed in.
pub fn sort_find_rows(rows: &mut Vec<FindRow>)
    ensures
        exists|p: Seq<int>|
            #![trigger is_perm(p, old(rows)@.len() as int)]
            is_perm(p, old(rows)@.len() as int) && final(rows)@.len() == old(rows)@.len() && (forall|
                k: int,
            |
                0 <= k < final(rows)@.len() ==> #[trigger] final(rows)@[k] == old(rows)@[p[k]]),
        find_sorted(final(rows)@),
{
    let ghost input = rows@;
    let n = rows.len();
    let ghost mut p: Seq<int> = seq![];
    let mut i: usize = 0;
    while i < n
        invariant
            n == input.len(),
            rows@.len() == n,
            i <= n,
            rows@.skip(i as int) == input.skip(i as int),
            p.len() == i,
            forall|k: int| 0 <= k < i ==> 0 <= #[trigger] p[k] < i,
            forall|k: int, m: int| 0 <= k < m < i ==> #[trigger] p[k] != #[trigger] p[m],
            forall|k: int| 0 <= k < i ==> #[trigger] rows@[k] == input[p[k]],
            find_sorted(rows@.take(i as int)),
        decreases n - i,
    {
        let ghost before_rows = rows@;
        let x = rows.remove(i);
        assert(x == input[i as int]) by {
            assert(before_rows.skip(i as int)[0] == before_rows[i as int]);
            assert(input.skip(i as int)[0] == input[i as int]);
        }
        let mut j: usize = i;
        while j > 0 && find_order_of(&x, &rows[j - 1]) < 0
            invariant
                j <= i,
                i < n,
                rows@.len() == n - 1,
                rows@ == before_rows.remove(i as int),
                before_rows.len() == n,
                forall|k: int| j <= k < i ==> find_order(x, #[trigger] rows@[k]) < 0,
            decreases j,
        {
            j = j - 1;
        }
        proof {
            assert forall|k: int| 0 <= k < i implies #[trigger] rows@[k] == before_rows[k] by {}
        }
        rows.insert(j, x);
        proof {
            let old_p = p;
            p = p.insert(j as int, i as int);
            let r = rows@;
            assert forall|k: int| 0 <= k < i + 1 implies #[trigger] r[k] == input[p[k]] by {
                if k < j {
                    assert(r[k] == before_rows[k]);
                } else if k > j {
                    assert(r[k] == before_rows[k - 1]);
                }
            }
            assert forall|k: int| 0 <= k < i + 1 implies 0 <= #[trigger] p[k] < i + 1 by {
                if k < j {
                    assert(p[k] == old_p[k]);
                } else if k > j {
                    assert(p[k] == old_p[k - 1]);
                }
            }
            assert forall|k: int, m: int| 0 <= k < m < i + 1 implies #[trigger] p[k] != #[trigger] p[m] by {
                if k < j && m < j {
                    assert(p[k] == old_p[k] && p[m] == old_p[m]);
                } else if k < j && m == j {
                    assert(p[k] == old_p[k]);
                } else if k < j && m > j {
                    assert(p[k] == old_p[k] && p[m] == old_p[m - 1]);
                } else if k == j {
                    assert(p[m] == old_p[m - 1]);
                } else {
                    assert(p[k] == old_p[k - 1] && p[m] == old_p[m - 1]);
                }
            }
            let s = r.take(i + 1);
            let pre = before_rows.take(i as int);
            assert forall|a: int, b: int| 0 <= a < b < s.len() implies find_order(
                #[trigger] s[a],
                #[trigger] s[b],
            ) <= 0 by {
                let sa = s[a];
                let sb = s[b];
                if a < j && b < j {
                    assert(sa == pre[a] && sb == pre[b]);
                } else if a < j && b == j {
                    assert(sa == pre[a]);
                    let last = pre[j - 1];
                    assert(find_order(x, last) >= 0);
                    lemma_find_order_antisym(x, last);
                    if a < j - 1 {
                        assert(find_order(sa, last) <= 0);
                    }
                    lemma_find_order_trans(sa, last, x);
                } else if a < j && b > j {
                    assert(sa == pre[a] && sb == pre[b - 1]);
                } else if a == j {
                    assert(sb == before_rows.remove(i as int)[b - 1]);
                    assert(find_order(x, sb) < 0);
                } else {
                    assert(sa == pre[a - 1] && sb == pre[b - 1]);
                }
            }
            assert(r.skip(i + 1) =~= input.skip(i + 1)) by {
                assert forall|k: int| 0 <= k < r.skip(i + 1).len() implies #[trigger] r.skip(i + 1)[k]
                    == input.skip(i + 1)[k] by {
                    assert(r[i + 1 + k] == before_rows[i + 1 + k]);
                    assert(before_rows.skip(i as int)[k + 1] == input.skip(i as int)[k + 1]);
                }
            }
        }
        i = i + 1;
    }
    proof {
        assert(rows@.take(n as int) =~= rows@);
        assert(is_perm(p, input.len() as int));
    }
}

/// The lowercased name `find` looks for; none for an absent or empty name.
pub open spec fn spec_find_needle(name: Option<Seq<char>>) -> Option<Seq<char>> {
    match name {
        Some(n) => if n.len() > 0 {
            Some(to_lower(n))
        } else {
            None
        },
        None => None,
    }
}

pub fn find_needle(name: Option<&str>) -> (r: Option<String>)
    ensures
        opt_str_view(r) == spec_find_needle(crate::shell_path::opt_view(name)),
{
    match name {
        Some(n) => {
            if chars_of(n).len() > 0 {
                Some(lowercase(n))
            } else {
                None
            }
        },
        None => None,
    }
}

/// Where `find` starts: the given directory (the root for `/`), normalized;
/// without one, the root, which needs a name to look for.
pub open spec fn spec_find_base(directory: Option<Seq<char>>, has_needle: bool) -> Result<Seq<char>, Seq<char>> {
    match directory {
        None => if has_needle {
            Ok(seq!['/'])
        } else {
            Err("find: name required (use `find -d DIRECTORY` to list all files under a subtree)"@)
        },
        Some(d) => if d == seq!['/'] {
            Ok(seq!['/'])
        } else {
            crate::paths::spec_normalize_path(crate::text::trim(d))
        },
    }
}

pub fn find_base(directory: Option<&str>, has_needle: bool) -> (r: Result<String, String>)
    ensures
        crate::paths::string_result(r) == spec_find_base(crate::shell_path::opt_view(directory), has_needle),
{
    match directory {
        None => {
            if has_needle {
                let mut v: Vec<char> = Vec::new();
                v.push('/');
                assert(v@ =~= seq!['/']);
                Ok(string_of(v.as_slice()))
            } else {
                Err(owned("find: name required (use `find -d DIRECTORY` to list all files under a subtree)"))
            }
        },
        Some(d) => {
            let dv = chars_of(d);
            if dv.len() == 1 && dv[0] == '/' {
                assert(d@ =~= seq!['/']);
                Ok(string_of(dv.as_slice()))
            } else {
                assert(d@ != seq!['/']);
                let t = string_of(crate::text::trim_ws(dv.as_slice()).as_slice());
                crate::paths::normalize_path(t.as_str())
            }
        },
    }
}

/// Whether a name is a hit: any name without a needle, else one whose
/// lowercased form contains the needle.
pub open spec fn name_hit(name: Seq<char>, needle: Option<Seq<char>>) -> bool {
    match needle {
        None => true,
        Some(n) => first_match(to_lower(name), n, 0) is Some,
    }
}

/// Whether a name is an exact hit: its lowercased form is the needle.
pub open spec fn name_exact(name: Seq<char>, needle: Option<Seq<char>>) -> bool {
    match needle {
        None => false,
        Some(n) => to_lower(name) == n,
    }
}

pub open spec fn row_view(r: FindRow) -> (bool, u8, Seq<char>, u64, Option<Seq<char>>) {
    (r.exact, r.kind, r.label@, r.modified_at, opt_str_view(r.description))
}

fn name_matches(name: &str, needle: Option<&str>) -> (r: (bool, bool))
    ensures
        r.0 == name_hit(name@, crate::shell_path::opt_view(needle)),
        r.1 == name_exact(name@, crate::shell_path::opt_view(needle)),
{
    match needle {
        None => (true, false),
        Some(n) => {
            let l = chars_of(lowercase(name).as_str());
            let nv = chars_of(n);
            let hit = first_match_from(l.as_slice(), nv.as_slice(), 0).is_some();
            let exact = chars_eq(l.as_slice(), nv.as_slice());
            (hit, exact)
        },
    }
}

/// The hit for a directory named `name` in `dir_path`, if the name is one.
pub fn find_dir_row(
    dir_path: &str,
    name: &str,
    needle: Option<&str>,
    modified_at: u64,
    description: Option<String>,
) -> (r: Option<FindRow>)
    ensures
        match r {
            Some(row) => name_hit(name@, crate::shell_path::opt_view(needle)) && row_view(row) == (
                name_exact(name@, crate::shell_path::opt_view(needle)),
                0u8,
                spec_join_abs_dir_entry(dir_path@, name@),
                modified_at,
                opt_str_view(description),
            ),
            None => !name_hit(name@, crate::shell_path::opt_view(needle)),
        },
{
    let (hit, exact) = name_matches(name, needle);
    if !hit {
        return None;
    }
    Some(
        FindRow {
            exact,
            kind: 0,
            label: join_abs_dir_entry(dir_path, name),
            modified_at,
            description,
        },
    )
}

/// The last segment of a document path (the whole path when it has no `/`).
pub open spec fn doc_name(path: Seq<char>) -> Seq<char> {
    match last_index(path, '/') {
        None => path,
        Some(i) => path.skip(i + 1int),
    }
}

/// The hit for the document at `doc_path`, if its name is one.
pub fn find_doc_row(doc_path: &str, needle: Option<&str>, modified_at: u64, description: Option<String>) -> (r:
    Option<FindRow>)
    ensures
        match r {
            Some(row) => name_hit(doc_name(doc_path@), crate::shell_path::opt_view(needle))
                && row_view(row) == (
                name_exact(doc_name(doc_path@), crate::shell_path::opt_view(needle)),
                1u8,
                doc_path@,
                modified_at,
                opt_str_view(description),
            ),
            None => !name_hit(doc_name(doc_path@), crate::shell_path::opt_view(needle)),
        },
{
    let v = chars_of(doc_path);
    let len = v.len();
    let name = match rfind_char(v.as_slice(), '/') {
        None => string_of(v.as_slice()),
        Some(i) => {
            let n = copy_range(v.as_slice(), i + 1, len);
            assert(v@.subrange(i + 1, len as int) =~= v@.skip(i + 1));
            string_of(n.as_slice())
        },
    };
    let (hit, exact) = name_matches(name.as_str(), needle);
    if !hit {
        return None;
    }
    Some(FindRow { exact, kind: 1, label: owned(doc_path), modified_at, description })
}

/// `directory` or `file`.
pub open spec fn find_kind(r: FindRow) -> Seq<char> {
    if r.kind == 0 {
        "directory"@
    } else {
        "file"@
    }
}

fn find_kind_text(r: &FindRow) -> (s: String)
    ensures
        s@ == find_kind(*r),
{
    if r.kind == 0 {
        owned("directory")
    } else {
        owned("file")
    }
}

/// The cells of a hit in the terminal table (`modified` is its time as text):
/// kind, path (a directory styled), time, description.
pub fn find_table_row(r: &FindRow, color: bool, modified: &str) -> (cells: Vec<String>)
    ensures
        crate::completion::string_views(cells@) == seq![
            find_kind(*r),
            crate::ls::spec_styled_name(r.label@, r.kind == 0, color),
            modified@,
            crate::ls::desc_text(r.description),
        ],
{
    let mut cells: Vec<String> = Vec::new();
    cells.push(find_kind_text(r));
    cells.push(crate::ls::tty_style_dir_name(r.label.as_str(), r.kind == 0, color));
    cells.push(owned(modified));
    let d = match &r.description {
        Some(s) => owned(s.as_str()),
        None => string_of(Vec::<char>::new().as_slice()),
    };
    cells.push(d);
    assert(crate::completion::string_views(cells@) =~= seq![
        find_kind(*r),
        crate::ls::spec_styled_name(r.label@, r.kind == 0, color),
        modified@,
        crate::ls::desc_text(r.description),
    ]);
    cells
}

/// A hit as printed when the output is not a terminal, fields separated by tabs.
pub open spec fn spec_find_plain_line(r: FindRow, modified: Seq<char>) -> Seq<char> {
    find_kind(r) + seq!['\t'] + r.label@ + seq!['\t'] + modified + seq!['\t'] + crate::ls::desc_text(
        r.description,
    )
}

pub fn find_plain_line(r: &FindRow, modified: &str) -> (line: String)
    ensures
        line@ == spec_find_plain_line(*r, modified@),
{
    let mut v = chars_of(find_kind_text(r).as_str());
    v.push('\t');
    append_chars(&mut v, chars_of(r.label.as_str()).as_slice());
    v.push('\t');
    append_chars(&mut v, chars_of(modified).as_slice());
    v.push('\t');
    match &r.description {
        Some(s) => append_chars(&mut v, chars_of(s.as_str()).as_slice()),
        None => {},
    }
    assert(v@ =~= spec_find_plain_line(*r, modified@));
    string_of(v.as_slice())
}

/// `first_match` from `start` finds something exactly when `n` occurs in `l`
/// at some index at or after `start`.
proof fn lemma_first_match_exists(l: Seq<char>, n: Seq<char>, start: nat)
    ensures
        (first_match(l, n, start) is Some) <==> exists|k: int|
            start <= k && k + n.len() <= l.len() && #[trigger] l.subrange(k, k + n.len()) == n,
    decreases l.len() + 1 - start,
{
    if start + n.len() > l.len() {
    } else if l.subrange(start as int, (start + n.len()) as int) == n {
    } else {
        lemma_first_match_exists(l, n, start + 1);
        if exists|k: int| start <= k && k + n.len() <= l.len() && #[trigger] l.subrange(k, k + n.len()) == n {
            let k = choose|k: int| start <= k && k + n.len() <= l.len() && #[trigger] l.subrange(k, k + n.len()) == n;
            assert(k != start);
            assert(start + 1 <= k);
        }
    }
}

/// `find` lists a name exactly when the needle occurs anywhere in the
/// lowercased name (at its start or further in); with no needle every name
/// is listed. `find_dir_row` and `find_doc_row` give a row exactly when
/// `name_hit` holds.
pub proof fn law_find_hit_is_substring(name: Seq<char>, needle: Option<Seq<char>>)
    ensures
        needle is None ==> name_hit(name, needle),
        needle matches Some(n) ==> (name_hit(name, needle) <==> exists|k: int|
            0 <= k && k + n.len() <= to_lower(name).len() && #[trigger] to_lower(name).subrange(
                k,
                k + n.len(),
            ) == n),
{
    if let Some(n) = needle {
        lemma_first_match_exists(to_lower(name), n, 0);
    }
}

} // verus!

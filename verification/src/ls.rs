//! `ls` listings: the rows a directory listing holds, their ordering under
//! `-t` (newest first) and `-r` (reversed), and the cells a row is shown with.

use vstd::prelude::*;
use crate::text::{chars_of, dec_string, owned};

verus! {

/// One entry of a directory listing. Times are nanoseconds since the Unix epoch.
pub struct ListedEntryRow {
    pub id: i64,
    /// 0 for a directory, 1 for a document.
    pub kind: i64,
    pub name: String,
    pub description: Option<String>,
    pub created_at: u64,
    pub modified_at: u64,
    pub accessed_at: u64,
    pub size_bytes: Option<u64>,
    pub recursive_file_count: u64,
}

impl ListedEntryRow {
    /// A document (kind 1).
    pub fn is_file(&self) -> (b: bool)
        ensures
            b == (self.kind == 1),
    {
        self.kind == 1
    }

    /// A directory (kind 0).
    pub fn is_directory(&self) -> (b: bool)
        ensures
            b == (self.kind == 0),
    {
        self.kind == 0
    }
}

/// Lexicographic order of texts by Unicode scalar value (the order of their
/// UTF-8 bytes, which is how `String` compares).
pub open spec fn lex_lt(a: Seq<char>, b: Seq<char>) -> bool
    decreases a.len(),
{
    if a.len() == 0 {
        b.len() > 0
    } else if b.len() == 0 {
        false
    } else if a[0] != b[0] {
        (a[0] as u32) < (b[0] as u32)
    } else {
        lex_lt(a.drop_first(), b.drop_first())
    }
}

pub proof fn lemma_lex_asym(a: Seq<char>, b: Seq<char>)
    ensures
        lex_lt(a, b) ==> !lex_lt(b, a),
    decreases a.len(),
{
    if a.len() > 0 && b.len() > 0 && a[0] == b[0] {
        lemma_lex_asym(a.drop_first(), b.drop_first());
    }
}

pub proof fn lemma_lex_total(a: Seq<char>, b: Seq<char>)
    ensures
        !lex_lt(a, b) && !lex_lt(b, a) ==> a == b,
    decreases a.len(),
{
    if a.len() > 0 && b.len() > 0 {
        if a[0] == b[0] {
            lemma_lex_total(a.drop_first(), b.drop_first());
            if !lex_lt(a, b) && !lex_lt(b, a) {
                assert(a =~= seq![a[0]] + a.drop_first());
                assert(b =~= seq![b[0]] + b.drop_first());
            }
        } else {
            vstd::utf8::char_u32_cast(a[0], a[0] as u32);
            vstd::utf8::char_u32_cast(b[0], b[0] as u32);
        }
    } else if a.len() == 0 && b.len() == 0 {
        assert(a =~= b);
    }
}

pub proof fn lemma_lex_trans(a: Seq<char>, b: Seq<char>, c: Seq<char>)
    ensures
        lex_lt(a, b) && lex_lt(b, c) ==> lex_lt(a, c),
    decreases a.len(),
{
    if a.len() > 0 && b.len() > 0 && c.len() > 0 {
        if a[0] == b[0] && b[0] == c[0] {
            lemma_lex_trans(a.drop_first(), b.drop_first(), c.drop_first());
        }
    }
}

/// -1, 0 or 1 as `a` sorts before, with, or after `b` by name.
pub open spec fn name_order(a: Seq<char>, b: Seq<char>) -> int {
    if lex_lt(a, b) {
        -1
    } else if a == b {
        0
    } else {
        1
    }
}

/// The `ls` comparison before any reversal: by name, or (`-t`) newest first
/// with the name breaking ties.
pub open spec fn key_order(a: ListedEntryRow, b: ListedEntryRow, by_time: bool) -> int {
    if by_time && a.modified_at != b.modified_at {
        if a.modified_at > b.modified_at {
            -1
        } else {
            1
        }
    } else {
        name_order(a.name@, b.name@)
    }
}

/// `a` must be listed before `b`.
pub open spec fn before(a: ListedEntryRow, b: ListedEntryRow, by_time: bool, reverse: bool) -> bool {
    if reverse {
        key_order(a, b, by_time) > 0
    } else {
        key_order(a, b, by_time) < 0
    }
}

/// Neither row must come before the other.
pub open spec fn same_key(a: ListedEntryRow, b: ListedEntryRow, by_time: bool) -> bool {
    key_order(a, b, by_time) == 0
}

proof fn lemma_key_antisym(a: ListedEntryRow, b: ListedEntryRow, by_time: bool)
    ensures
        key_order(a, b, by_time) == -key_order(b, a, by_time),
        -1 <= key_order(a, b, by_time) <= 1,
{
    lemma_lex_asym(a.name@, b.name@);
    lemma_lex_asym(b.name@, a.name@);
    lemma_lex_total(a.name@, b.name@);
}

proof fn lemma_key_trans(a: ListedEntryRow, b: ListedEntryRow, c: ListedEntryRow, by_time: bool)
    ensures
        key_order(a, b, by_time) <= 0 && key_order(b, c, by_time) <= 0 ==> key_order(
            a,
            c,
            by_time,
        ) <= 0,
        key_order(a, b, by_time) >= 0 && key_order(b, c, by_time) >= 0 ==> key_order(
            a,
            c,
            by_time,
        ) >= 0,
{
    lemma_lex_trans(a.name@, b.name@, c.name@);
    lemma_lex_trans(c.name@, b.name@, a.name@);
    lemma_lex_asym(a.name@, c.name@);
    lemma_lex_asym(a.name@, b.name@);
    lemma_lex_asym(b.name@, c.name@);
    lemma_lex_total(a.name@, b.name@);
    lemma_lex_total(b.name@, c.name@);
    lemma_lex_total(a.name@, c.name@);
}

/// Rows in the order `ls` lists them.
pub open spec fn sorted_rows(s: Seq<ListedEntryRow>, by_time: bool, reverse: bool) -> bool {
    forall|i: int, j: int| 0 <= i < j < s.len() ==> !before(#[trigger] s[j], #[trigger] s[i], by_time, reverse)
}

/// `p` is a permutation of `0..n`.
pub open spec fn is_perm(p: Seq<int>, n: int) -> bool {
    &&& p.len() == n
    &&& forall|k: int| 0 <= k < n ==> 0 <= #[trigger] p[k] < n
    &&& forall|k: int, m: int| 0 <= k < m < n ==> #[trigger] p[k] != #[trigger] p[m]
}

/// `out` is `input` reordered by `p`, sorted, and rows with the same key keep
/// their relative order.
pub open spec fn stable_sorted_by(
    out: Seq<ListedEntryRow>,
    input: Seq<ListedEntryRow>,
    p: Seq<int>,
    by_time: bool,
    reverse: bool,
) -> bool {
    &&& out.len() == input.len()
    &&& is_perm(p, input.len() as int)
    &&& forall|k: int| 0 <= k < out.len() ==> #[trigger] out[k] == input[p[k]]
    &&& sorted_rows(out, by_time, reverse)
    &&& forall|k: int, m: int|
        0 <= k < m < out.len() && same_key(#[trigger] out[k], #[trigger] out[m], by_time) ==> p[k]
            < p[m]
}

pub fn lex_less(a: &str, b: &str) -> (r: bool)
    ensures
        r == lex_lt(a@, b@),
{
    let av = chars_of(a);
    let bv = chars_of(b);
    let mut i: usize = 0;
    assert(av@.skip(0) =~= av@);
    assert(bv@.skip(0) =~= bv@);
    while i < av.len() && i < bv.len() && av[i] == bv[i]
        invariant
            i <= av@.len(),
            i <= bv@.len(),
            lex_lt(a@, b@) == lex_lt(av@.skip(i as int), bv@.skip(i as int)),
            av@ == a@,
            bv@ == b@,
        decreases av@.len() - i,
    {
        assert(av@.skip(i as int).drop_first() =~= av@.skip(i + 1));
        assert(bv@.skip(i as int).drop_first() =~= bv@.skip(i + 1));
        i = i + 1;
    }
    if i == av.len() {
        i < bv.len()
    } else if i == bv.len() {
        false
    } else {
        (av[i] as u32) < (bv[i] as u32)
    }
}

fn name_order_of(a: &str, b: &str) -> (r: i8)
    ensures
        r as int == name_order(a@, b@),
{
    if lex_less(a, b) {
        -1
    } else {
        let av = chars_of(a);
        let bv = chars_of(b);
        if crate::text::chars_eq(av.as_slice(), bv.as_slice()) {
            0
        } else {
            1
        }
    }
}

fn key_order_of(a: &ListedEntryRow, b: &ListedEntryRow, by_time: bool) -> (r: i8)
    ensures
        r as int == key_order(*a, *b, by_time),
{
    if by_time && a.modified_at != b.modified_at {
        if a.modified_at > b.modified_at {
            -1
        } else {
            1
        }
    } else {
        name_order_of(a.name.as_str(), b.name.as_str())
    }
}

fn goes_before(a: &ListedEntryRow, b: &ListedEntryRow, by_time: bool, reverse: bool) -> (r: bool)
    ensures
        r == before(*a, *b, by_time, reverse),
{
    let o = key_order_of(a, b, by_time);
    if reverse {
        o > 0
    } else {
        o < 0
    }
}

/// Orders a listing for `ls -t` / `ls -r`: `-t` puts the newest first (names
/// ascending among equal times), `-r` reverses; rows that compare equal keep
/// their order. Without either flag the server's order stays.
pub fn sort_ls_rows(rows: &mut Vec<ListedEntryRow>, sort_by_time: bool, reverse: bool)
    ensures
        !sort_by_time && !reverse ==> final(rows)@ == old(rows)@,
        sort_by_time || reverse ==> exists|p: Seq<int>|
            stable_sorted_by(final(rows)@, old(rows)@, p, sort_by_time, reverse),
{
    if !sort_by_time && !reverse {
        return;
    }
    let ghost input = rows@;
    let n = rows.len();
    let ghost mut p: Seq<int> = seq![];
    let mut i: usize = 0;
    while i < n
        invariant
            n == input.len(),
            rows@.len() == n,
            i <= n,
            rows@.skip(i as int) == input.skip(i as int),
            p.len() == i,
            forall|k: int| 0 <= k < i ==> 0 <= #[trigger] p[k] < i,
            forall|k: int, m: int| 0 <= k < m < i ==> #[trigger] p[k] != #[trigger] p[m],
            forall|k: int| 0 <= k < i ==> #[trigger] rows@[k] == input[p[k]],
            sorted_rows(rows@.take(i as int), sort_by_time, reverse),
            forall|k: int, m: int|
                0 <= k < m < i && same_key(#[trigger] rows@[k], #[trigger] rows@[m], sort_by_time)
                    ==> p[k] < p[m],
        decreases n - i,
    {
        let ghost before_rows = rows@;
        let x = rows.remove(i);
        assert(x == input[i as int]) by {
            assert(before_rows.skip(i as int)[0] == before_rows[i as int]);
            assert(input.skip(i as int)[0] == input[i as int]);
        }
        let mut j: usize = i;
        while j > 0 && goes_before(&x, &rows[j - 1], sort_by_time, reverse)
            invariant
                j <= i,
                i < n,
                rows@.len() == n - 1,
                rows@ == before_rows.remove(i as int),
                before_rows.len() == n,
                forall|k: int| j <= k < i ==> before(x, #[trigger] rows@[k], sort_by_time, reverse),
            decreases j,
        {
            j = j - 1;
        }
        proof {
            assert forall|k: int| 0 <= k < i implies #[trigger] rows@[k] == before_rows[k] by {}
        }
        rows.insert(j, x);
        proof {
            let old_p = p;
            p = p.insert(j as int, i as int);
            let r = rows@;
            assert(r.len() == n);
            assert forall|k: int| 0 <= k < i + 1 implies #[trigger] r[k] == input[p[k]] by {
                if k < j {
                    assert(r[k] == before_rows[k]);
                } else if k > j {
                    assert(r[k] == before_rows[k - 1]);
                }
            }
            assert forall|k: int| 0 <= k < i + 1 implies 0 <= #[trigger] p[k] < i + 1 by {
                if k < j {
                    assert(p[k] == old_p[k]);
                } else if k > j {
                    assert(p[k] == old_p[k - 1]);
                }
            }
            assert forall|k: int, m: int| 0 <= k < m < i + 1 implies #[trigger] p[k] != #[trigger] p[m] by {
                if k < j && m < j {
                    assert(p[k] == old_p[k] && p[m] == old_p[m]);
                } else if k < j && m == j {
                    assert(p[k] == old_p[k]);
                } else if k < j && m > j {
                    assert(p[k] == old_p[k] && p[m] == old_p[m - 1]);
                } else if k == j {
                    assert(p[m] == old_p[m - 1]);
                } else {
                    assert(p[k] == old_p[k - 1] && p[m] == old_p[m - 1]);
                }
            }
            let s = r.take(i + 1);
            assert forall|a: int, b: int| 0 <= a < b < s.len() implies !before(
                #[trigger] s[b],
                #[trigger] s[a],
                sort_by_time,
                reverse,
            ) by {
                let sa = s[a];
                let sb = s[b];
                lemma_key_antisym(sa, sb, sort_by_time);
                if a < j && b < j {
                    assert(sa == before_rows.take(i as int)[a] && sb == before_rows.take(i as int)[b]);
                } else if a < j && b == j {
                    assert(sa == before_rows.take(i as int)[a]);
                    if j > 0 {
                        let last = before_rows.take(i as int)[j - 1];
                        assert(!before(x, last, sort_by_time, reverse));
                        if a < j - 1 {
                            assert(!before(last, sa, sort_by_time, reverse));
                        }
                        lemma_key_antisym(sa, last, sort_by_time);
                        lemma_key_antisym(last, x, sort_by_time);
                        lemma_key_trans(sa, last, x, sort_by_time);
                    }
                } else if a < j && b > j {
                    assert(sa == before_rows.take(i as int)[a] && sb == before_rows.take(i as int)[b - 1]);
                } else if a == j {
                    assert(sb == rows@[b]);
                    assert(sb == before_rows.remove(i as int)[b - 1]);
                    assert(before(x, before_rows.remove(i as int)[b - 1], sort_by_time, reverse));
                } else {
                    assert(sa == before_rows.take(i as int)[a - 1] && sb == before_rows.take(i as int)[b - 1]);
                }
            }
            assert forall|k: int, m: int|
                0 <= k < m < i + 1 && same_key(#[trigger] r[k], #[trigger] r[m], sort_by_time)
                implies p[k] < p[m] by {
                if k < j && m < j {
                    assert(p[k] == old_p[k] && p[m] == old_p[m]);
                    assert(r[k] == before_rows[k] && r[m] == before_rows[m]);
                } else if k < j && m == j {
                    assert(p[k] == old_p[k]);
                } else if k < j && m > j {
                    assert(p[k] == old_p[k] && p[m] == old_p[m - 1]);
                    assert(r[k] == before_rows[k] && r[m] == before_rows[m - 1]);
                } else if k == j {
                    assert(r[m] == before_rows.remove(i as int)[m - 1]);
                    assert(before(x, r[m], sort_by_time, reverse));
                    lemma_key_antisym(x, r[m], sort_by_time);
                } else {
                    assert(p[k] == old_p[k - 1] && p[m] == old_p[m - 1]);
                    assert(r[k] == before_rows[k - 1] && r[m] == before_rows[m - 1]);
                }
            }
            assert(r.skip(i + 1) =~= input.skip(i + 1)) by {
                assert forall|k: int| 0 <= k < r.skip(i + 1).len() implies #[trigger] r.skip(i + 1)[k]
                    == input.skip(i + 1)[k] by {
                    assert(r[i + 1 + k] == before_rows[i + 1 + k]);
                    assert(before_rows.skip(i as int)[k + 1] == input.skip(i as int)[k + 1]);
                }
            }
        }
        i = i + 1;
    }
    proof {
        assert(rows@.take(n as int) =~= rows@);
        assert(stable_sorted_by(rows@, input, p, sort_by_time, reverse));
    }
}

/// A name as listed on a terminal: a directory in bold blue when colour is on.
pub open spec fn spec_styled_name(name: Seq<char>, is_directory: bool, color: bool) -> Seq<char> {
    if is_directory && color {
        "\x1b[1;34m"@ + name + "\x1b[0m"@
    } else {
        name
    }
}

pub fn tty_style_dir_name(name: &str, is_directory: bool, color: bool) -> (r: String)
    ensures
        r@ == spec_styled_name(name@, is_directory, color),
{
    if !is_directory || !color {
        return owned(name);
    }
    let mut v = chars_of("\x1b[1;34m");
    crate::text::append_chars(&mut v, chars_of(name).as_slice());
    crate::text::append_chars(&mut v, chars_of("\x1b[0m").as_slice());
    crate::text::string_of(v.as_slice())
}

/// `dir` or `file`.
pub open spec fn ls_kind(r: ListedEntryRow) -> Seq<char> {
    if r.kind == 0 {
        "dir"@
    } else {
        "file"@
    }
}

/// The size column: a document's size in bytes (0 when unknown), a
/// directory's count of documents below it.
pub open spec fn ls_size(r: ListedEntryRow) -> Seq<char> {
    if r.kind == 1 {
        crate::text::dec(
            match r.size_bytes {
                Some(b) => b as nat,
                None => 0,
            },
        )
    } else {
        crate::text::dec(r.recursive_file_count as nat)
    }
}

pub open spec fn desc_text(d: Option<String>) -> Seq<char> {
    match d {
        Some(s) => s@,
        None => seq![],
    }
}

fn kind_text(r: &ListedEntryRow) -> (s: String)
    ensures
        s@ == ls_kind(*r),
{
    if r.is_directory() {
        owned("dir")
    } else {
        owned("file")
    }
}

fn size_text(r: &ListedEntryRow) -> (s: String)
    ensures
        s@ == ls_size(*r),
{
    if r.is_file() {
        match r.size_bytes {
            Some(b) => dec_string(b),
            None => dec_string(0),
        }
    } else {
        dec_string(r.recursive_file_count)
    }
}

fn desc_of(d: &Option<String>) -> (s: String)
    ensures
        s@ == desc_text(*d),
{
    match d {
        Some(s) => owned(s.as_str()),
        None => crate::text::string_of(Vec::<char>::new().as_slice()),
    }
}

/// The cells of a listing row in the terminal table (`modified` is the row's
/// time as text): kind, name, size, time, description.
pub fn ls_table_row(r: &ListedEntryRow, color: bool, modified: &str) -> (cells: Vec<String>)
    ensures
        crate::completion::string_views(cells@) == seq![
            ls_kind(*r),
            spec_styled_name(r.name@, r.kind == 0, color),
            ls_size(*r),
            modified@,
            desc_text(r.description),
        ],
{
    let mut cells: Vec<String> = Vec::new();
    cells.push(kind_text(r));
    cells.push(tty_style_dir_name(r.name.as_str(), r.is_directory(), color));
    cells.push(size_text(r));
    cells.push(owned(modified));
    cells.push(desc_of(&r.description));
    assert(crate::completion::string_views(cells@) =~= seq![
        ls_kind(*r),
        spec_styled_name(r.name@, r.kind == 0, color),
        ls_size(*r),
        modified@,
        desc_text(r.description),
    ]);
    cells
}

/// A listing row as printed when the output is not a terminal: the same
/// fields, plain, separated by tabs.
pub open spec fn spec_ls_plain_line(r: ListedEntryRow, modified: Seq<char>) -> Seq<char> {
    ls_kind(r) + seq!['\t'] + r.name@ + seq!['\t'] + ls_size(r) + seq!['\t'] + modified + seq!['\t']
        + desc_text(r.description)
}

pub fn ls_plain_line(r: &ListedEntryRow, modified: &str) -> (line: String)
    ensures
        line@ == spec_ls_plain_line(*r, modified@),
{
    let mut v = chars_of(kind_text(r).as_str());
    v.push('\t');
    crate::text::append_chars(&mut v, chars_of(r.name.as_str()).as_slice());
    v.push('\t');
    crate::text::append_chars(&mut v, chars_of(size_text(r).as_str()).as_slice());
    v.push('\t');
    crate::text::append_chars(&mut v, chars_of(modified).as_slice());
    v.push('\t');
    crate::text::append_chars(&mut v, chars_of(desc_of(&r.description).as_str()).as_slice());
    crate::text::string_of(v.as_slice())
}

} // verus!

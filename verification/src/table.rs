//! Plain tables for terminal output: a header row, a rule of dashes, and the
//! data rows, each column as wide as its widest cell.

use vstd::prelude::*;
use crate::listing::{spaces, spec_pad_cell_visible, vis_len};
use crate::text::{blen, chars_of, join_chars, join_with, string_of, views};

verus! {

/// Width of column `i`: its header's byte length, or its widest cell (colour
/// sequences not counted), whichever is larger.
pub open spec fn widest(rows: Seq<Seq<Seq<char>>>, i: int, base: nat) -> nat
    decreases rows.len(),
{
    if rows.len() == 0 {
        base
    } else {
        let w = widest(rows.drop_last(), i, base);
        let r = rows.last();
        if i < r.len() && vis_len(r[i]) > w {
            vis_len(r[i])
        } else {
            w
        }
    }
}

pub open spec fn col_widths(headers: Seq<Seq<char>>, rows: Seq<Seq<Seq<char>>>) -> Seq<nat> {
    Seq::new(headers.len(), |i: int| widest(rows, i, blen(headers[i])))
}

/// The width of a column bounds every cell of it and is one of them (or the
/// header).
proof fn lemma_widest(rows: Seq<Seq<Seq<char>>>, i: int, base: nat)
    ensures
        widest(rows, i, base) >= base,
        forall|k: int|
            0 <= k < rows.len() && i < rows[k].len() ==> widest(rows, i, base) >= vis_len(
                #[trigger] rows[k][i],
            ),
        widest(rows, i, base) == base || exists|k: int|
            0 <= k < rows.len() && i < rows[k].len() && widest(rows, i, base) == vis_len(
                #[trigger] rows[k][i],
            ),
    decreases rows.len(),
{
    if rows.len() > 0 {
        let d = rows.drop_last();
        lemma_widest(d, i, base);
        assert forall|k: int| 0 <= k < rows.len() && i < rows[k].len() implies widest(rows, i, base)
            >= vis_len(#[trigger] rows[k][i]) by {
            if k < d.len() {
                assert(rows[k] == d[k]);
            }
        }
        let w = widest(d, i, base);
        if !(i < rows.last().len() && vis_len(rows.last()[i]) > w) && w != base {
            let k = choose|k: int| 0 <= k < d.len() && i < d[k].len() && w == vis_len(#[trigger] d[k][i]);
            assert(rows[k] == d[k]);
        }
        if i < rows.last().len() && vis_len(rows.last()[i]) > w {
            assert(rows[rows.len() - 1] == rows.last());
        }
    }
}

/// Every column of a table is as wide as its header and as each of its cells
/// in every row (colour sequences not counted), and no wider than the widest
/// of them.
pub proof fn law_columns_fit_every_cell(headers: Seq<Seq<char>>, rows: Seq<Seq<Seq<char>>>, i: int)
    requires
        0 <= i < headers.len(),
    ensures
        col_widths(headers, rows)[i] >= blen(headers[i]),
        forall|k: int|
            0 <= k < rows.len() && i < rows[k].len() ==> col_widths(headers, rows)[i] >= vis_len(
                #[trigger] rows[k][i],
            ),
        col_widths(headers, rows)[i] == blen(headers[i]) || exists|k: int|
            0 <= k < rows.len() && i < rows[k].len() && col_widths(headers, rows)[i] == vis_len(
                #[trigger] rows[k][i],
            ),
{
    lemma_widest(rows, i, blen(headers[i]));
}

/// `format!("{:w$}", s)`: `s` padded with spaces to `w` characters.
pub open spec fn fmt_pad(s: Seq<char>, w: nat) -> Seq<char> {
    if s.len() >= w {
        s
    } else {
        s + spaces((w - s.len()) as nat)
    }
}

pub open spec fn dashes(n: nat) -> Seq<char> {
    Seq::new(n, |i: int| '-')
}

pub open spec fn row_line(r: Seq<Seq<char>>, w: Seq<nat>) -> Seq<char> {
    let n = if r.len() < w.len() {
        r.len()
    } else {
        w.len()
    };
    join_with(Seq::new(n, |i: int| spec_pad_cell_visible(r[i], w[i])), ' ')
}

/// The lines of the table.
pub open spec fn spec_table(headers: Seq<Seq<char>>, rows: Seq<Seq<Seq<char>>>) -> Seq<Seq<char>> {
    let w = col_widths(headers, rows);
    seq![
        join_with(Seq::new(headers.len(), |i: int| fmt_pad(headers[i], w[i])), ' '),
        join_with(Seq::new(headers.len(), |i: int| dashes(w[i])), ' '),
    ] + Seq::new(rows.len(), |k: int| row_line(rows[k], w))
}

pub open spec fn rows_view(rows: Seq<Vec<String>>) -> Seq<Seq<Seq<char>>> {
    rows.map_values(|r: Vec<String>| crate::completion::string_views(r@))
}

fn repeat_char(c: char, n: usize) -> (r: Vec<char>)
    ensures
        r@ == Seq::new(n as nat, |i: int| c),
{
    let mut r: Vec<char> = Vec::new();
    let mut i: usize = 0;
    while i < n
        invariant
            i <= n,
            r@ == Seq::new(i as nat, |j: int| c),
        decreases n - i,
    {
        r.push(c);
        i = i + 1;
        assert(r@ =~= Seq::new(i as nat, |j: int| c));
    }
    r
}

fn column_widths(headers: &Vec<String>, rows: &Vec<Vec<String>>) -> (w: Vec<usize>)
    ensures
        w@.len() == headers@.len(),
        forall|i: int|
            0 <= i < w@.len() ==> (#[trigger] w@[i]) as nat == col_widths(
                crate::completion::string_views(headers@),
                rows_view(rows@),
            )[i],
{
    let ghost hv = crate::completion::string_views(headers@);
    let ghost rv = rows_view(rows@);
    let mut w: Vec<usize> = Vec::new();
    let mut i: usize = 0;
    while i < headers.len()
        invariant
            i <= headers@.len(),
            hv == crate::completion::string_views(headers@),
            rv == rows_view(rows@),
            w@.len() == i,
            forall|k: int| 0 <= k < i ==> (#[trigger] w@[k]) as nat == col_widths(hv, rv)[k],
        decreases headers@.len() - i,
    {
        let mut cur = headers[i].as_str().as_bytes_vec().len();
        assert(hv[i as int] == headers@[i as int]@);
        let mut r: usize = 0;
        while r < rows.len()
            invariant
                i < headers@.len(),
                r <= rows@.len(),
                hv == crate::completion::string_views(headers@),
                rv == rows_view(rows@),
                cur as nat == widest(rv.take(r as int), i as int, blen(hv[i as int])),
            decreases rows@.len() - r,
        {
            proof {
                assert(rv.take(r + 1).drop_last() =~= rv.take(r as int));
                assert(rv.take(r + 1).last() == crate::completion::string_views(rows@[r as int]@));
            }
            let row = &rows[r];
            if i < row.len() {
                let v = crate::listing::visible_cell_len(row[i].as_str());
                assert(crate::completion::string_views(row@)[i as int] == row@[i as int]@);
                if v > cur {
                    cur = v;
                }
            }
            r = r + 1;
        }
        assert(rv.take(rv.len() as int) =~= rv);
        w.push(cur);
        i = i + 1;
    }
    w
}

/// The lines of a table (header, rule, rows) as `tb` prints them.
pub fn cli_table_lines(headers: &Vec<String>, rows: &Vec<Vec<String>>) -> (lines: Vec<String>)
    ensures
        crate::completion::string_views(lines@) == spec_table(
            crate::completion::string_views(headers@),
            rows_view(rows@),
        ),
{
    let ghost hv = crate::completion::string_views(headers@);
    let ghost rv = rows_view(rows@);
    let w = column_widths(headers, rows);
    let ghost wv = col_widths(hv, rv);
    let n = headers.len();
    let mut head: Vec<Vec<char>> = Vec::new();
    let mut rule: Vec<Vec<char>> = Vec::new();
    let mut i: usize = 0;
    while i < n
        invariant
            n == headers@.len(),
            i <= n,
            w@.len() == n,
            hv == crate::completion::string_views(headers@),
            wv == col_widths(hv, rv),
            forall|k: int| 0 <= k < n ==> (#[trigger] w@[k]) as nat == wv[k],
            views(head@) == Seq::new(i as nat, |k: int| fmt_pad(hv[k], wv[k])),
            views(rule@) == Seq::new(i as nat, |k: int| dashes(wv[k])),
        decreases n - i,
    {
        let mut h = chars_of(headers[i].as_str());
        assert(hv[i as int] == h@);
        let hl = h.len();
        if hl < w[i] {
            let pad = repeat_char(' ', w[i] - hl);
            crate::text::append_chars(&mut h, pad.as_slice());
            assert(pad@ =~= spaces((wv[i as int] - hl) as nat));
        }
        let ghost h0 = views(head@);
        let ghost r0 = views(rule@);
        let ghost hi = h@;
        assert(hi == fmt_pad(hv[i as int], wv[i as int]));
        head.push(h);
        let d = repeat_char('-', w[i]);
        assert(d@ =~= dashes(wv[i as int]));
        let ghost di = d@;
        rule.push(d);
        assert(views(head@) =~= h0.push(hi));
        assert(views(rule@) =~= r0.push(di));
        assert(views(head@) =~= Seq::new((i + 1) as nat, |k: int| fmt_pad(hv[k], wv[k])));
        assert(views(rule@) =~= Seq::new((i + 1) as nat, |k: int| dashes(wv[k])));
        i = i + 1;
    }
    let mut lines: Vec<String> = Vec::new();
    lines.push(string_of(join_chars(&head, ' ').as_slice()));
    lines.push(string_of(join_chars(&rule, ' ').as_slice()));
    let mut r: usize = 0;
    while r < rows.len()
        invariant
            r <= rows@.len(),
            n == headers@.len(),
            w@.len() == n,
            rv == rows_view(rows@),
            wv == col_widths(hv, rv),
            hv == crate::completion::string_views(headers@),
            forall|k: int| 0 <= k < n ==> (#[trigger] w@[k]) as nat == wv[k],
            crate::completion::string_views(lines@) == seq![
                join_with(Seq::new(n as nat, |k: int| fmt_pad(hv[k], wv[k])), ' '),
                join_with(Seq::new(n as nat, |k: int| dashes(wv[k])), ' '),
            ] + Seq::new(r as nat, |k: int| row_line(rv[k], wv)),
        decreases rows@.len() - r,
    {
        let row = &rows[r];
        let ghost rowv = crate::completion::string_views(row@);
        assert(rv[r as int] == rowv);
        let m = if row.len() < n {
            row.len()
        } else {
            n
        };
        let mut cells: Vec<Vec<char>> = Vec::new();
        let mut c: usize = 0;
        while c < m
            invariant
                c <= m,
                m <= row@.len(),
                m <= n,
                w@.len() == n,
                rowv == crate::completion::string_views(row@),
                forall|k: int| 0 <= k < n ==> (#[trigger] w@[k]) as nat == wv[k],
                views(cells@) == Seq::new(c as nat, |k: int| spec_pad_cell_visible(rowv[k], wv[k])),
            decreases m - c,
        {
            let cell = crate::listing::pad_cell_visible(row[c].as_str(), w[c]);
            assert(rowv[c as int] == row@[c as int]@);
            let ghost c0 = views(cells@);
            let cv = chars_of(cell.as_str());
            let ghost ci = cv@;
            assert(ci == spec_pad_cell_visible(rowv[c as int], wv[c as int]));
            cells.push(cv);
            assert(views(cells@) =~= c0.push(ci));
            assert(views(cells@) =~= Seq::new((c + 1) as nat, |k: int| spec_pad_cell_visible(rowv[k], wv[k])));
            c = c + 1;
        }
        assert(wv.len() == n);
        let ghost l0 = crate::completion::string_views(lines@);
        lines.push(string_of(join_chars(&cells, ' ').as_slice()));
        assert(crate::completion::string_views(lines@) =~= l0.push(row_line(rv[r as int], wv)));
        r = r + 1;
    }
    assert(crate::completion::string_views(lines@) =~= spec_table(hv, rv));
    lines
}

/// The visible width of the widest key.
pub open spec fn widest_key(rows: Seq<(Seq<char>, Seq<char>)>) -> nat
    decreases rows.len(),
{
    if rows.len() == 0 {
        0
    } else {
        let w = widest_key(rows.drop_last());
        if vis_len(rows.last().0) > w {
            vis_len(rows.last().0)
        } else {
            w
        }
    }
}

/// Key/value lines: with colour, each key padded to the widest key (colour
/// codes not counted) in blue, a space, the value; without, `key<TAB>value`.
pub open spec fn spec_kv_lines(rows: Seq<(Seq<char>, Seq<char>)>, color: bool) -> Seq<Seq<char>> {
    if color {
        Seq::new(
            rows.len(),
            |i: int|
                "\x1b[34m"@ + spec_pad_cell_visible(rows[i].0, widest_key(rows)) + "\x1b[0m "@
                    + rows[i].1,
        )
    } else {
        Seq::new(rows.len(), |i: int| rows[i].0 + seq!['\t'] + rows[i].1)
    }
}

pub open spec fn pairs_view(rows: Seq<(String, String)>) -> Seq<(Seq<char>, Seq<char>)> {
    rows.map_values(|p: (String, String)| (p.0@, p.1@))
}

/// The lines `tb` prints for key/value rows (`stat`, `test`); `color` when
/// the output is a terminal and colour is not turned off.
pub fn cli_kv_lines(rows: &Vec<(String, String)>, color: bool) -> (lines: Vec<String>)
    ensures
        crate::completion::string_views(lines@) == spec_kv_lines(pairs_view(rows@), color),
{
    let ghost rv = pairs_view(rows@);
    let mut w: usize = 0;
    let mut i: usize = 0;
    while i < rows.len()
        invariant
            i <= rows@.len(),
            rv == pairs_view(rows@),
            w as nat == widest_key(rv.take(i as int)),
        decreases rows@.len() - i,
    {
        assert(rv.take(i + 1).drop_last() =~= rv.take(i as int));
        assert(rv.take(i + 1).last() == rv[i as int]);
        let k = crate::listing::visible_cell_len(rows[i].0.as_str());
        if k > w {
            w = k;
        }
        i = i + 1;
    }
    assert(rv.take(rows@.len() as int) =~= rv);
    let mut lines: Vec<String> = Vec::new();
    let mut j: usize = 0;
    while j < rows.len()
        invariant
            j <= rows@.len(),
            rv == pairs_view(rows@),
            w as nat == widest_key(rv),
            lines@.len() == j,
            crate::completion::string_views(lines@) == spec_kv_lines(rv, color).take(j as int),
        decreases rows@.len() - j,
    {
        let (k, v) = (&rows[j].0, &rows[j].1);
        assert(rv[j as int] == (k@, v@));
        let mut c: Vec<char> = Vec::new();
        if color {
            c = chars_of("\x1b[34m");
            crate::text::append_chars(&mut c, chars_of(crate::listing::pad_cell_visible(k.as_str(), w).as_str()).as_slice());
            crate::text::append_chars(&mut c, chars_of("\x1b[0m ").as_slice());
        } else {
            crate::text::append_chars(&mut c, chars_of(k.as_str()).as_slice());
            c.push('\t');
            assert(c@ =~= k@ + seq!['\t']);
        }
        crate::text::append_chars(&mut c, chars_of(v.as_str()).as_slice());
        assert(c@ =~= spec_kv_lines(rv, color)[j as int]);
        let ghost before = lines@;
        lines.push(string_of(c.as_slice()));
        assert forall|t: int| 0 <= t < j implies #[trigger] lines@[t] == before[t] by {}
        assert(crate::completion::string_views(lines@) =~= spec_kv_lines(rv, color).take(j + 1));
        j = j + 1;
    }
    assert(spec_kv_lines(rv, color).take(rows@.len() as int) =~= spec_kv_lines(rv, color));
    lines
}

} // verus!

//! Search-hit highlighting: merging the matched byte ranges of a snippet.

use vstd::prelude::*;
use crate::text::{blen, chars_of, lemma_words_nonempty, split_words, string_of, views, words};

verus! {

/// Position `x` lies in one of the half-open ranges of `v`.
pub open spec fn covers(v: Seq<(usize, usize)>, x: int) -> bool {
    exists|k: int| 0 <= k < v.len() && (#[trigger] v[k]).0 <= x < v[k].1
}

/// Non-empty ranges in increasing order, each ending before the next starts
/// (so no two of them touch or overlap).
pub open spec fn separated(v: Seq<(usize, usize)>) -> bool {
    &&& forall|k: int| 0 <= k < v.len() ==> (#[trigger] v[k]).0 < v[k].1
    &&& forall|k: int| 0 <= k < v.len() - 1 ==> (#[trigger] v[k]).1 < v[k + 1].0
}

/// Ranges ordered by start.
pub open spec fn by_start(v: Seq<(usize, usize)>) -> bool {
    forall|a: int, b: int| 0 <= a < b < v.len() ==> (#[trigger] v[a]).0 <= (#[trigger] v[b]).0
}

proof fn lemma_covers_insert(v: Seq<(usize, usize)>, j: int, r: (usize, usize), x: int)
    requires
        0 <= j <= v.len(),
    ensures
        covers(v.insert(j, r), x) == (covers(v, x) || (r.0 <= x < r.1)),
{
    let w = v.insert(j, r);
    if covers(v, x) {
        let k = choose|k: int| 0 <= k < v.len() && (#[trigger] v[k]).0 <= x < v[k].1;
        if k < j {
            assert(w[k] == v[k]);
        } else {
            assert(w[k + 1] == v[k]);
        }
    }
    if r.0 <= x < r.1 {
        assert(w[j] == r);
    }
    if covers(w, x) {
        let k = choose|k: int| 0 <= k < w.len() && (#[trigger] w[k]).0 <= x < w[k].1;
        if k < j {
            assert(w[k] == v[k]);
        } else if k > j {
            assert(w[k] == v[k - 1]);
        }
    }
}

proof fn lemma_covers_push(v: Seq<(usize, usize)>, r: (usize, usize), x: int)
    ensures
        covers(v.push(r), x) == (covers(v, x) || (r.0 <= x < r.1)),
{
    lemma_covers_insert(v, v.len() as int, r, x);
    assert(v.insert(v.len() as int, r) =~= v.push(r));
}

/// Merges ranges into the fewest separated ranges that cover the same positions
/// (empty ranges are dropped; overlapping or touching ones are joined).
pub fn merge_intervals(ranges: Vec<(usize, usize)>) -> (out: Vec<(usize, usize)>)
    ensures
        separated(out@),
        forall|x: int| covers(out@, x) == covers(ranges@, x),
{
    // Order by start.
    let mut sorted: Vec<(usize, usize)> = Vec::new();
    let mut i: usize = 0;
    while i < ranges.len()
        invariant
            i <= ranges@.len(),
            by_start(sorted@),
            forall|x: int| covers(sorted@, x) == covers(ranges@.take(i as int), x),
        decreases ranges@.len() - i,
    {
        let r = ranges[i];
        let mut j: usize = sorted.len();
        while j > 0 && sorted[j - 1].0 > r.0
            invariant
                j <= sorted@.len(),
                forall|k: int| j <= k < sorted@.len() ==> (#[trigger] sorted@[k]).0 > r.0,
            decreases j,
        {
            j = j - 1;
        }
        let ghost before = sorted@;
        sorted.insert(j, r);
        proof {
            assert forall|a: int, b: int| 0 <= a < b < sorted@.len() implies (
            #[trigger] sorted@[a]).0 <= (#[trigger] sorted@[b]).0 by {
                if b < j {
                    assert(sorted@[a] == before[a] && sorted@[b] == before[b]);
                } else if b == j {
                    assert(sorted@[a] == before[a]);
                    if j > 0 {
                        assert(before[j - 1].0 <= r.0);
                        assert(before[a].0 <= before[j - 1].0 || a == j - 1);
                    }
                } else if a < j {
                    assert(sorted@[a] == before[a] && sorted@[b] == before[b - 1]);
                } else if a == j {
                    assert(sorted@[b] == before[b - 1]);
                } else {
                    assert(sorted@[a] == before[a - 1] && sorted@[b] == before[b - 1]);
                }
            }
            assert(ranges@.take(i + 1) =~= ranges@.take(i as int).push(r));
            assert forall|x: int| covers(sorted@, x) == covers(ranges@.take(i + 1), x) by {
                lemma_covers_insert(before, j as int, r, x);
                lemma_covers_push(ranges@.take(i as int), r, x);
            }
        }
        i = i + 1;
    }
    assert(ranges@.take(ranges@.len() as int) =~= ranges@);
    // Join in one pass.
    let mut out: Vec<(usize, usize)> = Vec::new();
    let mut i: usize = 0;
    while i < sorted.len()
        invariant
            i <= sorted@.len(),
            by_start(sorted@),
            separated(out@),
            out@.len() > 0 ==> forall|k: int| i <= k < sorted@.len() ==> out@.last().0 <= (
            #[trigger] sorted@[k]).0,
            forall|x: int| covers(out@, x) == covers(sorted@.take(i as int), x),
        decreases sorted@.len() - i,
    {
        let (s, e) = sorted[i];
        let ghost prev = out@;
        proof {
            assert(sorted@.take(i + 1) =~= sorted@.take(i as int).push((s, e)));
        }
        if s >= e {
            proof {
                assert forall|x: int| covers(out@, x) == covers(sorted@.take(i + 1), x) by {
                    lemma_covers_push(sorted@.take(i as int), (s, e), x);
                }
            }
        } else if out.len() > 0 && s <= out[out.len() - 1].1 {
            let last = out.len() - 1;
            let (ls, le) = out[last];
            let ne = if le < e {
                e
            } else {
                le
            };
            out.set(last, (ls, ne));
            proof {
                assert forall|k: int| 0 <= k < out@.len() implies (#[trigger] out@[k]).0 < out@[k].1 by {
                    if k < last {
                        assert(out@[k] == prev[k]);
                    }
                }
                assert forall|k: int| 0 <= k < out@.len() - 1 implies (#[trigger] out@[k]).1 < out@[k + 1].0 by {
                    assert(out@[k] == prev[k]);
                    if k + 1 < last {
                        assert(out@[k + 1] == prev[k + 1]);
                    }
                }
                assert forall|x: int| covers(out@, x) == covers(sorted@.take(i + 1), x) by {
                    lemma_covers_push(sorted@.take(i as int), (s, e), x);
                    if covers(out@, x) {
                        let k = choose|k: int| 0 <= k < out@.len() && (#[trigger] out@[k]).0 <= x < out@[k].1;
                        if k < last {
                            assert(out@[k] == prev[k]);
                            assert(covers(prev, x));
                        } else if x < le {
                            assert(covers(prev, x));
                        } else {
                            assert(s <= x < e);
                        }
                    }
                    if covers(prev, x) {
                        let k = choose|k: int| 0 <= k < prev.len() && (#[trigger] prev[k]).0 <= x < prev[k].1;
                        if k < last {
                            assert(out@[k] == prev[k]);
                        } else {
                            assert(out@[last as int].0 <= x < out@[last as int].1);
                        }
                        assert(covers(out@, x));
                    }
                    if s <= x < e {
                        assert(out@[last as int].0 <= x < out@[last as int].1);
                        assert(covers(out@, x));
                    }
                }
            }
        } else {
            out.push((s, e));
            proof {
                assert forall|k: int| 0 <= k < out@.len() implies (#[trigger] out@[k]).0 < out@[k].1 by {
                    if k < prev.len() {
                        assert(out@[k] == prev[k]);
                    }
                }
                assert forall|k: int| 0 <= k < out@.len() - 1 implies (#[trigger] out@[k]).1 < out@[k + 1].0 by {
                    assert(out@[k] == prev[k]);
                    if k + 1 < prev.len() {
                        assert(out@[k + 1] == prev[k + 1]);
                    }
                }
                assert forall|x: int| covers(out@, x) == covers(sorted@.take(i + 1), x) by {
                    lemma_covers_push(sorted@.take(i as int), (s, e), x);
                    lemma_covers_push(prev, (s, e), x);
                }
            }
        }
        proof {
            if out@.len() > 0 {
                assert forall|k: int| i + 1 <= k < sorted@.len() implies out@.last().0 <= (
                #[trigger] sorted@[k]).0 by {
                    assert(sorted@[i as int].0 <= sorted@[k].0);
                    if prev.len() > 0 {
                        assert(prev.last().0 <= sorted@[k].0);
                    }
                }
            }
        }
        i = i + 1;
    }
    assert(sorted@.take(sorted@.len() as int) =~= sorted@);
    out
}

} // verus!

verus! {

/// `str::to_lowercase` of a text.
pub uninterp spec fn to_lower(s: Seq<char>) -> Seq<char>;

/// Lowercases `s` with std's `str::to_lowercase` (full Unicode case mapping).
/// The result is named, a function of `s` alone; every character maps to one
/// or more characters, so a non-empty text stays non-empty. On ASCII text the
/// Unicode lowercase mapping is ASCII's own: `A`–`Z` become `a`–`z`, every
/// other character stays (std documents `str::to_lowercase` as lowercasing
/// ASCII characters as `to_ascii_lowercase` does, and non-ASCII ones too).
#[verifier::external_body]
pub(crate) fn lowercase(s: &str) -> (r: String)
    ensures
        r@ == to_lower(s@),
        s@.len() > 0 ==> r@.len() > 0,
        vstd::utf8::is_ascii_chars(s@) ==> r@ == s@.map_values(|c: char| crate::text::ascii_lower(c)),
{
    s.to_lowercase()
}

/// The first char index at or after `start` where `n` occurs in `l`.
pub open spec fn first_match(l: Seq<char>, n: Seq<char>, start: nat) -> Option<nat>
    decreases l.len() + 1 - start,
{
    if start + n.len() > l.len() {
        None
    } else if l.subrange(start as int, (start + n.len()) as int) == n {
        Some(start)
    } else {
        first_match(l, n, start + 1)
    }
}

pub proof fn lemma_first_match(l: Seq<char>, n: Seq<char>, start: nat)
    ensures
        first_match(l, n, start) matches Some(k) ==> start <= k && k + n.len() <= l.len(),
    decreases l.len() + 1 - start,
{
    if start + n.len() <= l.len() && l.subrange(start as int, (start + n.len()) as int) != n {
        lemma_first_match(l, n, start + 1);
    }
}

/// The non-overlapping occurrences of a non-empty `n` in `l` from `start` on,
/// leftmost first, as char index ranges.
pub open spec fn occurrences(l: Seq<char>, n: Seq<char>, start: nat) -> Seq<(nat, nat)>
    decreases l.len() - start,
{
    if n.len() == 0 {
        seq![]
    } else {
        match first_match(l, n, start) {
            None => seq![],
            Some(k) => {
                proof {
                    lemma_first_match(l, n, start);
                }
                seq![(k, k + n.len())] + occurrences(l, n, k + n.len())
            },
        }
    }
}

/// Char index ranges of `l` as byte ranges.
pub open spec fn to_bytes(l: Seq<char>, o: Seq<(nat, nat)>) -> Seq<(nat, nat)> {
    o.map_values(|p: (nat, nat)| (blen(l.take(p.0 as int)), blen(l.take(p.1 as int))))
}

/// Byte ranges in `l` of every query word, lowercased.
pub open spec fn all_ranges(l: Seq<char>, toks: Seq<Seq<char>>) -> Seq<(nat, nat)>
    decreases toks.len(),
{
    if toks.len() == 0 {
        seq![]
    } else {
        all_ranges(l, toks.drop_last()) + to_bytes(l, occurrences(l, to_lower(toks.last()), 0))
    }
}

pub open spec fn ncovers(v: Seq<(nat, nat)>, x: int) -> bool {
    exists|k: int| 0 <= k < v.len() && (#[trigger] v[k]).0 <= x < v[k].1
}

pub open spec fn nat_ranges(v: Seq<(usize, usize)>) -> Seq<(nat, nat)> {
    v.map_values(|p: (usize, usize)| (p.0 as nat, p.1 as nat))
}

/// The snippet as displayed, and the byte ranges of its lowercased form that
/// match a query word.
pub open spec fn display_of(snippet: Seq<char>) -> Seq<char> {
    crate::listing::spec_snippet_cli_display(snippet)
}

pub open spec fn match_ranges(snippet: Seq<char>, query: Seq<char>) -> Seq<(nat, nat)> {
    all_ranges(to_lower(display_of(snippet)), words(query))
}

/// Whether char `i` of `d` starts inside a matched range.
pub open spec fn covered(d: Seq<char>, r: Seq<(nat, nat)>, i: int) -> bool {
    ncovers(r, blen(d.take(i)) as int)
}

/// A point where the matched ranges begin or end.
pub open spec fn edge(r: Seq<(nat, nat)>, x: int) -> bool {
    ncovers(r, x) != ncovers(r, x - 1)
}

/// Every place where a highlight opens or closes falls between characters of
/// the displayed snippet (else slicing the snippet there panics).
pub open spec fn highlight_fits(snippet: Seq<char>, query: Seq<char>) -> bool {
    forall|x: int|
        #[trigger] edge(match_ranges(snippet, query), x) ==> crate::shell::char_boundary(
            display_of(snippet),
            x,
        )
}

pub open spec fn hl_on() -> Seq<char> {
    seq!['\x1b', '[', '1', ';', '3', '3', 'm']
}

pub open spec fn hl_off() -> Seq<char> {
    seq!['\x1b', '[', '0', 'm']
}

/// The first `k` characters of `d`, each covered run wrapped in bold yellow.
pub open spec fn hl_chars(d: Seq<char>, r: Seq<(nat, nat)>, k: nat) -> Seq<char>
    decreases k,
{
    if k == 0 {
        seq![]
    } else {
        let i = k - 1;
        let c = covered(d, r, i);
        let on = c && (i == 0 || !covered(d, r, i - 1));
        let off = c && (i + 1 == d.len() || !covered(d, r, i + 1));
        hl_chars(d, r, i as nat) + (if on {
            hl_on()
        } else {
            seq![]
        }) + seq![d[i]] + (if off {
            hl_off()
        } else {
            seq![]
        })
    }
}

/// The displayed snippet with every case-insensitive match of a query word
/// highlighted (overlapping and adjacent matches form one highlight).
pub open spec fn spec_highlight(snippet: Seq<char>, query: Seq<char>) -> Seq<char> {
    let d = display_of(snippet);
    hl_chars(d, match_ranges(snippet, query), d.len())
}

/// Byte offset of every char boundary of `v`: `offs[k]` is the UTF-8 length of `v[..k]`.
pub(crate) fn prefix_offsets(v: &[char], total: usize) -> (offs: Vec<usize>)
    requires
        blen(v@) == total,
    ensures
        offs@.len() == v@.len() + 1,
        forall|k: int| 0 <= k <= v@.len() ==> #[trigger] offs@[k] == blen(v@.take(k)),
{
    let mut offs: Vec<usize> = Vec::new();
    offs.push(0);
    assert(v@.take(0) =~= Seq::<char>::empty());
    let mut i: usize = 0;
    let mut cur: usize = 0;
    while i < v.len()
        invariant
            i <= v@.len(),
            blen(v@) == total,
            offs@.len() == i + 1,
            cur == blen(v@.take(i as int)),
            forall|k: int| 0 <= k <= i ==> #[trigger] offs@[k] == blen(v@.take(k)),
        decreases v@.len() - i,
    {
        proof {
            crate::text::lemma_blen_push(v@.take(i as int), v@[i as int]);
            assert(v@.take(i as int).push(v@[i as int]) =~= v@.take(i + 1));
            crate::shell::lemma_blen_take_grows(v@, i + 1, v@.len() as int);
            assert(v@.take(v@.len() as int) =~= v@);
        }
        cur = cur + crate::text::utf8_width(v[i]);
        offs.push(cur);
        i = i + 1;
    }
    offs
}

pub(crate) fn first_match_from(l: &[char], n: &[char], start: usize) -> (r: Option<usize>)
    ensures
        match r {
            Some(k) => first_match(l@, n@, start as nat) == Some(k as nat),
            None => first_match(l@, n@, start as nat) is None,
        },
{
    let mut k = start;
    let ll = l.len();
    let nl = n.len();
    while k <= ll && nl <= ll - k
        invariant
            start <= k,
            ll == l@.len(),
            nl == n@.len(),
            first_match(l@, n@, start as nat) == first_match(l@, n@, k as nat),
        decreases l@.len() + 1 - k,
    {
        let mut j: usize = 0;
        while j < nl && l[k + j] == n[j]
            invariant
                j <= n@.len(),
                ll == l@.len(),
                nl == n@.len(),
                k + nl <= ll,
                forall|t: int| 0 <= t < j ==> l@[k + t] == n@[t],
            decreases n@.len() - j,
        {
            j = j + 1;
        }
        if j == nl {
            assert(l@.subrange(k as int, k + n@.len()) =~= n@);
            return Some(k);
        }
        assert(l@.subrange(k as int, k + n@.len())[j as int] != n@[j as int]);
        k = k + 1;
    }
    None
}

/// Appends the byte ranges of the occurrences of `n` in `l` to `ranges`.
fn push_occurrences(l: &[char], n: &[char], offs: &Vec<usize>, ranges: &mut Vec<(usize, usize)>)
    requires
        n@.len() > 0,
        offs@.len() == l@.len() + 1,
        forall|k: int| 0 <= k <= l@.len() ==> #[trigger] offs@[k] == blen(l@.take(k)),
    ensures
        nat_ranges(final(ranges)@) == nat_ranges(old(ranges)@) + to_bytes(
            l@,
            occurrences(l@, n@, 0),
        ),
{
    let ghost base = nat_ranges(ranges@);
    let ghost all = occurrences(l@, n@, 0);
    let mut start: usize = 0;
    let ghost mut taken: Seq<(nat, nat)> = seq![];
    assert(all == taken + occurrences(l@, n@, 0));
    while start <= l.len()
        invariant
            n@.len() > 0,
            start <= l@.len() + 1,
            offs@.len() == l@.len() + 1,
            forall|k: int| 0 <= k <= l@.len() ==> #[trigger] offs@[k] == blen(l@.take(k)),
            all == taken + occurrences(l@, n@, start as nat),
            nat_ranges(ranges@) == base + to_bytes(l@, taken),
        ensures
            all == taken,
            nat_ranges(ranges@) == base + to_bytes(l@, taken),
        decreases l@.len() + 1 - start,
    {
        match first_match_from(l, n, start) {
            None => {
                assert(occurrences(l@, n@, start as nat) =~= Seq::<(nat, nat)>::empty());
                assert(taken + Seq::<(nat, nat)>::empty() =~= taken);
                break;
            },
            Some(k) => {
                proof {
                    lemma_first_match(l@, n@, start as nat);
                }
                let e = k + n.len();
                let ghost t0 = taken;
                let ghost r0 = ranges@;
                ranges.push((offs[k], offs[e]));
                assert(nat_ranges(ranges@) =~= nat_ranges(r0).push(
                    (blen(l@.take(k as int)), blen(l@.take(e as int))),
                ));
                proof {
                    taken = taken.push((k as nat, e as nat));
                    assert(seq![(k as nat, e as nat)] + occurrences(l@, n@, e as nat) == occurrences(
                        l@,
                        n@,
                        start as nat,
                    ));
                    assert(t0 + occurrences(l@, n@, start as nat) =~= taken + occurrences(
                        l@,
                        n@,
                        e as nat,
                    ));
                    assert(to_bytes(l@, taken) =~= to_bytes(l@, t0).push(
                        (blen(l@.take(k as int)), blen(l@.take(e as int))),
                    ));
                    assert(nat_ranges(ranges@) =~= base + to_bytes(l@, taken));
                }
                start = e;
            },
        }
        proof {
            if start > l.len() {
                assert(first_match(l@, n@, start as nat) is None);
                assert(occurrences(l@, n@, start as nat) =~= Seq::<(nat, nat)>::empty());
                assert(taken + Seq::<(nat, nat)>::empty() =~= taken);
            }
        }
    }
}

proof fn lemma_covers_nat(v: Seq<(usize, usize)>, x: int)
    ensures
        covers(v, x) == ncovers(nat_ranges(v), x),
{
    let w = nat_ranges(v);
    if covers(v, x) {
        let k = choose|k: int| 0 <= k < v.len() && (#[trigger] v[k]).0 <= x < v[k].1;
        assert(w[k].0 <= x < w[k].1);
    }
    if ncovers(w, x) {
        let k = choose|k: int| 0 <= k < w.len() && (#[trigger] w[k]).0 <= x < w[k].1;
        assert(v[k].0 <= x < v[k].1);
    }
}

fn in_ranges(v: &Vec<(usize, usize)>, x: usize) -> (b: bool)
    ensures
        b == covers(v@, x as int),
{
    let mut i: usize = 0;
    while i < v.len()
        invariant
            i <= v@.len(),
            forall|k: int| 0 <= k < i ==> !((#[trigger] v@[k]).0 <= x < v@[k].1),
        decreases v@.len() - i,
    {
        if v[i].0 <= x && x < v[i].1 {
            return true;
        }
        i = i + 1;
    }
    false
}

fn push_seq(out: &mut Vec<char>, s: &[char])
    ensures
        final(out)@ == old(out)@ + s@,
{
    crate::text::append_chars(out, s);
}

/// The snippet as shown on a terminal, each case-insensitive match of a query
/// word in bold yellow.
pub fn highlight_query_in_snippet_tty(snippet: &str, query: &str) -> (r: String)
    requires
        vstd::utf8::is_ascii_chars(snippet@) || highlight_fits(snippet@, query@),
    ensures
        r@ == spec_highlight(snippet@, query@),
{
    let display = crate::listing::snippet_cli_display(snippet);
    let (merged, d) = merged_ranges(display.as_str(), query);
    proof {
        if vstd::utf8::is_ascii_chars(snippet@) {
            lemma_ascii_fits(snippet@, query@);
        }
    }
    let dv = chars_of(display.as_str());
    let dtotal = display.as_str().as_bytes_vec().len();
    let doffs = prefix_offsets(dv.as_slice(), dtotal);
    let ghost r = match_ranges(snippet@, query@);
    let mut covs: Vec<bool> = Vec::new();
    let mut k: usize = 0;
    while k < dv.len()
        invariant
            k <= dv@.len(),
            covs@.len() == k,
            doffs@.len() == dv@.len() + 1,
            forall|t: int| 0 <= t <= dv@.len() ==> #[trigger] doffs@[t] == blen(dv@.take(t)),
            forall|x: int| covers(merged@, x) == ncovers(r, x),
            forall|t: int| 0 <= t < k ==> #[trigger] covs@[t] == covered(dv@, r, t),
        decreases dv@.len() - k,
    {
        covs.push(in_ranges(&merged, doffs[k]));
        k = k + 1;
    }
    let on = chars_of("\x1b[1;33m");
    let off = chars_of("\x1b[0m");
    proof {
        reveal_strlit("\x1b[1;33m");
        reveal_strlit("\x1b[0m");
        assert(on@ =~= hl_on());
        assert(off@ =~= hl_off());
    }
    let mut out: Vec<char> = Vec::new();
    let n = dv.len();
    let mut i: usize = 0;
    while i < n
        invariant
            n == dv@.len(),
            i <= n,
            covs@.len() == n,
            on@ == hl_on(),
            off@ == hl_off(),
            forall|t: int| 0 <= t < n ==> #[trigger] covs@[t] == covered(dv@, r, t),
            out@ == hl_chars(dv@, r, i as nat),
        decreases n - i,
    {
        let c = covs[i];
        let open = c && (i == 0 || !covs[i - 1]);
        let close = c && (i + 1 == n || !covs[i + 1]);
        if open {
            push_seq(&mut out, on.as_slice());
        }
        out.push(dv[i]);
        if close {
            push_seq(&mut out, off.as_slice());
        }
        proof {
            let ghost h = hl_chars(dv@, r, i as nat);
            assert(out@ =~= hl_chars(dv@, r, (i + 1) as nat));
        }
        i = i + 1;
    }
    string_of(out.as_slice())
}

/// The merged match ranges (byte offsets into the lowercased display text) of
/// the query words.
fn merged_ranges(display: &str, query: &str) -> (r: (Vec<(usize, usize)>, Ghost<Seq<(nat, nat)>>))
    ensures
        r.1@ == all_ranges(to_lower(display@), words(query@)),
        forall|x: int| covers(r.0@, x) == ncovers(r.1@, x),
        separated(r.0@),
        vstd::utf8::is_ascii_chars(display@) ==> to_lower(display@) == display@.map_values(
            |c: char| crate::text::ascii_lower(c),
        ),
{
    let lower = lowercase(display);
    let lv = chars_of(lower.as_str());
    let ltotal = lower.as_str().as_bytes_vec().len();
    let loffs = prefix_offsets(lv.as_slice(), ltotal);
    let toks = split_words(chars_of(query).as_slice());
    proof {
        lemma_words_nonempty(query@);
    }
    let mut ranges: Vec<(usize, usize)> = Vec::new();
    let mut t: usize = 0;
    while t < toks.len()
        invariant
            t <= toks@.len(),
            views(toks@) == words(query@),
            forall|i: int| 0 <= i < words(query@).len() ==> (#[trigger] words(query@)[i]).len() > 0,
            lv@ == to_lower(display@),
            loffs@.len() == lv@.len() + 1,
            forall|k: int| 0 <= k <= lv@.len() ==> #[trigger] loffs@[k] == blen(lv@.take(k)),
            nat_ranges(ranges@) == all_ranges(lv@, views(toks@).take(t as int)),
        decreases toks@.len() - t,
    {
        assert(views(toks@)[t as int] == toks@[t as int]@);
        let ts = string_of(toks[t].as_slice());
        let needle = chars_of(lowercase(ts.as_str()).as_str());
        push_occurrences(lv.as_slice(), needle.as_slice(), &loffs, &mut ranges);
        proof {
            assert(views(toks@).take(t + 1).drop_last() =~= views(toks@).take(t as int));
            assert(views(toks@).take(t + 1).last() == toks@[t as int]@);
        }
        t = t + 1;
    }
    assert(views(toks@).take(toks@.len() as int) =~= views(toks@));
    let ghost rs = nat_ranges(ranges@);
    let merged = merge_intervals(ranges);
    proof {
        assert forall|x: int| covers(merged@, x) == ncovers(rs, x) by {
            lemma_covers_nat(ranges@, x);
        }
    }
    (merged, Ghost(rs))
}

} // verus!

verus! {

/// Every occurrence range lies within `l`.
proof fn lemma_occurrences_within(l: Seq<char>, n: Seq<char>, start: nat)
    ensures
        forall|k: int|
            0 <= k < occurrences(l, n, start).len() ==> (#[trigger] occurrences(l, n, start)[k]).0
                <= occurrences(l, n, start)[k].1 <= l.len(),
    decreases l.len() - start,
{
    if n.len() > 0 {
        lemma_first_match(l, n, start);
        if let Some(k) = first_match(l, n, start) {
            lemma_occurrences_within(l, n, k + n.len());
            let rest = occurrences(l, n, k + n.len());
            assert(occurrences(l, n, start) == seq![(k, k + n.len())] + rest);
            assert forall|j: int| 0 <= j < occurrences(l, n, start).len() implies (
            #[trigger] occurrences(l, n, start)[j]).0 <= occurrences(l, n, start)[j].1 <= l.len() by {
                if j > 0 {
                    assert(occurrences(l, n, start)[j] == rest[j - 1]);
                }
            }
        }
    }
}

/// On ASCII text a character count is a byte count.
proof fn lemma_ascii_blen(l: Seq<char>, p: int)
    requires
        vstd::utf8::is_ascii_chars(l),
        0 <= p <= l.len(),
    ensures
        blen(l.take(p)) == p,
{
    let t = l.take(p);
    assert(vstd::utf8::is_ascii_chars(t)) by {
        assert forall|i: int| 0 <= i < t.len() implies '\0' <= #[trigger] t[i] <= '\u{7f}' by {
            assert(t[i] == l[i]);
        }
    }
    vstd::utf8::is_ascii_chars_encode_utf8(t);
}

/// On ASCII text every matched byte range lies within the text.
proof fn lemma_ranges_within(l: Seq<char>, toks: Seq<Seq<char>>)
    requires
        vstd::utf8::is_ascii_chars(l),
    ensures
        forall|k: int|
            0 <= k < all_ranges(l, toks).len() ==> (#[trigger] all_ranges(l, toks)[k]).0 <= l.len()
                && all_ranges(l, toks)[k].1 <= l.len(),
    decreases toks.len(),
{
    if toks.len() > 0 {
        lemma_ranges_within(l, toks.drop_last());
        let a = all_ranges(l, toks.drop_last());
        let o = occurrences(l, to_lower(toks.last()), 0);
        lemma_occurrences_within(l, to_lower(toks.last()), 0);
        let b = to_bytes(l, o);
        assert(all_ranges(l, toks) == a + b);
        assert forall|k: int| 0 <= k < all_ranges(l, toks).len() implies (#[trigger] all_ranges(
            l,
            toks,
        )[k]).0 <= l.len() && all_ranges(l, toks)[k].1 <= l.len() by {
            if k >= a.len() {
                let j = k - a.len();
                assert(all_ranges(l, toks)[k] == b[j]);
                assert(o[j].0 <= o[j].1 <= l.len());
                lemma_ascii_blen(l, o[j].0 as int);
                lemma_ascii_blen(l, o[j].1 as int);
            } else {
                assert(all_ranges(l, toks)[k] == a[k]);
            }
        }
    }
}

/// An ASCII snippet always fits: lowercasing keeps every character one byte
/// long, so every highlight opens and closes between characters.
proof fn lemma_ascii_fits(snippet: Seq<char>, query: Seq<char>)
    requires
        vstd::utf8::is_ascii_chars(snippet),
        to_lower(display_of(snippet)) == display_of(snippet).map_values(
            |c: char| crate::text::ascii_lower(c),
        ),
    ensures
        highlight_fits(snippet, query),
{
    let d = display_of(snippet);
    let l = to_lower(d);
    assert(vstd::utf8::is_ascii_chars(d)) by {
        assert forall|i: int| 0 <= i < d.len() implies '\0' <= #[trigger] d[i] <= '\u{7f}' by {
            assert(snippet[i] == snippet[i]);
        }
    }
    assert(vstd::utf8::is_ascii_chars(l)) by {
        assert forall|i: int| 0 <= i < l.len() implies '\0' <= #[trigger] l[i] <= '\u{7f}' by {
            assert(l[i] == crate::text::ascii_lower(d[i]));
        }
    }
    let r = match_ranges(snippet, query);
    lemma_ranges_within(l, words(query));
    assert forall|x: int| #[trigger] edge(r, x) implies crate::shell::char_boundary(d, x) by {
        let k = if ncovers(r, x) {
            choose|k: int| 0 <= k < r.len() && (#[trigger] r[k]).0 <= x < r[k].1
        } else {
            choose|k: int| 0 <= k < r.len() && (#[trigger] r[k]).0 <= x - 1 < r[k].1
        };
        if ncovers(r, x) {
            if r[k].0 < x {
                assert(r[k].0 <= x - 1 < r[k].1);
                assert(ncovers(r, x - 1));
            }
            assert(r[k].0 == x);
        } else {
            if r[k].1 > x {
                assert(ncovers(r, x));
            }
            assert(r[k].1 == x);
        }
        assert(0 <= x <= d.len());
        lemma_ascii_blen(d, x);
        assert(crate::shell::at_byte(d, x, x));
    }
}

/// `x` starts or ends one of the ranges of `m`.
pub open spec fn endpoint(m: Seq<(usize, usize)>, x: int) -> bool {
    exists|k: int| 0 <= k < m.len() && ((#[trigger] m[k]).0 == x || m[k].1 == x)
}

proof fn lemma_separated_chain(m: Seq<(usize, usize)>, a: int, b: int)
    requires
        separated(m),
        0 <= a < b < m.len(),
    ensures
        m[a].1 < m[b].0,
    decreases b - a,
{
    if b > a + 1 {
        lemma_separated_chain(m, a, b - 1);
        assert(m[b - 1].0 < m[b - 1].1);
        assert(m[b - 1].1 < m[b].0);
    } else {
        assert(m[a].1 < m[a + 1].0);
    }
}

/// Where separated ranges begin or end is exactly where coverage changes.
proof fn lemma_edges_are_endpoints(m: Seq<(usize, usize)>, x: int)
    requires
        separated(m),
    ensures
        (covers(m, x) != covers(m, x - 1)) == endpoint(m, x),
{
    if endpoint(m, x) {
        let i = choose|k: int| 0 <= k < m.len() && ((#[trigger] m[k]).0 == x || m[k].1 == x);
        assert(m[i].0 < m[i].1);
        if m[i].0 == x {
            assert(covers(m, x));
            if covers(m, x - 1) {
                let k = choose|k: int| 0 <= k < m.len() && (#[trigger] m[k]).0 <= x - 1 < m[k].1;
                if k < i {
                    lemma_separated_chain(m, k, i);
                } else if k > i {
                    lemma_separated_chain(m, i, k);
                }
            }
        } else {
            assert(covers(m, x - 1));
            if covers(m, x) {
                let k = choose|k: int| 0 <= k < m.len() && (#[trigger] m[k]).0 <= x < m[k].1;
                if k < i {
                    lemma_separated_chain(m, k, i);
                } else if k > i {
                    lemma_separated_chain(m, i, k);
                }
            }
        }
    } else {
        if covers(m, x) {
            let i = choose|k: int| 0 <= k < m.len() && (#[trigger] m[k]).0 <= x < m[k].1;
            assert(m[i].0 != x);
            assert(m[i].0 <= x - 1 < m[i].1);
        }
        if covers(m, x - 1) {
            let i = choose|k: int| 0 <= k < m.len() && (#[trigger] m[k]).0 <= x - 1 < m[k].1;
            assert(m[i].1 != x);
            assert(m[i].0 <= x < m[i].1);
        }
    }
}

fn in_offsets(offs: &Vec<usize>, x: usize) -> (b: bool)
    ensures
        b == exists|k: int| 0 <= k < offs@.len() && #[trigger] offs@[k] == x,
{
    let mut i: usize = 0;
    while i < offs.len()
        invariant
            i <= offs@.len(),
            forall|k: int| 0 <= k < i ==> #[trigger] offs@[k] != x,
        decreases offs@.len() - i,
    {
        if offs[i] == x {
            return true;
        }
        i = i + 1;
    }
    false
}

/// `highlight_query_in_snippet_tty` where it applies: none when a highlight
/// would open or close inside a character of the snippet (which happens only
/// when lowercasing changes a character's UTF-8 length).
pub fn try_highlight_query_in_snippet_tty(snippet: &str, query: &str) -> (r: Option<String>)
    ensures
        r is Some <==> highlight_fits(snippet@, query@),
        r matches Some(s) ==> s@ == spec_highlight(snippet@, query@),
        vstd::utf8::is_ascii_chars(snippet@) ==> r is Some,
{
    let display = crate::listing::snippet_cli_display(snippet);
    let (merged, g) = merged_ranges(display.as_str(), query);
    proof {
        if vstd::utf8::is_ascii_chars(snippet@) {
            lemma_ascii_fits(snippet@, query@);
        }
    }
    let dv = chars_of(display.as_str());
    let dtotal = display.as_str().as_bytes_vec().len();
    let doffs = prefix_offsets(dv.as_slice(), dtotal);
    let ghost d = display_of(snippet@);
    let ghost rr = match_ranges(snippet@, query@);
    assert(g@ == rr);
    let mut i: usize = 0;
    while i < merged.len()
        invariant
            i <= merged@.len(),
            rr == match_ranges(snippet@, query@),
            d == display_of(snippet@),
            vstd::utf8::is_ascii_chars(snippet@) ==> highlight_fits(snippet@, query@),
            separated(merged@),
            forall|x: int| covers(merged@, x) == ncovers(rr, x),
            dv@ == d,
            doffs@.len() == d.len() + 1,
            forall|t: int| 0 <= t <= d.len() ==> #[trigger] doffs@[t] == blen(d.take(t)),
            forall|k: int|
                0 <= k < i ==> crate::shell::char_boundary(d, (#[trigger] merged@[k]).0 as int)
                    && crate::shell::char_boundary(d, merged@[k].1 as int),
        decreases merged@.len() - i,
    {
        let (s, e) = merged[i];
        let ok_s = in_offsets(&doffs, s);
        let ok_e = in_offsets(&doffs, e);
        proof {
            if ok_s {
                let t = choose|t: int| 0 <= t < doffs@.len() && #[trigger] doffs@[t] == s;
                assert(crate::shell::at_byte(d, s as int, t));
            } else {
                assert forall|t: int| !crate::shell::at_byte(d, s as int, t) by {
                    if crate::shell::at_byte(d, s as int, t) {
                        assert(doffs@[t] == s);
                    }
                }
            }
            if ok_e {
                let t = choose|t: int| 0 <= t < doffs@.len() && #[trigger] doffs@[t] == e;
                assert(crate::shell::at_byte(d, e as int, t));
            } else {
                assert forall|t: int| !crate::shell::at_byte(d, e as int, t) by {
                    if crate::shell::at_byte(d, e as int, t) {
                        assert(doffs@[t] == e);
                    }
                }
            }
        }
        if !(ok_s && ok_e) {
            proof {
                let x = if !ok_s {
                    s as int
                } else {
                    e as int
                };
                assert(endpoint(merged@, x));
                lemma_edges_are_endpoints(merged@, x);
                assert(edge(rr, x));
                assert(!crate::shell::char_boundary(d, x));
                assert(!highlight_fits(snippet@, query@));
            }
            return None;
        }
        i = i + 1;
    }
    proof {
        assert forall|x: int| #[trigger] edge(rr, x) implies crate::shell::char_boundary(d, x) by {
            lemma_edges_are_endpoints(merged@, x);
            let k = choose|k: int|
                0 <= k < merged@.len() && ((#[trigger] merged@[k]).0 == x || merged@[k].1 == x);
            assert(crate::shell::char_boundary(d, merged@[k].0 as int));
        }
    }
    Some(highlight_query_in_snippet_tty(snippet, query))
}

} // verus!

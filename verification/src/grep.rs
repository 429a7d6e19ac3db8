//! `grep` on one document: the line pattern, and a matching line as shown on a
//! terminal (numbered, each match in bold yellow).

use vstd::prelude::*;
use crate::text::{blen, chars_of, string_of, append_chars, copy_range, dec, dec_chars};
use crate::shell::{at_byte, char_boundary, lemma_blen_take_grows};
use crate::highlight::{hl_on, hl_off, prefix_offsets};

verus! {

#[verifier::external_type_specification]
#[verifier::external_body]
pub struct ExRegex(regex::Regex);

/// What the regex crate makes of a pattern: `Ok` when `Regex::new` accepts
/// it, else the crate's message for it.
pub uninterp spec fn regex_outcome(pattern: Seq<char>) -> Result<(), Seq<char>>;

/// The byte ranges of the successive non-overlapping matches of `pattern` in
/// `text` (`Regex::find_iter`).
pub uninterp spec fn regex_matches(pattern: Seq<char>, text: Seq<char>) -> Seq<(nat, nat)>;

/// A compiled line pattern, with the text it was compiled from.
pub struct LinePattern {
    source: String,
    re: regex::Regex,
}

impl LinePattern {
    /// The pattern this regex was compiled from.
    pub closed spec fn source(self) -> Seq<char> {
        self.source@
    }
}

pub open spec fn nat_pairs(v: Seq<(usize, usize)>) -> Seq<(nat, nat)> {
    v.map_values(|p: (usize, usize)| (p.0 as nat, p.1 as nat))
}

/// Byte ranges that can slice `text`: each starts no later than it ends, both
/// ends fall between characters, and each range starts where or after the one
/// before it ends.
pub open spec fn well_placed(text: Seq<char>, ms: Seq<(nat, nat)>) -> bool {
    &&& forall|k: int|
        0 <= k < ms.len() ==> (#[trigger] ms[k]).0 <= ms[k].1 && char_boundary(text, ms[k].0 as int)
            && char_boundary(text, ms[k].1 as int)
    &&& forall|k: int, m: int| 0 <= k < m < ms.len() ==> (#[trigger] ms[k]).1 <= (#[trigger] ms[m]).0
}

/// The regex crate's `Regex::new`. Claimed: it compiles exactly when
/// `regex_outcome` is `Ok`, the regex keeps the pattern it came from, and a
/// refusal carries the crate's message (`Error`'s `Display`).
#[verifier::external_body]
fn build_line_pattern(pattern: &str) -> (r: Result<LinePattern, String>)
    ensures
        r is Ok <==> regex_outcome(pattern@) is Ok,
        r matches Ok(p) ==> p.source() == pattern@,
        r matches Err(e) ==> regex_outcome(pattern@) is Err && regex_outcome(pattern@)->Err_0 == e@,
{
    match regex::Regex::new(pattern) {
        Ok(re) => Ok(LinePattern { source: pattern.to_string(), re }),
        Err(e) => Err(e.to_string()),
    }
}

/// The regex crate's `Regex::find_iter`, each `Match` taken as its
/// `(start, end)` byte offsets. Claimed: the ranges are `regex_matches` of the
/// pattern and the text, and (as the crate documents for `Match` and
/// `find_iter`) they are successive, non-overlapping, with `start <= end`,
/// both on UTF-8 boundaries of the text.
#[verifier::external_body]
fn find_match_ranges(p: &LinePattern, text: &str) -> (r: Vec<(usize, usize)>)
    ensures
        nat_pairs(r@) == regex_matches(p.source(), text@),
        well_placed(text@, nat_pairs(r@)),
{
    p.re.find_iter(text).map(|m| (m.start(), m.end())).collect()
}

/// The error text of a refused `grep` pattern.
pub open spec fn pattern_error(pattern: Seq<char>) -> Seq<char> {
    "grep: "@ + regex_outcome(pattern)->Err_0
}

/// Compiles a `grep` pattern; one the regex crate refuses is reported as
/// `grep: <the crate's reason>`.
pub fn compile_line_pattern(pattern: &str) -> (r: Result<LinePattern, String>)
    ensures
        r is Ok <==> regex_outcome(pattern@) is Ok,
        r matches Ok(p) ==> p.source() == pattern@,
        r matches Err(e) ==> e@ == pattern_error(pattern@),
{
    match build_line_pattern(pattern) {
        Ok(p) => Ok(p),
        Err(reason) => {
            let mut v = chars_of("grep: ");
            append_chars(&mut v, chars_of(reason.as_str()).as_slice());
            Err(string_of(v.as_slice()))
        },
    }
}

/// The character index at byte offset `pos` of `s`.
pub open spec fn char_index(s: Seq<char>, pos: int) -> int {
    choose|k: int| at_byte(s, pos, k)
}

pub proof fn lemma_char_index(s: Seq<char>, pos: int, k: int)
    requires
        at_byte(s, pos, k),
    ensures
        char_index(s, pos) == k,
{
    let c = char_index(s, pos);
    assert(at_byte(s, pos, c));
    if c < k {
        lemma_blen_take_grows(s, c, k);
    } else if k < c {
        lemma_blen_take_grows(s, k, c);
    }
}

proof fn lemma_char_index_mono(s: Seq<char>, a: int, b: int)
    requires
        char_boundary(s, a),
        char_boundary(s, b),
        a <= b,
    ensures
        0 <= char_index(s, a) <= char_index(s, b) <= s.len(),
{
    let ka = choose|k: int| at_byte(s, a, k);
    let kb = choose|k: int| at_byte(s, b, k);
    lemma_char_index(s, a, ka);
    lemma_char_index(s, b, kb);
    if kb < ka {
        lemma_blen_take_grows(s, kb, ka);
    }
}

/// `pos` written with at least four digits (leading zeros), then `: `.
pub open spec fn line_label(n: nat) -> Seq<char> {
    let d = dec(n);
    (if d.len() < 4 {
        Seq::new((4 - d.len()) as nat, |i: int| '0') + d
    } else {
        d
    }) + seq![':', ' ']
}

/// The text from character `last` on, each match from the `k`-th on wrapped
/// in bold yellow (an empty match still shows its two codes).
pub open spec fn marked_from(t: Seq<char>, ms: Seq<(nat, nat)>, k: int, last: int) -> Seq<char>
    decreases ms.len() - k,
{
    if k < 0 || k >= ms.len() {
        t.subrange(last, t.len() as int)
    } else {
        let s = char_index(t, ms[k].0 as int);
        let e = char_index(t, ms[k].1 as int);
        t.subrange(last, s) + hl_on() + t.subrange(s, e) + hl_off() + marked_from(t, ms, k + 1, e)
    }
}

/// A matching line as `grep` shows it on a terminal.
pub open spec fn spec_grep_line(n: nat, text: Seq<char>, ms: Seq<(nat, nat)>) -> Seq<char> {
    line_label(n) + marked_from(text, ms, 0, 0) + seq!['\n']
}

fn line_label_chars(n: usize) -> (r: Vec<char>)
    ensures
        r@ == line_label(n as nat),
{
    let d = dec_chars(n as u64);
    let mut r: Vec<char> = Vec::new();
    if d.len() < 4 {
        let pad = 4 - d.len();
        let mut i: usize = 0;
        while i < pad
            invariant
                i <= pad,
                r@ == Seq::new(i as nat, |j: int| '0'),
            decreases pad - i,
        {
            r.push('0');
            i = i + 1;
            assert(r@ =~= Seq::new(i as nat, |j: int| '0'));
        }
    }
    append_chars(&mut r, d.as_slice());
    r.push(':');
    r.push(' ');
    r
}

/// Index of the character that starts at byte offset `pos`.
fn index_at(offs: &Vec<usize>, pos: usize) -> (k: usize)
    requires
        exists|t: int| 0 <= t < offs@.len() && offs@[t] == pos,
    ensures
        k < offs@.len(),
        offs@[k as int] == pos,
{
    let mut i: usize = 0;
    while i < offs.len()
        invariant
            i <= offs@.len(),
            forall|t: int| 0 <= t < i ==> offs@[t] != pos,
            exists|t: int| 0 <= t < offs@.len() && offs@[t] == pos,
        decreases offs@.len() - i,
    {
        if offs[i] == pos {
            return i;
        }
        i = i + 1;
    }
    i
}

/// A line with the given match ranges marked, as `grep` shows it on a
/// terminal: the line number with at least four digits, `: `, the text with
/// each match in bold yellow, and a newline.
pub fn grep_line_from_matches(line_no: usize, text: &str, matches: &Vec<(usize, usize)>) -> (r:
    String)
    requires
        well_placed(text@, nat_pairs(matches@)),
    ensures
        r@ == spec_grep_line(line_no as nat, text@, nat_pairs(matches@)),
{
    let tv = chars_of(text);
    let total = text.as_bytes_vec().len();
    let offs = prefix_offsets(tv.as_slice(), total);
    let ghost ms = nat_pairs(matches@);
    let ghost t = text@;
    let on = chars_of("\x1b[1;33m");
    let off = chars_of("\x1b[0m");
    proof {
        reveal_strlit("\x1b[1;33m");
        reveal_strlit("\x1b[0m");
        assert(on@ =~= hl_on());
        assert(off@ =~= hl_off());
    }
    let mut out = line_label_chars(line_no);
    let ghost label = out@;
    let mut last: usize = 0;
    let mut k: usize = 0;
    while k < matches.len()
        invariant
            k <= matches@.len(),
            ms == nat_pairs(matches@),
            t == text@,
            tv@ == t,
            well_placed(t, ms),
            on@ == hl_on(),
            off@ == hl_off(),
            offs@.len() == t.len() + 1,
            forall|j: int| 0 <= j <= t.len() ==> #[trigger] offs@[j] == blen(t.take(j)),
            last <= t.len(),
            k == 0 ==> last == 0,
            k > 0 ==> last == char_index(t, ms[k - 1].1 as int),
            out@ + marked_from(t, ms, k as int, last as int) == label + marked_from(t, ms, 0, 0),
        decreases matches@.len() - k,
    {
        let (s, e) = matches[k];
        assert(ms[k as int] == (s as nat, e as nat));
        let ghost ks = choose|j: int| at_byte(t, s as int, j);
        let ghost ke = choose|j: int| at_byte(t, e as int, j);
        proof {
            assert(char_boundary(t, s as int) && char_boundary(t, e as int));
            lemma_char_index(t, s as int, ks);
            lemma_char_index(t, e as int, ke);
            lemma_char_index_mono(t, s as int, e as int);
            assert(offs@[ks] == s);
            assert(offs@[ke] == e);
            if k > 0 {
                assert(ms[k - 1].1 <= ms[k as int].0);
                assert(char_boundary(t, ms[k - 1].1 as int));
                lemma_char_index_mono(t, ms[k - 1].1 as int, s as int);
            }
        }
        let si = index_at(&offs, s);
        let ei = index_at(&offs, e);
        proof {
            assert(at_byte(t, s as int, si as int));
            assert(at_byte(t, e as int, ei as int));
            lemma_char_index(t, s as int, si as int);
            lemma_char_index(t, e as int, ei as int);
        }
        let ghost before = out@;
        let head = copy_range(tv.as_slice(), last, si);
        let mid = copy_range(tv.as_slice(), si, ei);
        append_chars(&mut out, head.as_slice());
        append_chars(&mut out, on.as_slice());
        append_chars(&mut out, mid.as_slice());
        append_chars(&mut out, off.as_slice());
        proof {
            let piece = t.subrange(last as int, si as int) + hl_on() + t.subrange(si as int, ei as int)
                + hl_off();
            assert(out@ =~= before + piece);
            assert(marked_from(t, ms, k as int, last as int) == piece + marked_from(
                t,
                ms,
                k + 1,
                ei as int,
            ));
            assert(out@ + marked_from(t, ms, k + 1, ei as int) =~= before + marked_from(
                t,
                ms,
                k as int,
                last as int,
            ));
        }
        last = ei;
        k = k + 1;
    }
    let rest = copy_range(tv.as_slice(), last, tv.len());
    append_chars(&mut out, rest.as_slice());
    out.push('\n');
    proof {
        assert(marked_from(t, ms, k as int, last as int) == t.subrange(last as int, t.len() as int));
    }
    string_of(out.as_slice())
}

/// A matching line as `grep` shows it on a terminal, with every match of the
/// pattern in bold yellow.
pub fn grep_line_with_matches_tty(line_no: usize, text: &str, pattern: &LinePattern) -> (r: String)
    ensures
        r@ == spec_grep_line(line_no as nat, text@, regex_matches(pattern.source(), text@)),
{
    let ranges = find_match_ranges(pattern, text);
    grep_line_from_matches(line_no, text, &ranges)
}

} // verus!

//! Character-level string helpers with specifications over `Seq<char>`.
//!
//! Strings are read into `Vec<char>` once, worked on by index, and turned back
//! into `String` at the end; every helper states its result over the view.

use vstd::prelude::*;

verus! {

/// Unicode `White_Space`, the set that `char::is_whitespace` and `str::trim` use.
pub open spec fn is_ws(c: char) -> bool {
    let u = c as u32;
    ||| (0x9 <= u && u <= 0xd)
    ||| u == 0x20
    ||| u == 0x85
    ||| u == 0xa0
    ||| u == 0x1680
    ||| (0x2000 <= u && u <= 0x200a)
    ||| u == 0x2028
    ||| u == 0x2029
    ||| u == 0x202f
    ||| u == 0x205f
    ||| u == 0x3000
}

/// `char::is_whitespace`.
pub fn is_whitespace(c: char) -> (b: bool)
    ensures
        b == is_ws(c),
{
    let u = c as u32;
    (0x9 <= u && u <= 0xd) || u == 0x20 || u == 0x85 || u == 0xa0 || u == 0x1680 || (0x2000 <= u
        && u <= 0x200a) || u == 0x2028 || u == 0x2029 || u == 0x202f || u == 0x205f || u == 0x3000
}

/// Which characters a trim removes: whitespace, non-whitespace, `\r`/`\n`, or one given character.
#[derive(Clone, Copy)]
pub enum CharClass {
    Space,
    NonSpace,
    LineBreak,
    Exactly(char),
    Other(char),
}

pub open spec fn in_class(k: CharClass, c: char) -> bool {
    match k {
        CharClass::Space => is_ws(c),
        CharClass::NonSpace => !is_ws(c),
        CharClass::LineBreak => c == '\r' || c == '\n',
        CharClass::Exactly(x) => c == x,
        CharClass::Other(x) => c != x,
    }
}

fn class_has(k: CharClass, c: char) -> (b: bool)
    ensures
        b == in_class(k, c),
{
    match k {
        CharClass::Space => is_whitespace(c),
        CharClass::NonSpace => !is_whitespace(c),
        CharClass::LineBreak => c == '\r' || c == '\n',
        CharClass::Exactly(x) => c == x,
        CharClass::Other(x) => c != x,
    }
}

/// `s` with every leading character of class `k` removed (`trim_start_matches`).
pub open spec fn drop_front(s: Seq<char>, k: CharClass) -> Seq<char>
    decreases s.len(),
{
    if s.len() > 0 && in_class(k, s[0]) {
        drop_front(s.drop_first(), k)
    } else {
        s
    }
}

/// `s` with every trailing character of class `k` removed (`trim_end_matches`).
pub open spec fn drop_back(s: Seq<char>, k: CharClass) -> Seq<char>
    decreases s.len(),
{
    if s.len() > 0 && in_class(k, s.last()) {
        drop_back(s.drop_last(), k)
    } else {
        s
    }
}

/// `str::trim`.
pub open spec fn trim(s: Seq<char>) -> Seq<char> {
    drop_back(drop_front(s, CharClass::Space), CharClass::Space)
}

pub open spec fn starts_with(s: Seq<char>, p: Seq<char>) -> bool {
    p.len() <= s.len() && s.subrange(0, p.len() as int) == p
}

/// The views of a sequence of character vectors.
pub open spec fn views(v: Seq<Vec<char>>) -> Seq<Seq<char>> {
    Seq::new(v.len(), |i: int| v[i]@)
}

/// The maximal non-empty runs of characters other than `/`, in order.
pub open spec fn pieces(s: Seq<char>) -> Seq<Seq<char>>
    decreases s.len(),
{
    if s.len() == 0 {
        seq![]
    } else {
        let p = pieces(s.drop_last());
        let c = s.last();
        if c == '/' {
            p
        } else if s.len() >= 2 && s[s.len() - 2] != '/' {
            p.update(p.len() - 1, p.last().push(c))
        } else {
            p.push(seq![c])
        }
    }
}

/// `str::split(c)`: the pieces between occurrences of `c` (always at least one).
pub open spec fn split_on(s: Seq<char>, c: char) -> Seq<Seq<char>>
    decreases s.len(),
{
    if s.len() == 0 {
        seq![seq![]]
    } else {
        let p = split_on(s.drop_last(), c);
        if s.last() == c {
            p.push(seq![])
        } else {
            p.update(p.len() - 1, p.last().push(s.last()))
        }
    }
}

/// `[..].join(c)`.
pub open spec fn join_with(segs: Seq<Seq<char>>, c: char) -> Seq<char>
    decreases segs.len(),
{
    if segs.len() == 0 {
        seq![]
    } else if segs.len() == 1 {
        segs[0]
    } else {
        join_with(segs.drop_last(), c).push(c) + segs.last()
    }
}

pub proof fn lemma_drop_front_at(s: Seq<char>, k: CharClass, i: int)
    requires
        0 <= i <= s.len(),
        forall|j: int| 0 <= j < i ==> in_class(k, #[trigger] s[j]),
        i == s.len() || !in_class(k, s[i]),
    ensures
        drop_front(s, k) == s.subrange(i, s.len() as int),
    decreases i,
{
    if i > 0 {
        let t = s.drop_first();
        assert forall|j: int| 0 <= j < i - 1 implies in_class(k, #[trigger] t[j]) by {
            assert(t[j] == s[j + 1]);
        }
        lemma_drop_front_at(t, k, i - 1);
        assert(t.subrange(i - 1, t.len() as int) =~= s.subrange(i, s.len() as int));
    } else {
        assert(s.subrange(0, s.len() as int) =~= s);
    }
}

pub proof fn lemma_drop_back_at(s: Seq<char>, k: CharClass, e: int)
    requires
        0 <= e <= s.len(),
        forall|j: int| e <= j < s.len() ==> in_class(k, #[trigger] s[j]),
        e == 0 || !in_class(k, s[e - 1]),
    ensures
        drop_back(s, k) == s.subrange(0, e),
    decreases s.len() - e,
{
    if e < s.len() {
        let t = s.drop_last();
        assert forall|j: int| e <= j < t.len() implies in_class(k, #[trigger] t[j]) by {
            assert(t[j] == s[j]);
        }
        lemma_drop_back_at(t, k, e);
        assert(t.subrange(0, e) =~= s.subrange(0, e));
    } else {
        assert(s.subrange(0, e) =~= s);
    }
}

/// Copy of `v[a..b]`.
pub fn copy_range(v: &[char], a: usize, b: usize) -> (r: Vec<char>)
    requires
        a <= b <= v@.len(),
    ensures
        r@ == v@.subrange(a as int, b as int),
{
    let mut r: Vec<char> = Vec::new();
    let mut i = a;
    while i < b
        invariant
            a <= i <= b,
            b <= v@.len(),
            r@ == v@.subrange(a as int, i as int),
        decreases b - i,
    {
        r.push(v[i]);
        i = i + 1;
    }
    r
}

/// Index of the first character not of class `k` (or the length).
fn front_index(v: &[char], k: CharClass) -> (i: usize)
    ensures
        i <= v@.len(),
        drop_front(v@, k) == v@.subrange(i as int, v@.len() as int),
{
    let mut i: usize = 0;
    while i < v.len() && class_has(k, v[i])
        invariant
            i <= v@.len(),
            forall|j: int| 0 <= j < i ==> in_class(k, #[trigger] v@[j]),
        decreases v@.len() - i,
    {
        i = i + 1;
    }
    proof {
        lemma_drop_front_at(v@, k, i as int);
    }
    i
}

/// Index just past the last character not of class `k` (or 0).
fn back_index(v: &[char], k: CharClass) -> (e: usize)
    ensures
        e <= v@.len(),
        drop_back(v@, k) == v@.subrange(0, e as int),
{
    let mut e: usize = v.len();
    while e > 0 && class_has(k, v[e - 1])
        invariant
            e <= v@.len(),
            forall|j: int| e <= j < v@.len() ==> in_class(k, #[trigger] v@[j]),
        decreases e,
    {
        e = e - 1;
    }
    proof {
        lemma_drop_back_at(v@, k, e as int);
    }
    e
}

pub fn trim_front(v: &[char], k: CharClass) -> (r: Vec<char>)
    ensures
        r@ == drop_front(v@, k),
        r@.len() <= v@.len(),
{
    let i = front_index(v, k);
    copy_range(v, i, v.len())
}

pub fn trim_back(v: &[char], k: CharClass) -> (r: Vec<char>)
    ensures
        r@ == drop_back(v@, k),
        r@.len() <= v@.len(),
        r@ == v@.subrange(0, r@.len() as int),
{
    let e = back_index(v, k);
    copy_range(v, 0, e)
}

/// `str::trim`.
pub fn trim_ws(v: &[char]) -> (r: Vec<char>)
    ensures
        r@ == trim(v@),
{
    let a = trim_front(v, CharClass::Space);
    trim_back(a.as_slice(), CharClass::Space)
}

pub fn has_char(v: &[char], c: char) -> (b: bool)
    ensures
        b == v@.contains(c),
{
    let mut i: usize = 0;
    while i < v.len()
        invariant
            i <= v@.len(),
            forall|j: int| 0 <= j < i ==> v@[j] != c,
        decreases v@.len() - i,
    {
        if v[i] == c {
            return true;
        }
        i = i + 1;
    }
    false
}

pub fn chars_eq(a: &[char], b: &[char]) -> (r: bool)
    ensures
        r == (a@ == b@),
{
    if a.len() != b.len() {
        return false;
    }
    let mut i: usize = 0;
    while i < a.len()
        invariant
            a@.len() == b@.len(),
            i <= a@.len(),
            forall|j: int| 0 <= j < i ==> a@[j] == b@[j],
        decreases a@.len() - i,
    {
        if a[i] != b[i] {
            return false;
        }
        i = i + 1;
    }
    assert(a@ =~= b@);
    true
}

pub fn begins_with(s: &[char], p: &[char]) -> (r: bool)
    ensures
        r == starts_with(s@, p@),
{
    if p.len() > s.len() {
        return false;
    }
    let mut i: usize = 0;
    while i < p.len()
        invariant
            p@.len() <= s@.len(),
            i <= p@.len(),
            forall|j: int| 0 <= j < i ==> s@[j] == p@[j],
        decreases p@.len() - i,
    {
        if s[i] != p[i] {
            assert(s@.subrange(0, p@.len() as int)[i as int] != p@[i as int]);
            return false;
        }
        i = i + 1;
    }
    assert(s@.subrange(0, p@.len() as int) =~= p@);
    true
}

/// `pieces` of `v`: split on `/`, empty pieces dropped.
pub fn pieces_of(v: &[char]) -> (r: Vec<Vec<char>>)
    ensures
        views(r@) == pieces(v@),
{
    let mut done: Vec<Vec<char>> = Vec::new();
    let mut cur: Vec<char> = Vec::new();
    let mut i: usize = 0;
    while i < v.len()
        invariant
            i <= v@.len(),
            cur@.len() > 0 <==> (i > 0 && v@[i - 1] != '/'),
            pieces(v@.subrange(0, i as int)) == views(done@) + (if cur@.len() > 0 {
                seq![cur@]
            } else {
                Seq::<Seq<char>>::empty()
            }),
        decreases v@.len() - i,
    {
        let c = v[i];
        let ghost pre = v@.subrange(0, i as int);
        let ghost s = v@.subrange(0, i + 1);
        assert(s.drop_last() =~= pre);
        assert(s.last() == c);
        if c == '/' {
            if cur.len() > 0 {
                let ghost d0 = views(done@);
                done.push(cur);
                assert(views(done@) =~= d0.push(cur@));
                cur = Vec::new();
            }
            assert(pieces(s) == pieces(pre));
        } else {
            if cur.len() > 0 {
                assert(s[s.len() - 2] == v@[i - 1]);
                let ghost old_cur = cur@;
                cur.push(c);
                assert(pieces(s) =~= views(done@) + seq![cur@]);
            } else {
                cur.push(c);
                assert(cur@ =~= seq![c]);
                assert(pieces(s) =~= views(done@) + seq![cur@]);
            }
        }
        i = i + 1;
    }
    assert(v@.subrange(0, v@.len() as int) =~= v@);
    if cur.len() > 0 {
        let ghost d0 = views(done@);
        done.push(cur);
        assert(views(done@) =~= d0.push(cur@));
    } else {
        assert(views(done@) + Seq::<Seq<char>>::empty() =~= views(done@));
    }
    done
}

proof fn lemma_split_nonempty(s: Seq<char>, c: char)
    ensures
        split_on(s, c).len() > 0,
    decreases s.len(),
{
    if s.len() > 0 {
        lemma_split_nonempty(s.drop_last(), c);
    }
}

/// `str::split(c)` on `v`.
pub fn split_chars(v: &[char], c: char) -> (r: Vec<Vec<char>>)
    ensures
        views(r@) == split_on(v@, c),
{
    let mut done: Vec<Vec<char>> = Vec::new();
    let mut cur: Vec<char> = Vec::new();
    let mut i: usize = 0;
    assert(v@.subrange(0, 0) =~= Seq::<char>::empty());
    assert(split_on(Seq::<char>::empty(), c) =~= views(done@).push(cur@));
    while i < v.len()
        invariant
            i <= v@.len(),
            split_on(v@.subrange(0, i as int), c) == views(done@).push(cur@),
        decreases v@.len() - i,
    {
        let x = v[i];
        let ghost pre = v@.subrange(0, i as int);
        let ghost s = v@.subrange(0, i + 1);
        assert(s.drop_last() =~= pre);
        assert(s.last() == x);
        if x == c {
            let ghost d0 = views(done@);
            let ghost c0 = cur@;
            done.push(cur);
            assert(views(done@) =~= d0.push(c0));
            cur = Vec::new();
            assert(split_on(s, c) =~= views(done@).push(cur@));
        } else {
            cur.push(x);
            assert(split_on(s, c) =~= views(done@).push(cur@));
        }
        i = i + 1;
    }
    assert(v@.subrange(0, v@.len() as int) =~= v@);
    let ghost d0 = views(done@);
    let ghost c0 = cur@;
    done.push(cur);
    assert(views(done@) =~= d0.push(c0));
    done
}

/// `segs.join(c)`.
pub fn join_chars(segs: &Vec<Vec<char>>, c: char) -> (r: Vec<char>)
    ensures
        r@ == join_with(views(segs@), c),
{
    let ghost dv = views(segs@);
    if segs.len() == 0 {
        return Vec::new();
    }
    let mut acc = copy_range(segs[0].as_slice(), 0, segs[0].len());
    assert(segs[0]@.subrange(0, segs[0]@.len() as int) =~= segs[0]@);
    assert(dv.take(1).drop_last() =~= Seq::<Seq<char>>::empty());
    assert(join_with(dv.take(1), c) == dv[0]);
    let mut i: usize = 1;
    while i < segs.len()
        invariant
            1 <= i <= segs@.len(),
            dv == views(segs@),
            dv.len() == segs@.len(),
            acc@ == join_with(dv.take(i as int), c),
        decreases segs@.len() - i,
    {
        acc.push(c);
        let seg = &segs[i];
        let ghost before = acc@;
        let mut j: usize = 0;
        while j < seg.len()
            invariant
                j <= seg@.len(),
                acc@ == before + seg@.subrange(0, j as int),
            decreases seg@.len() - j,
        {
            acc.push(seg[j]);
            j = j + 1;
            assert(acc@ =~= before + seg@.subrange(0, j as int));
        }
        assert(seg@.subrange(0, seg@.len() as int) =~= seg@);
        assert(dv.take(i + 1).drop_last() =~= dv.take(i as int));
        assert(dv.take(i + 1).last() == dv[i as int]);
        assert(dv[i as int] == seg@);
        i = i + 1;
    }
    assert(dv.take(dv.len() as int) =~= dv);
    acc
}

/// Appends `b` to `a`.
pub fn append_chars(a: &mut Vec<char>, b: &[char])
    ensures
        final(a)@ == old(a)@ + b@,
{
    let ghost a0 = a@;
    let mut j: usize = 0;
    while j < b.len()
        invariant
            j <= b@.len(),
            a@ == a0 + b@.subrange(0, j as int),
        decreases b@.len() - j,
    {
        a.push(b[j]);
        j = j + 1;
        assert(a@ =~= a0 + b@.subrange(0, j as int));
    }
    assert(b@.subrange(0, b@.len() as int) =~= b@);
}

/// Appends one character to a `String` (std `String::push`).
#[verifier::external_body]
pub(crate) fn push_char(s: &mut String, c: char)
    ensures
        final(s)@ == old(s)@.push(c),
{
    s.push(c);
}

/// The characters of `s`, in order.
pub fn chars_of(s: &str) -> (v: Vec<char>)
    ensures
        v@ == s@,
{
    let n = s.unicode_len();
    let mut v: Vec<char> = Vec::new();
    let mut i: usize = 0;
    while i < n
        invariant
            n == s@.len(),
            i <= n,
            v@ == s@.subrange(0, i as int),
        decreases n - i,
    {
        v.push(s.get_char(i));
        i = i + 1;
        assert(v@ =~= s@.subrange(0, i as int));
    }
    assert(v@ =~= s@);
    v
}

/// A `String` holding exactly the characters `cs`.
pub fn string_of(cs: &[char]) -> (s: String)
    ensures
        s@ == cs@,
{
    let mut s = String::new();
    let mut i: usize = 0;
    while i < cs.len()
        invariant
            i <= cs@.len(),
            s@ == cs@.subrange(0, i as int),
        decreases cs@.len() - i,
    {
        push_char(&mut s, cs[i]);
        i = i + 1;
        assert(s@ =~= cs@.subrange(0, i as int));
    }
    assert(s@ =~= cs@);
    s
}

/// A `String` from a string literal or slice.
pub fn owned(s: &str) -> (r: String)
    ensures
        r@ == s@,
{
    s.to_owned()
}

} // verus!

verus! {

pub open spec fn ascii_lower(c: char) -> char {
    if 'A' as u32 <= c as u32 && c as u32 <= 'Z' as u32 {
        ((c as u32) + 32) as char
    } else {
        c
    }
}

/// `char::to_ascii_lowercase`.
pub fn to_ascii_lower(c: char) -> (r: char)
    ensures
        r == ascii_lower(c),
{
    let u = c as u32;
    if 'A' as u32 <= u && u <= 'Z' as u32 {
        let b = (u + 32) as u8;
        let r = b as char;
        assert(r as u32 == b as u32);
        r
    } else {
        c
    }
}

} // verus!

verus! {

/// Byte length of the UTF-8 encoding of `s` (what `str::len` counts).
pub open spec fn blen(s: Seq<char>) -> nat {
    vstd::utf8::encode_utf8(s).len()
}

pub proof fn lemma_blen_concat(a: Seq<char>, b: Seq<char>)
    ensures
        blen(a + b) == blen(a) + blen(b),
    decreases a.len(),
{
    if a.len() > 0 {
        lemma_blen_concat(a.drop_first(), b);
        assert((a + b).drop_first() =~= a.drop_first() + b);
        assert((a + b)[0] == a[0]);
    } else {
        assert(a + b =~= b);
    }
}

pub proof fn lemma_blen_push(a: Seq<char>, c: char)
    ensures
        blen(a.push(c)) == blen(a) + vstd::utf8::encode_scalar(c as u32).len(),
{
    lemma_blen_concat(a, seq![c]);
    assert(a.push(c) =~= a + seq![c]);
    assert(seq![c].drop_first() =~= Seq::<char>::empty());
    assert(vstd::utf8::encode_utf8(seq![c]) =~= vstd::utf8::encode_scalar(c as u32)
        + vstd::utf8::encode_utf8(Seq::<char>::empty()));
}

/// `char::len_utf8`.
pub fn utf8_width(c: char) -> (n: usize)
    ensures
        n == vstd::utf8::encode_scalar(c as u32).len(),
        1 <= n <= 4,
{
    let u = c as u32;
    if u <= 0x7f {
        1
    } else if u <= 0x7ff {
        2
    } else if u <= 0xffff {
        3
    } else {
        4
    }
}

/// Byte length of the UTF-8 encoding of `v` (`str::len` of the same text).
pub fn byte_len(v: &[char]) -> (n: usize)
    requires
        blen(v@) <= usize::MAX,
    ensures
        n == blen(v@),
{
    let mut n: usize = 0;
    let mut i: usize = 0;
    while i < v.len()
        invariant
            i <= v@.len(),
            blen(v@) <= usize::MAX,
            n == blen(v@.subrange(0, i as int)),
        decreases v@.len() - i,
    {
        proof {
            lemma_blen_push(v@.subrange(0, i as int), v@[i as int]);
            assert(v@.subrange(0, i as int).push(v@[i as int]) =~= v@.subrange(0, i + 1));
            lemma_blen_concat(v@.subrange(0, i + 1), v@.subrange(i + 1, v@.len() as int));
            assert(v@.subrange(0, i + 1) + v@.subrange(i + 1, v@.len() as int) =~= v@);
        }
        n = n + utf8_width(v[i]);
        i = i + 1;
    }
    assert(v@.subrange(0, v@.len() as int) =~= v@);
    n
}

} // verus!

verus! {

pub proof fn lemma_drop_front_len(s: Seq<char>, k: CharClass)
    ensures
        drop_front(s, k).len() <= s.len(),
    decreases s.len(),
{
    if s.len() > 0 && in_class(k, s[0]) {
        lemma_drop_front_len(s.drop_first(), k);
    }
}

pub proof fn lemma_drop_back_len(s: Seq<char>, k: CharClass)
    ensures
        drop_back(s, k).len() <= s.len(),
    decreases s.len(),
{
    if s.len() > 0 && in_class(k, s.last()) {
        lemma_drop_back_len(s.drop_last(), k);
    }
}

pub open spec fn digit_char(d: nat) -> char {
    (('0' as u32) + d) as char
}

/// Decimal digits of `n` (no sign, no leading zeros).
pub open spec fn dec(n: nat) -> Seq<char>
    decreases n,
{
    if n < 10 {
        seq![digit_char(n)]
    } else {
        dec(n / 10).push(digit_char(n % 10))
    }
}

fn digit(d: u64) -> (c: char)
    requires
        d < 10,
    ensures
        c == digit_char(d as nat),
{
    let b = ('0' as u8) + (d as u8);
    let c = b as char;
    assert(c as u32 == b as u32);
    c
}

/// The decimal digits of `n`.
pub fn dec_chars(n: u64) -> (v: Vec<char>)
    ensures
        v@ == dec(n as nat),
    decreases n,
{
    if n < 10 {
        let mut v: Vec<char> = Vec::new();
        v.push(digit(n));
        assert(v@ =~= seq![digit_char(n as nat)]);
        v
    } else {
        let mut v = dec_chars(n / 10);
        v.push(digit(n % 10));
        v
    }
}

/// `n.to_string()` for an unsigned integer.
pub fn dec_string(n: u64) -> (s: String)
    ensures
        s@ == dec(n as nat),
{
    let v = dec_chars(n);
    string_of(v.as_slice())
}

} // verus!

verus! {

/// Index of the first `c` in `s`, if any.
pub open spec fn first_index(s: Seq<char>, c: char) -> Option<nat>
    decreases s.len(),
{
    if s.len() == 0 {
        None
    } else if s[0] == c {
        Some(0)
    } else {
        match first_index(s.drop_first(), c) {
            Some(i) => Some(i + 1),
            None => None,
        }
    }
}

/// Index of the last `c` in `s`, if any.
pub open spec fn last_index(s: Seq<char>, c: char) -> Option<nat>
    decreases s.len(),
{
    if s.len() == 0 {
        None
    } else if s.last() == c {
        Some((s.len() - 1) as nat)
    } else {
        last_index(s.drop_last(), c)
    }
}

pub proof fn lemma_first_index(s: Seq<char>, c: char, i: int)
    requires
        0 <= i <= s.len(),
        forall|j: int| 0 <= j < i ==> s[j] != c,
    ensures
        i < s.len() && s[i] == c ==> first_index(s, c) == Some(i as nat),
        i == s.len() ==> first_index(s, c) is None,
    decreases i,
{
    if i > 0 {
        let t = s.drop_first();
        assert forall|j: int| 0 <= j < i - 1 implies t[j] != c by {
            assert(t[j] == s[j + 1]);
        }
        lemma_first_index(t, c, i - 1);
        if i < s.len() {
            assert(t[i - 1] == s[i]);
        }
    }
}

pub proof fn lemma_last_index(s: Seq<char>, c: char, e: int)
    requires
        0 <= e <= s.len(),
        forall|j: int| e <= j < s.len() ==> s[j] != c,
    ensures
        e > 0 && s[e - 1] == c ==> last_index(s, c) == Some((e - 1) as nat),
        e == 0 ==> last_index(s, c) is None,
    decreases s.len() - e,
{
    if e < s.len() {
        let t = s.drop_last();
        assert forall|j: int| e <= j < t.len() implies t[j] != c by {
            assert(t[j] == s[j]);
        }
        lemma_last_index(t, c, e);
        if e > 0 {
            assert(t[e - 1] == s[e - 1]);
        }
    }
}

/// Position of the first `c` in `v` (`str::find` on one character, by char index).
pub fn find_char(v: &[char], c: char) -> (r: Option<usize>)
    ensures
        match r {
            Some(i) => first_index(v@, c) == Some(i as nat) && i < v@.len(),
            None => first_index(v@, c) is None,
        },
{
    let mut i: usize = 0;
    while i < v.len()
        invariant
            i <= v@.len(),
            forall|j: int| 0 <= j < i ==> v@[j] != c,
        decreases v@.len() - i,
    {
        if v[i] == c {
            proof {
                lemma_first_index(v@, c, i as int);
            }
            return Some(i);
        }
        i = i + 1;
    }
    proof {
        lemma_first_index(v@, c, i as int);
    }
    None
}

/// Position of the last `c` in `v` (`str::rfind` on one character, by char index).
pub fn rfind_char(v: &[char], c: char) -> (r: Option<usize>)
    ensures
        match r {
            Some(i) => last_index(v@, c) == Some(i as nat) && i < v@.len(),
            None => last_index(v@, c) is None,
        },
{
    let mut e: usize = v.len();
    while e > 0
        invariant
            e <= v@.len(),
            forall|j: int| e <= j < v@.len() ==> v@[j] != c,
        decreases e,
    {
        if v[e - 1] == c {
            proof {
                lemma_last_index(v@, c, e as int);
            }
            return Some(e - 1);
        }
        e = e - 1;
    }
    proof {
        lemma_last_index(v@, c, 0);
    }
    None
}

/// Whether every character of `s` is an ASCII digit (true of the empty text).
pub open spec fn digits_only(s: Seq<char>) -> bool {
    forall|i: int| 0 <= i < s.len() ==> crate::paths::is_digit(#[trigger] s[i])
}

pub fn all_ascii_digits(v: &[char]) -> (b: bool)
    ensures
        b == digits_only(v@),
{
    let mut i: usize = 0;
    while i < v.len()
        invariant
            i <= v@.len(),
            forall|j: int| 0 <= j < i ==> crate::paths::is_digit(#[trigger] v@[j]),
        decreases v@.len() - i,
    {
        let u = v[i] as u32;
        if !('0' as u32 <= u && u <= '9' as u32) {
            assert(!crate::paths::is_digit(v@[i as int]));
            return false;
        }
        i = i + 1;
    }
    true
}

/// Whether `v` equals the text `w`.
pub fn is_word(v: &[char], w: &str) -> (b: bool)
    ensures
        b == (v@ == w@),
{
    let wv = chars_of(w);
    chars_eq(v, wv.as_slice())
}

} // verus!

verus! {

/// `str::split_whitespace`: the maximal runs of non-whitespace characters, in order.
pub open spec fn words(s: Seq<char>) -> Seq<Seq<char>>
    decreases s.len(),
{
    if s.len() == 0 {
        seq![]
    } else {
        let p = words(s.drop_last());
        let c = s.last();
        if is_ws(c) {
            p
        } else if s.len() >= 2 && !is_ws(s[s.len() - 2]) {
            p.update(p.len() - 1, p.last().push(c))
        } else {
            p.push(seq![c])
        }
    }
}

pub proof fn lemma_words_nonempty(s: Seq<char>)
    ensures
        forall|i: int| 0 <= i < words(s).len() ==> (#[trigger] words(s)[i]).len() > 0,
        s.len() > 0 && !is_ws(s.last()) ==> words(s).len() > 0,
    decreases s.len(),
{
    if s.len() > 0 {
        lemma_words_nonempty(s.drop_last());
        let p = words(s.drop_last());
        let c = s.last();
        if !is_ws(c) && s.len() >= 2 && !is_ws(s[s.len() - 2]) {
            assert(s.drop_last().last() == s[s.len() - 2]);
            let w = words(s);
            assert forall|i: int| 0 <= i < w.len() implies (#[trigger] w[i]).len() > 0 by {
                if i < p.len() - 1 {
                    assert(w[i] == p[i]);
                }
            }
        }
    }
}

/// `str::split_whitespace` on `v`.
pub fn split_words(v: &[char]) -> (r: Vec<Vec<char>>)
    ensures
        views(r@) == words(v@),
{
    let mut done: Vec<Vec<char>> = Vec::new();
    let mut cur: Vec<char> = Vec::new();
    let mut i: usize = 0;
    while i < v.len()
        invariant
            i <= v@.len(),
            cur@.len() > 0 <==> (i > 0 && !is_ws(v@[i - 1])),
            words(v@.subrange(0, i as int)) == views(done@) + (if cur@.len() > 0 {
                seq![cur@]
            } else {
                Seq::<Seq<char>>::empty()
            }),
        decreases v@.len() - i,
    {
        let c = v[i];
        let ghost pre = v@.subrange(0, i as int);
        let ghost s = v@.subrange(0, i + 1);
        assert(s.drop_last() =~= pre);
        assert(s.last() == c);
        if is_whitespace(c) {
            if cur.len() > 0 {
                let ghost d0 = views(done@);
                done.push(cur);
                assert(views(done@) =~= d0.push(cur@));
                cur = Vec::new();
            }
            assert(words(s) == words(pre));
        } else {
            if cur.len() > 0 {
                assert(s[s.len() - 2] == v@[i - 1]);
                cur.push(c);
                assert(words(s) =~= views(done@) + seq![cur@]);
            } else {
                cur.push(c);
                assert(cur@ =~= seq![c]);
                assert(words(s) =~= views(done@) + seq![cur@]);
            }
        }
        i = i + 1;
    }
    assert(v@.subrange(0, v@.len() as int) =~= v@);
    if cur.len() > 0 {
        let ghost d0 = views(done@);
        done.push(cur);
        assert(views(done@) =~= d0.push(cur@));
    } else {
        assert(views(done@) + Seq::<Seq<char>>::empty() =~= views(done@));
    }
    done
}

/// Names that can be joined with `/` and split back: non-empty, no `/`.
pub open spec fn plain_segments(segs: Seq<Seq<char>>) -> bool {
    forall|i: int| 0 <= i < segs.len() ==> (#[trigger] segs[i]).len() > 0 && !segs[i].contains('/')
}

/// A word without `/` after a `/` (or at the start) is one more piece.
pub proof fn lemma_pieces_append_word(prefix: Seq<char>, w: Seq<char>)
    requires
        w.len() > 0,
        !w.contains('/'),
        prefix.len() == 0 || prefix.last() == '/',
    ensures
        pieces(prefix + w) == pieces(prefix).push(w),
    decreases w.len(),
{
    let s = prefix + w;
    assert(s.drop_last() =~= prefix + w.drop_last());
    assert(s.last() == w.last());
    assert(w.last() != '/') by {
        assert(w[w.len() - 1] == w.last());
    }
    if w.len() == 1 {
        assert(prefix + w.drop_last() =~= prefix);
        assert(w =~= seq![w.last()]);
        if s.len() >= 2 {
            assert(s[s.len() - 2] == prefix.last());
        }
    } else {
        let v = w.drop_last();
        assert(!v.contains('/')) by {
            if v.contains('/') {
                let j = choose|j: int| 0 <= j < v.len() && v[j] == '/';
                assert(w[j] == '/');
            }
        }
        lemma_pieces_append_word(prefix, v);
        assert(s[s.len() - 2] == v.last());
        assert(v.last() != '/') by {
            assert(w[w.len() - 2] == v.last());
        }
        assert(v.push(w.last()) =~= w);
    }
}

pub proof fn lemma_join_ends(segs: Seq<Seq<char>>)
    requires
        segs.len() > 0,
        plain_segments(segs),
    ensures
        join_with(segs, '/').len() > 0,
        join_with(segs, '/')[0] == segs[0][0],
        join_with(segs, '/').last() == segs.last().last(),
        !(join_with(segs, '/')[0] == '/'),
        !(join_with(segs, '/').last() == '/'),
    decreases segs.len(),
{
    assert(segs[0].len() > 0 && !segs[0].contains('/'));
    assert(segs.last().len() > 0 && !segs.last().contains('/'));
    assert(segs[0][0] != '/');
    assert(segs.last()[segs.last().len() - 1] != '/');
    if segs.len() > 1 {
        let d = segs.drop_last();
        assert(plain_segments(d)) by {
            assert forall|i: int| 0 <= i < d.len() implies (#[trigger] d[i]).len() > 0 && !d[i].contains('/') by {
                assert(d[i] == segs[i]);
            }
        }
        lemma_join_ends(d);
        assert(d[0] == segs[0]);
    }
}

proof fn lemma_pieces_root()
    ensures
        pieces(seq!['/']) == Seq::<Seq<char>>::empty(),
{
    let r = seq!['/'];
    assert(r.len() == 1);
    assert(r.last() == '/');
    assert(r.drop_last() =~= Seq::<char>::empty());
    assert(pieces(Seq::<char>::empty()) =~= Seq::<Seq<char>>::empty());
    assert(pieces(r) == pieces(r.drop_last()));
}

/// Splitting `/` + joined plain names into pieces gives the names back.
pub proof fn lemma_pieces_join(segs: Seq<Seq<char>>)
    requires
        plain_segments(segs),
    ensures
        pieces(seq!['/'] + join_with(segs, '/')) == segs,
    decreases segs.len(),
{
    lemma_pieces_root();
    if segs.len() == 0 {
        assert(seq!['/'] + join_with(segs, '/') =~= seq!['/']);
    } else if segs.len() == 1 {
        assert(segs[0].len() > 0 && !segs[0].contains('/'));
        lemma_pieces_append_word(seq!['/'], segs[0]);
        assert(seq!['/'] + join_with(segs, '/') =~= seq!['/'] + segs[0]);
        assert(Seq::<Seq<char>>::empty().push(segs[0]) =~= segs);
    } else {
        let d = segs.drop_last();
        assert(plain_segments(d)) by {
            assert forall|i: int| 0 <= i < d.len() implies (#[trigger] d[i]).len() > 0 && !d[i].contains('/') by {
                assert(d[i] == segs[i]);
            }
        }
        lemma_pieces_join(d);
        let prefix = seq!['/'] + join_with(d, '/');
        assert(prefix.push('/').drop_last() =~= prefix);
        assert(pieces(prefix.push('/')) == pieces(prefix));
        assert(segs.last().len() > 0 && !segs.last().contains('/'));
        lemma_pieces_append_word(prefix.push('/'), segs.last());
        assert(seq!['/'] + join_with(segs, '/') =~= prefix.push('/') + segs.last());
        assert(d.push(segs.last()) =~= segs);
    }
}

/// Text without `c` added to the end extends the last piece of a split.
pub proof fn lemma_split_append(s: Seq<char>, w: Seq<char>, c: char)
    requires
        !w.contains(c),
    ensures
        split_on(s + w, c) == split_on(s, c).update(
            split_on(s, c).len() - 1,
            split_on(s, c).last() + w,
        ),
    decreases w.len(),
{
    lemma_split_nonempty(s, c);
    if w.len() == 0 {
        assert(s + w =~= s);
        assert(split_on(s, c).last() + w =~= split_on(s, c).last());
        assert(split_on(s, c).update(split_on(s, c).len() - 1, split_on(s, c).last())
            =~= split_on(s, c));
    } else {
        let v = w.drop_last();
        assert(!v.contains(c)) by {
            if v.contains(c) {
                let j = choose|j: int| 0 <= j < v.len() && v[j] == c;
                assert(w[j] == c);
            }
        }
        lemma_split_append(s, v, c);
        assert((s + w).drop_last() =~= s + v);
        assert((s + w).last() == w.last());
        assert(w.last() != c) by {
            assert(w[w.len() - 1] == w.last());
        }
        lemma_split_nonempty(s + v, c);
        assert((split_on(s, c).last() + v).push(w.last()) =~= split_on(s, c).last() + w);
        assert(split_on(s + w, c) =~= split_on(s, c).update(
            split_on(s, c).len() - 1,
            split_on(s, c).last() + w,
        ));
    }
}

/// Splitting names joined with `/` gives the names back.
pub proof fn lemma_split_join(segs: Seq<Seq<char>>)
    requires
        segs.len() > 0,
        forall|i: int| 0 <= i < segs.len() ==> !(#[trigger] segs[i]).contains('/'),
    ensures
        split_on(join_with(segs, '/'), '/') == segs,
    decreases segs.len(),
{
    if segs.len() == 1 {
        lemma_split_append(seq![], segs[0], '/');
        assert(Seq::<char>::empty() + segs[0] =~= segs[0]);
        assert(split_on(Seq::<char>::empty(), '/') =~= seq![Seq::<char>::empty()]);
        assert(Seq::<char>::empty() + segs[0] =~= segs[0]);
        assert(segs =~= seq![segs[0]]);
    } else {
        let d = segs.drop_last();
        assert forall|i: int| 0 <= i < d.len() implies !(#[trigger] d[i]).contains('/') by {
            assert(d[i] == segs[i]);
        }
        lemma_split_join(d);
        let x = join_with(d, '/').push('/');
        assert(x.drop_last() =~= join_with(d, '/'));
        assert(split_on(x, '/') == d.push(seq![]));
        assert(!segs.last().contains('/'));
        lemma_split_append(x, segs.last(), '/');
        assert(join_with(segs, '/') =~= x + segs.last());
        assert(Seq::<char>::empty() + segs.last() =~= segs.last());
        assert(d.push(seq![]).update(d.len() as int, segs.last()) =~= segs);
    }
}

/// Joining with `/` brings in no character other than `/` and those of the names.
pub proof fn lemma_join_lacks(segs: Seq<Seq<char>>, c: char)
    requires
        c != '/',
        forall|i: int| 0 <= i < segs.len() ==> !(#[trigger] segs[i]).contains(c),
    ensures
        !join_with(segs, '/').contains(c),
    decreases segs.len(),
{
    if segs.len() > 1 {
        let d = segs.drop_last();
        assert forall|i: int| 0 <= i < d.len() implies !(#[trigger] d[i]).contains(c) by {
            assert(d[i] == segs[i]);
        }
        lemma_join_lacks(d, c);
        let j = join_with(segs, '/');
        let a = join_with(d, '/').push('/');
        assert(j =~= a + segs.last());
        assert(!segs.last().contains(c));
        if j.contains(c) {
            let k = choose|k: int| 0 <= k < j.len() && j[k] == c;
            if k < a.len() - 1 {
                assert(join_with(d, '/')[k] == c);
            } else if k == a.len() - 1 {
                assert(j[k] == '/');
            } else {
                assert(segs.last()[k - a.len()] == c);
            }
        }
    } else if segs.len() == 1 {
        assert(!segs[0].contains(c));
    }
}

/// A leading `/` adds no piece.
pub proof fn lemma_pieces_lead_slash(s: Seq<char>)
    ensures
        pieces(seq!['/'] + s) == pieces(s),
    decreases s.len(),
{
    let t = seq!['/'] + s;
    if s.len() == 0 {
        assert(t =~= seq!['/']);
        lemma_pieces_root();
        assert(pieces(s) =~= Seq::<Seq<char>>::empty());
    } else {
        assert(t.drop_last() =~= seq!['/'] + s.drop_last());
        lemma_pieces_lead_slash(s.drop_last());
        assert(t.last() == s.last());
        if s.len() >= 2 {
            assert(t[t.len() - 2] == s[s.len() - 2]);
        } else {
            assert(t[t.len() - 2] == '/');
        }
    }
}

/// Trimming leaves a text alone that starts and ends with non-whitespace.
pub proof fn lemma_trim_noop(s: Seq<char>)
    requires
        s.len() > 0,
        !is_ws(s[0]),
        !is_ws(s.last()),
    ensures
        trim(s) == s,
{
    lemma_drop_front_at(s, CharClass::Space, 0);
    assert(s.subrange(0, s.len() as int) =~= s);
    lemma_drop_back_at(s, CharClass::Space, s.len() as int);
}

/// Adding one more plain name keeps the names plain.
pub proof fn lemma_valid_plain_push(segs: Seq<Seq<char>>, name: Seq<char>)
    requires
        plain_segments(segs),
        name.len() > 0,
        !name.contains('/'),
    ensures
        plain_segments(segs.push(name)),
{
    let r = segs.push(name);
    assert forall|i: int| 0 <= i < r.len() implies (#[trigger] r[i]).len() > 0 && !r[i].contains('/') by {
        if i < segs.len() {
            assert(r[i] == segs[i]);
        }
    }
}

} // verus!

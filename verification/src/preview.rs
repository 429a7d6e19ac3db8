//! One-line previews of JSON-RPC parameters for request logs: long strings
//! are clipped, line breaks become single spaces, the whole is capped in bytes.

use vstd::prelude::*;
use crate::json::JsonValue;
use crate::text::{blen, chars_of, dec, dec_chars, lemma_blen_push, string_of};

verus! {

/// Characters kept from a string before it is clipped.
pub const STR_CLIP_CHARS: usize = 56;

/// Byte budget of a whole preview.
pub const OUTPUT_CAP: usize = 512;

pub open spec fn is_break(c: char) -> bool {
    c == '\r' || c == '\n'
}

/// Appends a space unless `out` is empty or already ends in one.
pub open spec fn space_after(out: Seq<char>) -> Seq<char> {
    if out.len() > 0 && out.last() != ' ' {
        out.push(' ')
    } else {
        out
    }
}

/// Output so far and whether a line break is pending, after reading `s`.
pub open spec fn sanitize_state(s: Seq<char>) -> (Seq<char>, bool)
    decreases s.len(),
{
    if s.len() == 0 {
        (seq![], false)
    } else {
        let (out, pending) = sanitize_state(s.drop_last());
        let c = s.last();
        if is_break(c) {
            (out, true)
        } else if pending {
            (space_after(out).push(c), false)
        } else {
            (out.push(c), false)
        }
    }
}

/// Runs of `\r`/`\n` collapsed into at most one space (none at the start, and
/// none after a space).
pub open spec fn spec_sanitize(s: Seq<char>) -> Seq<char> {
    let (out, pending) = sanitize_state(s);
    if pending {
        space_after(out)
    } else {
        out
    }
}

pub open spec fn no_breaks(s: Seq<char>) -> bool {
    forall|i: int| 0 <= i < s.len() ==> !is_break(#[trigger] s[i])
}

proof fn lemma_sanitize_state_no_breaks(s: Seq<char>)
    ensures
        no_breaks(sanitize_state(s).0),
    decreases s.len(),
{
    if s.len() > 0 {
        lemma_sanitize_state_no_breaks(s.drop_last());
        let out = sanitize_state(s.drop_last()).0;
        let sp = space_after(out);
        assert(no_breaks(sp)) by {
            assert forall|i: int| 0 <= i < sp.len() implies !is_break(#[trigger] sp[i]) by {
                if i < out.len() {
                    assert(sp[i] == out[i]);
                }
            }
        }
        let c = s.last();
        if !is_break(c) {
            assert forall|i: int| 0 <= i < sp.len() + 1 implies !is_break(
                #[trigger] sp.push(c)[i],
            ) by {
                if i < sp.len() {
                    assert(sp.push(c)[i] == sp[i]);
                }
            }
            assert forall|i: int| 0 <= i < out.len() + 1 implies !is_break(
                #[trigger] out.push(c)[i],
            ) by {
                if i < out.len() {
                    assert(out.push(c)[i] == out[i]);
                }
            }
        }
    }
}

/// A sanitized string holds no line break.
pub proof fn law_sanitize_removes_breaks(s: Seq<char>)
    ensures
        no_breaks(spec_sanitize(s)),
{
    lemma_sanitize_state_no_breaks(s);
    let out = sanitize_state(s).0;
    let sp = space_after(out);
    assert forall|i: int| 0 <= i < sp.len() implies !is_break(#[trigger] sp[i]) by {
        if i < out.len() {
            assert(sp[i] == out[i]);
        }
    }
}

fn push_space_after(out: &mut Vec<char>)
    ensures
        final(out)@ == space_after(old(out)@),
{
    if out.len() > 0 && out[out.len() - 1] != ' ' {
        out.push(' ');
    }
}

/// Collapses runs of CR/LF into at most one space (for log lines).
pub fn sanitize_newlines_for_log(s: &str) -> (r: String)
    ensures
        r@ == spec_sanitize(s@),
        no_breaks(r@),
{
    let v = chars_of(s);
    let mut out: Vec<char> = Vec::new();
    let mut pending = false;
    let mut i: usize = 0;
    while i < v.len()
        invariant
            i <= v@.len(),
            (out@, pending) == sanitize_state(v@.take(i as int)),
        decreases v@.len() - i,
    {
        proof {
            assert(v@.take(i + 1).drop_last() =~= v@.take(i as int));
            assert(v@.take(i + 1).last() == v@[i as int]);
        }
        let ch = v[i];
        if ch == '\r' || ch == '\n' {
            pending = true;
        } else {
            if pending {
                push_space_after(&mut out);
                pending = false;
            }
            out.push(ch);
        }
        i = i + 1;
    }
    assert(v@.take(v@.len() as int) =~= v@);
    if pending {
        push_space_after(&mut out);
    }
    proof {
        law_sanitize_removes_breaks(s@);
    }
    string_of(out.as_slice())
}

/// The longest prefix of `piece` whose UTF-8 encoding fits in `budget` bytes.
pub open spec fn fit(piece: Seq<char>, budget: nat) -> Seq<char>
    decreases piece.len(),
{
    if blen(piece) <= budget || piece.len() == 0 {
        piece
    } else {
        fit(piece.drop_last(), budget)
    }
}

/// The byte length that `str::len` reports for a text.
pub open spec fn str_len(s: Seq<char>) -> nat {
    (blen(s) as usize) as nat
}

/// What `append_str` adds for `s` when `used` bytes of `cap` are taken.
pub open spec fn str_piece(s: Seq<char>, used: nat, clip: nat, cap: nat) -> Seq<char> {
    let budget = if cap > used {
        (cap - used) as nat
    } else {
        0
    };
    let shown = spec_sanitize(s.take(if s.len() < clip { s.len() as int } else { clip as int }));
    let piece = if s.len() > clip {
        shown + "…("@ + dec(s.len()) + " chars)"@
    } else {
        shown
    };
    let p = fit(piece, budget);
    if budget <= 3 {
        seq![]
    } else if p.len() == 0 {
        "…"@
    } else {
        p
    }
}

/// Appends every character of `s` to `out`.
pub fn push_all(out: &mut String, s: &[char])
    ensures
        final(out)@ == old(out)@ + s@,
{
    let mut i: usize = 0;
    while i < s.len()
        invariant
            i <= s@.len(),
            out@ == old(out)@ + s@.take(i as int),
        decreases s@.len() - i,
    {
        crate::text::push_char(out, s[i]);
        i = i + 1;
        assert(out@ =~= old(out)@ + s@.take(i as int));
    }
    assert(s@.take(s@.len() as int) =~= s@);
}

proof fn lemma_fit_take(piece: Seq<char>, b: nat, k: int)
    requires
        0 <= k <= piece.len(),
        blen(piece.take(k)) <= b,
        k == piece.len() || blen(piece.take(k + 1)) > b,
    ensures
        fit(piece, b) == piece.take(k),
    decreases piece.len() - k,
{
    if k == piece.len() {
        assert(piece.take(k) =~= piece);
    } else {
        crate::shell::lemma_blen_take_grows(piece, k + 1, piece.len() as int);
        assert(piece.take(piece.len() as int) =~= piece);
        let d = piece.drop_last();
        assert(d.take(k) =~= piece.take(k));
        if k + 1 < piece.len() {
            assert(d.take(k + 1) =~= piece.take(k + 1));
        }
        lemma_fit_take(d, b, k);
    }
}

/// The longest prefix of `piece` that fits in `budget` bytes.
fn fit_chars(piece: &Vec<char>, budget: usize) -> (r: Vec<char>)
    ensures
        r@ == fit(piece@, budget as nat),
{
    let mut i: usize = 0;
    let mut sum: usize = 0;
    assert(piece@.take(0) =~= Seq::<char>::empty());
    while i < piece.len()
        invariant
            i <= piece@.len(),
            sum == blen(piece@.take(i as int)),
            sum <= budget,
        ensures
            i <= piece@.len(),
            i == piece@.len() || blen(piece@.take(i + 1)) > budget,
            sum == blen(piece@.take(i as int)),
            sum <= budget,
        decreases piece@.len() - i,
    {
        let w = crate::text::utf8_width(piece[i]);
        proof {
            lemma_blen_push(piece@.take(i as int), piece@[i as int]);
            assert(piece@.take(i as int).push(piece@[i as int]) =~= piece@.take(i + 1));
        }
        if w > budget - sum {
            break;
        }
        sum = sum + w;
        i = i + 1;
    }
    proof {
        lemma_fit_take(piece@, budget as nat, i as int);
    }
    crate::text::copy_range(piece.as_slice(), 0, i)
}

/// Appends a clipped, line-break-free preview of `s` to `out`, within `cap`
/// bytes in all; nothing when at most 3 bytes are left.
pub fn append_str(s: &str, out: &mut String, clip: usize, cap: usize)
    ensures
        final(out)@ == old(out)@ + str_piece(s@, str_len(old(out)@), clip as nat, cap as nat),
{
    let used = out.as_str().len();
    let budget = if cap > used {
        cap - used
    } else {
        0
    };
    if budget <= 3 {
        assert(old(out)@ + seq![] =~= old(out)@);
        return;
    }
    let v = chars_of(s);
    let n = v.len();
    let k = if n < clip {
        n
    } else {
        clip
    };
    let head = crate::text::copy_range(v.as_slice(), 0, k);
    assert(head@ =~= s@.take(k as int));
    let hs = string_of(head.as_slice());
    let shown = sanitize_newlines_for_log(hs.as_str());
    let mut piece = chars_of(shown.as_str());
    if n > clip {
        let tail1 = chars_of("…(");
        let digits = dec_chars(n as u64);
        let tail2 = chars_of(" chars)");
        crate::text::append_chars(&mut piece, tail1.as_slice());
        crate::text::append_chars(&mut piece, digits.as_slice());
        crate::text::append_chars(&mut piece, tail2.as_slice());
    }
    assert(piece@ == (if s@.len() > clip {
        spec_sanitize(s@.take(k as int)) + "…("@ + dec(s@.len()) + " chars)"@
    } else {
        spec_sanitize(s@.take(k as int))
    }));
    let piece = fit_chars(&piece, budget);
    if piece.len() == 0 {
        let e = chars_of("…");
        push_all(out, e.as_slice());
    } else {
        push_all(out, piece.as_slice());
    }
}

} // verus!

verus! {

/// The preview of `v` appended to `out` (nothing once `out` has reached `cap` bytes).
pub open spec fn preview_value(v: JsonValue, out: Seq<char>, clip: nat, cap: nat) -> Seq<char>
    decreases v, 0nat,
{
    if str_len(out) >= cap {
        out
    } else {
        match v {
            JsonValue::Null => out + "null"@,
            JsonValue::Bool(b) => out + (if b {
                "true"@
            } else {
                "false"@
            }),
            JsonValue::Number(n) => out + n.text@,
            JsonValue::String(s) => out + str_piece(s@, str_len(out), clip, cap),
            JsonValue::Array(a) => preview_items(a@, 0, out.push('['), clip, cap).push(']'),
            JsonValue::Object(m) => preview_members(m@, 0, out.push('{'), clip, cap).push('}'),
        }
    }
}

/// Array items from index `i` on, comma-separated, until the cap is reached.
pub open spec fn preview_items(a: Seq<JsonValue>, i: nat, out: Seq<char>, clip: nat, cap: nat) -> Seq<
    char,
>
    decreases a, a.len() - i,
{
    if i >= a.len() || str_len(out) >= cap {
        out
    } else {
        let o = if i > 0 {
            out.push(',')
        } else {
            out
        };
        preview_items(a, i + 1, preview_value(a[i as int], o, clip, cap), clip, cap)
    }
}

/// Object members from index `i` on as `key:value`, comma-separated; `…`
/// marks members left out once the cap is reached.
pub open spec fn preview_members(
    m: Seq<(String, JsonValue)>,
    i: nat,
    out: Seq<char>,
    clip: nat,
    cap: nat,
) -> Seq<char>
    decreases m, m.len() - i,
{
    if i >= m.len() {
        out
    } else if str_len(out) >= cap {
        out + "…"@
    } else {
        let o = if i > 0 {
            out.push(',')
        } else {
            out
        };
        preview_members(
            m,
            i + 1,
            preview_value(m[i as int].1, o + m[i as int].0@ + seq![':'], clip, cap),
            clip,
            cap,
        )
    }
}

/// Appends the preview of `v` to `out`.
pub fn append_value(v: &JsonValue, out: &mut String, clip: usize, cap: usize)
    ensures
        final(out)@ == preview_value(*v, old(out)@, clip as nat, cap as nat),
    decreases v,
{
    if out.as_str().len() >= cap {
        return;
    }
    match v {
        JsonValue::Null => push_all(out, chars_of("null").as_slice()),
        JsonValue::Bool(b) => {
            if *b {
                push_all(out, chars_of("true").as_slice());
            } else {
                push_all(out, chars_of("false").as_slice());
            }
        },
        JsonValue::Number(n) => push_all(out, chars_of(n.text.as_str()).as_slice()),
        JsonValue::String(s) => append_str(s.as_str(), out, clip, cap),
        JsonValue::Array(a) => {
            crate::text::push_char(out, '[');
            let ghost start = out@;
            let mut i: usize = 0;
            while i < a.len()
                invariant
                    i <= a@.len(),
                    *v == JsonValue::Array(*a),
                    preview_items(a@, 0, start, clip as nat, cap as nat) == preview_items(
                        a@,
                        i as nat,
                        out@,
                        clip as nat,
                        cap as nat,
                    ),
                ensures
                    preview_items(a@, 0, start, clip as nat, cap as nat) == out@,
                decreases a@.len() - i,
            {
                if out.as_str().len() >= cap {
                    break;
                }
                if i > 0 {
                    crate::text::push_char(out, ',');
                }
                proof {
                    assert(decreases_to!(*v => (*v)->Array_0));
                    assert(decreases_to!(*a => a@));
                    assert(decreases_to!(a@ => a@[i as int]));
                    assert(decreases_to!(*v => a@[i as int]));
                }
                append_value(&a[i], out, clip, cap);
                i = i + 1;
            }
            crate::text::push_char(out, ']');
        },
        JsonValue::Object(m) => {
            crate::text::push_char(out, '{');
            let ghost start = out@;
            let mut i: usize = 0;
            while i < m.len()
                invariant_except_break
                    preview_members(m@, 0, start, clip as nat, cap as nat) == preview_members(
                        m@,
                        i as nat,
                        out@,
                        clip as nat,
                        cap as nat,
                    ),
                invariant
                    i <= m@.len(),
                    *v == JsonValue::Object(*m),
                ensures
                    preview_members(m@, 0, start, clip as nat, cap as nat) == out@,
                decreases m@.len() - i,
            {
                let ghost out0 = out@;
                if out.as_str().len() >= cap {
                    push_all(out, chars_of("…").as_slice());
                    break;
                }
                if i > 0 {
                    crate::text::push_char(out, ',');
                }
                let ghost o = out@;
                let kv = &m[i];
                push_all(out, chars_of(kv.0.as_str()).as_slice());
                crate::text::push_char(out, ':');
                assert(out@ =~= o + m@[i as int].0@ + seq![':']);
                proof {
                    assert(decreases_to!(*v => (*v)->Object_0));
                    assert(decreases_to!(*m => m@));
                    assert(decreases_to!(m@ => m@[i as int]));
                    assert(decreases_to!(m@[i as int] => m@[i as int].1));
                    assert(decreases_to!(*v => m@[i as int].1));
                }
                append_value(&kv.1, out, clip, cap);
                i = i + 1;
            }
            crate::text::push_char(out, '}');
        },
    }
}

/// The log preview of optional JSON-RPC params: `{}` when there are none.
pub open spec fn spec_params_preview(params: Option<JsonValue>) -> Seq<char> {
    match params {
        None => "{}"@,
        Some(v) => preview_value(v, seq![], STR_CLIP_CHARS as nat, OUTPUT_CAP as nat),
    }
}

pub fn format_rpc_params_preview(params: Option<&JsonValue>) -> (r: String)
    ensures
        r@ == spec_params_preview(
            match params {
                Some(v) => Some(*v),
                None => None,
            },
        ),
{
    match params {
        None => crate::text::owned("{}"),
        Some(v) => {
            let mut out = String::new();
            append_value(v, &mut out, STR_CLIP_CHARS, OUTPUT_CAP);
            out
        },
    }
}

} // verus!

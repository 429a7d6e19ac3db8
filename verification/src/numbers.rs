//! Decimal line counts as users and clients write them: `u32` parsing,
//! `N` / `+N` tail tokens, and numbers given either as JSON numbers or strings.

use vstd::prelude::*;
use crate::commands::TailMode;
use crate::paths::is_digit;
use crate::text::{chars_of, copy_range, digits_only, owned, string_of, trim, trim_ws};

verus! {

/// Value of a run of decimal digits.
pub open spec fn digits_value(s: Seq<char>) -> nat
    decreases s.len(),
{
    if s.len() == 0 {
        0
    } else {
        digits_value(s.drop_last()) * 10 + ((s.last() as u32) - ('0' as u32)) as nat
    }
}

/// `u32::from_str`: an optional `+`, then one or more ASCII digits, no larger than `u32::MAX`.
pub open spec fn spec_parse_u32(s: Seq<char>) -> Option<u32> {
    let d = if s.len() > 0 && s[0] == '+' {
        s.drop_first()
    } else {
        s
    };
    if d.len() > 0 && digits_only(d) && digits_value(d) <= u32::MAX {
        Some(digits_value(d) as u32)
    } else {
        None
    }
}

proof fn lemma_digits_value_grows(d: Seq<char>, i: int, j: int)
    requires
        0 <= i <= j <= d.len(),
        digits_only(d),
    ensures
        digits_value(d.take(i)) <= digits_value(d.take(j)),
    decreases j - i,
{
    if i < j {
        lemma_digits_value_grows(d, i, j - 1);
        assert(d.take(j).drop_last() =~= d.take(j - 1));
        assert(d.take(j).last() == d[j - 1]);
        assert(is_digit(d[j - 1]));
    }
}

/// Parses a `u32` the way `str::parse::<u32>` does.
pub fn parse_u32(s: &str) -> (r: Option<u32>)
    ensures
        r == spec_parse_u32(s@),
{
    let v = chars_of(s);
    let d = if v.len() > 0 && v[0] == '+' {
        let d = copy_range(v.as_slice(), 1, v.len());
        assert(d@ =~= v@.drop_first());
        d
    } else {
        v
    };
    if d.len() == 0 {
        return None;
    }
    let ghost dd = if s@.len() > 0 && s@[0] == '+' {
        s@.drop_first()
    } else {
        s@
    };
    assert(d@ == dd);
    let mut i: usize = 0;
    let mut val: u64 = 0;
    assert(d@.take(0) =~= Seq::<char>::empty());
    while i < d.len()
        invariant
            d@ == dd,
            dd.len() > 0,
            spec_parse_u32(s@) == (if digits_only(dd) && digits_value(dd) <= u32::MAX {
                Some(digits_value(dd) as u32)
            } else {
                None
            }),
            i <= d@.len(),
            forall|j: int| 0 <= j < i ==> is_digit(#[trigger] d@[j]),
            val == digits_value(d@.take(i as int)),
            val <= u32::MAX,
        decreases d@.len() - i,
    {
        let c = d[i];
        let u = c as u32;
        if !('0' as u32 <= u && u <= '9' as u32) {
            assert(!is_digit(d@[i as int]));
            return None;
        }
        proof {
            assert(d@.take(i + 1).drop_last() =~= d@.take(i as int));
            assert(d@.take(i + 1).last() == c);
        }
        let nv = val * 10 + (u - ('0' as u32)) as u64;
        if nv > 4294967295u64 {
            proof {
                if digits_only(d@) {
                    lemma_digits_value_grows(d@, i + 1, d@.len() as int);
                    assert(d@.take(d@.len() as int) =~= d@);
                }
            }
            return None;
        }
        val = nv;
        i = i + 1;
    }
    assert(d@.take(d@.len() as int) =~= d@);
    Some(val as u32)
}

/// A tail line count: `+N` (N at least 1) is "from line N", `N` is "the last N lines".
pub open spec fn spec_tail_token(s: Seq<char>) -> Option<TailMode> {
    let t = trim(s);
    if t.len() > 0 && t[0] == '+' {
        match spec_parse_u32(t.drop_first()) {
            Some(n) => if n >= 1 && !(t.len() > 1 && t[1] == '+') {
                Some(TailMode::FromLine(n))
            } else {
                None
            },
            None => None,
        }
    } else {
        match spec_parse_u32(t) {
            Some(n) => Some(TailMode::Last(n)),
            None => None,
        }
    }
}

/// The message for a tail line count that is neither `N` nor `+N`.
pub open spec fn tail_token_error() -> Seq<char> {
    "expected N or +N (N >= 1) line count"@
}

/// Parses a tail line count (`N` or `+N`).
pub fn parse_tail_token(s: &str) -> (r: Result<TailMode, String>)
    ensures
        match r {
            Ok(m) => spec_tail_token(s@) == Some(m),
            Err(e) => spec_tail_token(s@) is None && e@ == tail_token_error(),
        },
{
    let t = trim_ws(chars_of(s).as_slice());
    if t.len() > 0 && t[0] == '+' {
        let rest = copy_range(t.as_slice(), 1, t.len());
        assert(rest@ =~= t@.drop_first());
        let rs = string_of(rest.as_slice());
        match parse_u32(rs.as_str()) {
            Some(n) => {
                if n >= 1 && !(t.len() > 1 && t[1] == '+') {
                    Ok(TailMode::FromLine(n))
                } else {
                    Err(owned("expected N or +N (N >= 1) line count"))
                }
            },
            None => Err(owned("expected N or +N (N >= 1) line count")),
        }
    } else {
        let ts = string_of(t.as_slice());
        match parse_u32(ts.as_str()) {
            Some(n) => Ok(TailMode::Last(n)),
            None => Err(owned("expected N or +N (N >= 1) line count")),
        }
    }
}

/// `{:?}` of a string: quoted, with escapes.
pub uninterp spec fn debug_str(s: Seq<char>) -> Seq<char>;

/// Formats `s` with `{:?}` (std's `Debug` for `str`): the result is the
/// quoted, escaped text, a function of `s` alone.
#[verifier::external_body]
pub(crate) fn debug_quote(s: &str) -> (r: String)
    ensures
        r@ == debug_str(s@),
{
    format!("{s:?}")
}

/// A non-negative count given as a JSON number or as a decimal string.
pub enum LooseNat {
    Num(u32),
    Str(String),
}

pub open spec fn loose_nat_error(s: Seq<char>) -> Seq<char> {
    "expected non-negative integer string, got "@ + debug_str(trim(s))
}

impl LooseNat {
    /// The count: a number as it is, a string trimmed and parsed as a `u32`.
    pub fn parse_u32(self) -> (r: Result<u32, String>)
        ensures
            match self {
                LooseNat::Num(n) => r == Ok::<u32, String>(n),
                LooseNat::Str(s) => match spec_parse_u32(trim(s@)) {
                    Some(n) => r == Ok::<u32, String>(n),
                    None => r is Err && r->Err_0@ == loose_nat_error(s@),
                },
            },
    {
        match self {
            LooseNat::Num(n) => Ok(n),
            LooseNat::Str(s) => {
                let t = string_of(trim_ws(chars_of(s.as_str()).as_slice()).as_slice());
                match parse_u32(t.as_str()) {
                    Some(n) => Ok(n),
                    None => {
                        let mut msg = chars_of("expected non-negative integer string, got ");
                        let q = debug_quote(t.as_str());
                        crate::text::append_chars(&mut msg, chars_of(q.as_str()).as_slice());
                        Err(string_of(msg.as_slice()))
                    },
                }
            },
        }
    }
}

} // verus!

verus! {

/// `u64::from_str`: an optional `+`, then one or more ASCII digits, no larger than `u64::MAX`.
pub open spec fn spec_parse_u64(s: Seq<char>) -> Option<u64> {
    let d = if s.len() > 0 && s[0] == '+' {
        s.drop_first()
    } else {
        s
    };
    if d.len() > 0 && digits_only(d) && digits_value(d) <= u64::MAX {
        Some(digits_value(d) as u64)
    } else {
        None
    }
}

/// Parses a `u64` the way `str::parse::<u64>` does.
pub fn parse_u64(s: &str) -> (r: Option<u64>)
    ensures
        r == spec_parse_u64(s@),
{
    let v = chars_of(s);
    let d = if v.len() > 0 && v[0] == '+' {
        let d = copy_range(v.as_slice(), 1, v.len());
        assert(d@ =~= v@.drop_first());
        d
    } else {
        v
    };
    if d.len() == 0 {
        return None;
    }
    let ghost dd = if s@.len() > 0 && s@[0] == '+' {
        s@.drop_first()
    } else {
        s@
    };
    assert(d@ == dd);
    let mut i: usize = 0;
    let mut val: u128 = 0;
    assert(d@.take(0) =~= Seq::<char>::empty());
    while i < d.len()
        invariant
            d@ == dd,
            dd.len() > 0,
            spec_parse_u64(s@) == (if digits_only(dd) && digits_value(dd) <= u64::MAX {
                Some(digits_value(dd) as u64)
            } else {
                None
            }),
            i <= d@.len(),
            forall|j: int| 0 <= j < i ==> is_digit(#[trigger] d@[j]),
            val == digits_value(d@.take(i as int)),
            val <= u64::MAX,
        decreases d@.len() - i,
    {
        let c = d[i];
        let u = c as u32;
        if !('0' as u32 <= u && u <= '9' as u32) {
            assert(!is_digit(d@[i as int]));
            return None;
        }
        proof {
            assert(d@.take(i + 1).drop_last() =~= d@.take(i as int));
            assert(d@.take(i + 1).last() == c);
        }
        let nv = val * 10 + (u - ('0' as u32)) as u128;
        if nv > 18446744073709551615u128 {
            proof {
                if digits_only(d@) {
                    lemma_digits_value_grows(d@, i + 1, d@.len() as int);
                    assert(d@.take(d@.len() as int) =~= d@);
                }
            }
            return None;
        }
        val = nv;
        i = i + 1;
    }
    assert(d@.take(d@.len() as int) =~= d@);
    Some(val as u64)
}

} // verus!

verus! {

/// A tail line count on the wire: `+N` with N at least 1 ("from line N").
pub open spec fn spec_plus_wire(s: Seq<char>) -> Option<u32> {
    if s.len() > 1 && s[0] == '+' && s[1] != '+' {
        match spec_parse_u32(s.drop_first()) {
            Some(n) => if n >= 1 {
                Some(n)
            } else {
                None
            },
            None => None,
        }
    } else {
        None
    }
}

/// The message for a wire tail count that is not `+N`.
pub open spec fn plus_wire_error() -> Seq<char> {
    "expected \"+N\" with N >= 1"@
}

/// Parses a wire tail count (`+N`).
pub fn parse_plus_wire(s: &str) -> (r: Result<TailMode, String>)
    ensures
        match r {
            Ok(m) => spec_plus_wire(s@) matches Some(n) && m == TailMode::FromLine(n),
            Err(e) => spec_plus_wire(s@) is None && e@ == plus_wire_error(),
        },
{
    let v = chars_of(s);
    if v.len() > 1 && v[0] == '+' && v[1] != '+' {
        let rest = copy_range(v.as_slice(), 1, v.len());
        assert(rest@ =~= v@.drop_first());
        let rs = string_of(rest.as_slice());
        match parse_u32(rs.as_str()) {
            Some(n) => if n >= 1 {
                return Ok(TailMode::FromLine(n));
            },
            None => {},
        }
    }
    Err(owned("expected \"+N\" with N >= 1"))
}

} // verus!

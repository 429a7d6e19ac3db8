//! Entity names and repository paths: validation, `.`/`..` folding, normalization.
//!
//! A repository path is `/` or `/seg/seg/...`, each segment a valid entity name.

use vstd::prelude::*;
use crate::text::{
    append_chars, chars_of, copy_range, has_char, join_chars, join_with, owned, pieces, pieces_of,
    string_of, trim, trim_ws, views,
};

verus! {

pub open spec fn is_control(c: char) -> bool {
    (c as u32) < 0x20 || (c as u32) == 0x7f
}

pub open spec fn is_digit(c: char) -> bool {
    '0' as u32 <= c as u32 && c as u32 <= '9' as u32
}

pub open spec fn all_digits(s: Seq<char>) -> bool {
    s.len() > 0 && forall|i: int| 0 <= i < s.len() ==> is_digit(#[trigger] s[i])
}

pub open spec fn has_control(s: Seq<char>) -> bool {
    exists|i: int| 0 <= i < s.len() && is_control(#[trigger] s[i])
}

pub open spec fn is_dot(s: Seq<char>) -> bool {
    s == seq!['.']
}

pub open spec fn is_dot_dot(s: Seq<char>) -> bool {
    s == seq!['.', '.']
}

/// Why `s` is not a valid file or directory name, if it is not.
pub open spec fn entity_name_error(s: Seq<char>) -> Option<Seq<char>> {
    if s.len() == 0 {
        Some("name must not be empty"@)
    } else if is_dot(s) || is_dot_dot(s) {
        Some("name must not be . or .."@)
    } else if s.contains('/') || s.contains('\\') {
        Some("name must not contain a path separator"@)
    } else if has_control(s) {
        Some("name must not contain control characters"@)
    } else if all_digits(s) {
        Some("name must not be purely numeric"@)
    } else {
        None
    }
}

pub open spec fn unit_result(r: Result<(), String>) -> Option<Seq<char>> {
    match r {
        Ok(()) => None,
        Err(e) => Some(e@),
    }
}

pub open spec fn string_result(r: Result<String, String>) -> Result<Seq<char>, Seq<char>> {
    match r {
        Ok(s) => Ok(s@),
        Err(e) => Err(e@),
    }
}

pub open spec fn opt_string_result(r: Result<Option<String>, String>) -> Result<
    Option<Seq<char>>,
    Seq<char>,
> {
    match r {
        Ok(Some(s)) => Ok(Some(s@)),
        Ok(None) => Ok(None),
        Err(e) => Err(e@),
    }
}

pub fn is_dot_chars(v: &[char]) -> (b: bool)
    ensures
        b == is_dot(v@),
{
    let r = v.len() == 1 && v[0] == '.';
    if r {
        assert(v@ =~= seq!['.']);
    }
    r
}

pub fn is_dot_dot_chars(v: &[char]) -> (b: bool)
    ensures
        b == is_dot_dot(v@),
{
    let r = v.len() == 2 && v[0] == '.' && v[1] == '.';
    if r {
        assert(v@ =~= seq!['.', '.']);
    }
    r
}

fn control_index(v: &[char]) -> (b: bool)
    ensures
        b == has_control(v@),
{
    let mut i: usize = 0;
    while i < v.len()
        invariant
            i <= v@.len(),
            forall|j: int| 0 <= j < i ==> !is_control(#[trigger] v@[j]),
        decreases v@.len() - i,
    {
        let u = v[i] as u32;
        if u < 0x20 || u == 0x7f {
            assert(is_control(v@[i as int]));
            return true;
        }
        i = i + 1;
    }
    false
}

fn digits_only(v: &[char]) -> (b: bool)
    ensures
        b == all_digits(v@),
{
    if v.len() == 0 {
        return false;
    }
    let mut i: usize = 0;
    while i < v.len()
        invariant
            i <= v@.len(),
            forall|j: int| 0 <= j < i ==> is_digit(#[trigger] v@[j]),
        decreases v@.len() - i,
    {
        let u = v[i] as u32;
        if !('0' as u32 <= u && u <= '9' as u32) {
            assert(!is_digit(v@[i as int]));
            return false;
        }
        i = i + 1;
    }
    true
}

/// Checks a file or directory name (one path segment).
pub fn check_entity_name(v: &[char]) -> (r: Result<(), String>)
    ensures
        unit_result(r) == entity_name_error(v@),
{
    if v.len() == 0 {
        Err(owned("name must not be empty"))
    } else if is_dot_chars(v) || is_dot_dot_chars(v) {
        Err(owned("name must not be . or .."))
    } else if has_char(v, '/') || has_char(v, '\\') {
        Err(owned("name must not contain a path separator"))
    } else if control_index(v) {
        Err(owned("name must not contain control characters"))
    } else if digits_only(v) {
        Err(owned("name must not be purely numeric"))
    } else {
        Ok(())
    }
}

/// Validates a file or directory name.
pub fn validate_entity_name(name: &str) -> (r: Result<(), String>)
    ensures
        unit_result(r) == entity_name_error(name@),
{
    let v = chars_of(name);
    check_entity_name(v.as_slice())
}

/// Why `s` is not a valid chat speaker id (nickname), if it is not.
pub open spec fn speaker_id_error(s: Seq<char>) -> Option<Seq<char>> {
    if trim(s).len() == 0 {
        Some("speaker id must not be empty"@)
    } else if has_control(s) {
        Some("speaker id must not contain control characters"@)
    } else {
        None
    }
}

/// Validates a chat speaker id (the nickname shown in `say` headings).
pub fn validate_chat_speaker_id(id: &str) -> (r: Result<(), String>)
    ensures
        unit_result(r) == speaker_id_error(id@),
{
    let v = chars_of(id);
    let t = trim_ws(v.as_slice());
    if t.len() == 0 {
        Err(owned("speaker id must not be empty"))
    } else if control_index(v.as_slice()) {
        Err(owned("speaker id must not contain control characters"))
    } else {
        Ok(())
    }
}

/// One step of folding a path segment onto a list of directory segments.
pub open spec fn fold_step(b: Seq<Seq<char>>, p: Seq<char>) -> Result<Seq<Seq<char>>, Seq<char>> {
    if is_dot(p) {
        Ok(b)
    } else if is_dot_dot(p) {
        if b.len() == 0 {
            Err("path escapes repository root"@)
        } else {
            Ok(b.drop_last())
        }
    } else {
        match entity_name_error(p) {
            Some(e) => Err(e),
            None => Ok(b.push(p)),
        }
    }
}

/// Folds `parts` left to right onto `base`: `.` is skipped, `..` pops (an error at
/// the root), any other segment must be a valid name and is pushed.
pub open spec fn fold_segments(base: Seq<Seq<char>>, parts: Seq<Seq<char>>) -> Result<
    Seq<Seq<char>>,
    Seq<char>,
>
    decreases parts.len(),
{
    if parts.len() == 0 {
        Ok(base)
    } else {
        match fold_segments(base, parts.drop_last()) {
            Err(e) => Err(e),
            Ok(b) => fold_step(b, parts.last()),
        }
    }
}

pub open spec fn segs_result(r: Result<Vec<Vec<char>>, String>) -> Result<
    Seq<Seq<char>>,
    Seq<char>,
> {
    match r {
        Ok(v) => Ok(views(v@)),
        Err(e) => Err(e@),
    }
}

proof fn lemma_fold_err_stays(base: Seq<Seq<char>>, parts: Seq<Seq<char>>, i: int)
    requires
        0 <= i <= parts.len(),
        fold_segments(base, parts.take(i)) is Err,
    ensures
        fold_segments(base, parts) == fold_segments(base, parts.take(i)),
    decreases parts.len() - i,
{
    if i < parts.len() {
        assert(parts.take(i + 1).drop_last() =~= parts.take(i));
        lemma_fold_err_stays(base, parts, i + 1);
    } else {
        assert(parts.take(i) =~= parts);
    }
}

/// Folds `parts` onto `base` (see `fold_segments`).
pub fn fold_parts(base: &mut Vec<Vec<char>>, parts: &Vec<Vec<char>>) -> (r: Result<(), String>)
    ensures
        fold_segments(views(old(base)@), views(parts@)) == match r {
            Ok(()) => Ok::<Seq<Seq<char>>, Seq<char>>(views(final(base)@)),
            Err(e) => Err(e@),
        },
{
    let ghost b0 = views(base@);
    let ghost ps = views(parts@);
    let mut i: usize = 0;
    assert(ps.take(0) =~= Seq::<Seq<char>>::empty());
    while i < parts.len()
        invariant
            i <= parts@.len(),
            b0 == views(old(base)@),
            ps == views(parts@),
            ps.len() == parts@.len(),
            fold_segments(b0, ps.take(i as int)) == Ok::<Seq<Seq<char>>, Seq<char>>(views(base@)),
        decreases parts@.len() - i,
    {
        let p = &parts[i];
        assert(ps.take(i + 1).drop_last() =~= ps.take(i as int));
        assert(ps.take(i + 1).last() == p@);
        let ghost a0 = views(base@);
        if is_dot_chars(p.as_slice()) {
        } else if is_dot_dot_chars(p.as_slice()) {
            if base.len() == 0 {
                let e = owned("path escapes repository root");
                assert(fold_segments(b0, ps.take(i + 1)) == Err::<Seq<Seq<char>>, Seq<char>>(e@));
                proof {
                    lemma_fold_err_stays(b0, ps, i + 1);
                }
                return Err(e);
            }
            base.pop();
            assert(views(base@) =~= a0.drop_last());
        } else {
            match check_entity_name(p.as_slice()) {
                Err(e) => {
                    assert(fold_segments(b0, ps.take(i + 1)) == Err::<Seq<Seq<char>>, Seq<char>>(e@));
                    proof {
                        lemma_fold_err_stays(b0, ps, i + 1);
                    }
                    return Err(e);
                },
                Ok(()) => {
                    base.push(copy_range(p.as_slice(), 0, p.len()));
                    assert(p@.subrange(0, p@.len() as int) =~= p@);
                    assert(views(base@) =~= a0.push(p@));
                },
            }
        }
        i = i + 1;
    }
    assert(ps.take(ps.len() as int) =~= ps);
    Ok(())
}

/// The rule that turns a user path into a canonical repository path.
pub open spec fn spec_normalize_path(s: Seq<char>) -> Result<Seq<char>, Seq<char>> {
    let t = trim(s);
    if t.len() == 0 {
        Err("path must not be empty"@)
    } else if t.contains('\\') {
        Err("path must not contain a backslash"@)
    } else {
        match fold_segments(seq![], pieces(t)) {
            Err(e) => Err(e),
            Ok(segs) => Ok(seq!['/'] + join_with(segs, '/')),
        }
    }
}

/// `/` followed by the segments joined with `/` (so `/` for no segments).
pub fn rooted(segs: &Vec<Vec<char>>) -> (r: Vec<char>)
    ensures
        r@ == seq!['/'] + join_with(views(segs@), '/'),
{
    let j = join_chars(segs, '/');
    let mut r: Vec<char> = Vec::new();
    r.push('/');
    append_chars(&mut r, j.as_slice());
    assert(r@ =~= seq!['/'] + j@);
    r
}

/// Normalizes a user path to a canonical repository path: surrounding whitespace
/// is ignored, empty segments are dropped, `.` and `..` are folded, every other
/// segment must be a valid name. `a//./b/../c` becomes `/a/c`.
pub fn normalize_path(path: &str) -> (r: Result<String, String>)
    ensures
        string_result(r) == spec_normalize_path(path@),
{
    let v = chars_of(path);
    let t = trim_ws(v.as_slice());
    if t.len() == 0 {
        return Err(owned("path must not be empty"));
    }
    if has_char(t.as_slice(), '\\') {
        return Err(owned("path must not contain a backslash"));
    }
    let parts = pieces_of(t.as_slice());
    let ghost empty: Seq<Seq<char>> = seq![];
    let mut segs: Vec<Vec<char>> = Vec::new();
    assert(views(segs@) =~= empty);
    match fold_parts(&mut segs, &parts) {
        Err(e) => Err(e),
        Ok(()) => {
            let r = rooted(&segs);
            Ok(string_of(r.as_slice()))
        },
    }
}

/// Every segment is a valid entity name.
pub open spec fn valid_segments(segs: Seq<Seq<char>>) -> bool {
    forall|i: int| 0 <= i < segs.len() ==> entity_name_error(#[trigger] segs[i]) is None
}

/// Folding keeps every segment a valid name.
pub proof fn lemma_fold_valid(base: Seq<Seq<char>>, parts: Seq<Seq<char>>)
    requires
        valid_segments(base),
        fold_segments(base, parts) is Ok,
    ensures
        valid_segments(fold_segments(base, parts)->Ok_0),
    decreases parts.len(),
{
    if parts.len() > 0 {
        lemma_fold_valid(base, parts.drop_last());
        let b = fold_segments(base, parts.drop_last())->Ok_0;
        let r = fold_step(b, parts.last())->Ok_0;
        if is_dot_dot(parts.last()) && !is_dot(parts.last()) {
            assert forall|i: int| 0 <= i < r.len() implies entity_name_error(#[trigger] r[i]) is None by {
                assert(r[i] == b[i]);
            }
        } else if !is_dot(parts.last()) {
            assert forall|i: int| 0 <= i < r.len() implies entity_name_error(#[trigger] r[i]) is None by {
                if i < b.len() {
                    assert(r[i] == b[i]);
                }
            }
        }
    }
}

/// Valid names fold onto a base as they are.
pub proof fn lemma_fold_plain(base: Seq<Seq<char>>, segs: Seq<Seq<char>>)
    requires
        valid_segments(segs),
    ensures
        fold_segments(base, segs) == Ok::<Seq<Seq<char>>, Seq<char>>(base + segs),
    decreases segs.len(),
{
    if segs.len() == 0 {
        assert(base + segs =~= base);
    } else {
        let d = segs.drop_last();
        assert(valid_segments(d)) by {
            assert forall|i: int| 0 <= i < d.len() implies entity_name_error(#[trigger] d[i]) is None by {
                assert(d[i] == segs[i]);
            }
        }
        lemma_fold_plain(base, d);
        assert(entity_name_error(segs.last()) is None);
        assert((base + d).push(segs.last()) =~= base + segs);
    }
}

/// A valid name is non-empty and holds no `/` and no `\\`.
pub proof fn lemma_valid_plain(segs: Seq<Seq<char>>)
    requires
        valid_segments(segs),
    ensures
        crate::text::plain_segments(segs),
        forall|i: int| 0 <= i < segs.len() ==> !(#[trigger] segs[i]).contains('\\'),
{
    assert forall|i: int| 0 <= i < segs.len() implies (#[trigger] segs[i]).len() > 0 && !segs[i].contains('/') && !segs[i].contains('\\') by {
        assert(entity_name_error(segs[i]) is None);
    }
}

/// Normalizing is stable: a path that normalization produced normalizes to
/// itself, unless its last name ends in whitespace (which the trim of the
/// input would then cut off).
pub proof fn law_normalize_stable(p: Seq<char>)
    requires
        spec_normalize_path(p) is Ok,
        !crate::text::is_ws(spec_normalize_path(p)->Ok_0.last()),
    ensures
        spec_normalize_path(spec_normalize_path(p)->Ok_0) == spec_normalize_path(p),
{
    let t = trim(p);
    let segs = fold_segments(seq![], pieces(t))->Ok_0;
    let q = seq!['/'] + join_with(segs, '/');
    assert(valid_segments(Seq::<Seq<char>>::empty()));
    lemma_fold_valid(seq![], pieces(t));
    lemma_valid_plain(segs);
    assert(spec_normalize_path(p)->Ok_0 == q);
    assert(q[0] == '/');
    crate::text::lemma_trim_noop(q);
    crate::text::lemma_join_lacks(segs, '\\');
    assert(!q.contains('\\')) by {
        if q.contains('\\') {
            let k = choose|k: int| 0 <= k < q.len() && q[k] == '\\';
            assert(k > 0);
            assert(join_with(segs, '/')[k - 1] == '\\');
        }
    }
    crate::text::lemma_pieces_join(segs);
    lemma_fold_plain(seq![], segs);
    assert(Seq::<Seq<char>>::empty() + segs =~= segs);
}

} // verus!

//! Group names for ACL mapping, read from the claims of a verified OIDC
//! assertion.

use vstd::prelude::*;
use crate::json::{JsonValue, lookup};
use crate::text::{
    append_chars, begins_with, chars_of, copy_range, split_chars, split_on, starts_with,
    string_of, trim, trim_ws, views,
};
use crate::web::{Error, ErrorKind};

verus! {

/// The non-empty trimmed parts of a comma-separated list, in order.
pub open spec fn comma_groups(parts: Seq<Seq<char>>) -> Seq<Seq<char>>
    decreases parts.len(),
{
    if parts.len() == 0 {
        seq![]
    } else {
        let kept = comma_groups(parts.drop_last());
        let t = trim(parts.last());
        if t.len() > 0 {
            kept.push(t)
        } else {
            kept
        }
    }
}

/// Whether every element of an array is a string.
pub open spec fn all_strings(a: Seq<JsonValue>) -> bool {
    forall|i: int| 0 <= i < a.len() ==> (#[trigger] a[i]) is String
}

/// The strings of an array of strings.
pub open spec fn string_items(a: Seq<JsonValue>) -> Seq<Seq<char>> {
    Seq::new(a.len(), |i: int| a[i]->String_0@)
}

/// The group names a claim lists: the strings of an array, or the parts of a
/// comma-separated string; anything else is refused.
pub open spec fn listed_groups(raw: JsonValue, field: Seq<char>) -> Result<Seq<Seq<char>>, Seq<char>> {
    match raw {
        JsonValue::Array(a) => if all_strings(a@) {
            Ok(string_items(a@))
        } else {
            Err("JWT `"@ + field + "` entries must be strings (got non-string array element)"@)
        },
        JsonValue::String(s) => Ok(comma_groups(split_on(s@, ','))),
        _ => Err("JWT `"@ + field + "` must be a JSON array of strings or a comma-separated string"@),
    }
}

/// The names kept: each trimmed, blanks dropped; with a prefix, only names
/// that start with it, the prefix cut off and the rest trimmed (blanks dropped).
pub open spec fn kept_groups(groups: Seq<Seq<char>>, prefix: Option<Seq<char>>) -> Seq<Seq<char>>
    decreases groups.len(),
{
    if groups.len() == 0 {
        seq![]
    } else {
        let kept = kept_groups(groups.drop_last(), prefix);
        let g = trim(groups.last());
        if g.len() == 0 {
            kept
        } else {
            match prefix {
                None => kept.push(g),
                Some(p) => if starts_with(g, p) && trim(g.skip(p.len() as int)).len() > 0 {
                    kept.push(trim(g.skip(p.len() as int)))
                } else {
                    kept
                },
            }
        }
    }
}

/// The groups of the claims under `field`, or why they cannot be read.
pub open spec fn spec_claim_groups(claims: JsonValue, field: Seq<char>, prefix: Option<Seq<char>>) -> Result<
    Seq<Seq<char>>,
    Seq<char>,
> {
    if field.len() == 0 {
        Err("[oidc].groups_field must not be empty"@)
    } else {
        let raw = match claims {
            JsonValue::Object(m) => lookup(m@, field),
            _ => None,
        };
        match raw {
            None => Err("missing JWT claim `"@ + field + "` for ACL mapping"@),
            Some(v) => match listed_groups(v, field) {
                Err(e) => Err(e),
                Ok(gs) => Ok(kept_groups(gs, prefix)),
            },
        }
    }
}

fn quoted_message(before: &str, field: &str, after: &str) -> (r: String)
    ensures
        r@ == before@ + field@ + after@,
{
    let mut v = chars_of(before);
    append_chars(&mut v, chars_of(field).as_slice());
    append_chars(&mut v, chars_of(after).as_slice());
    string_of(v.as_slice())
}

fn unauthorized(msg: String) -> (e: Error)
    ensures
        e.kind() == ErrorKind::Unauthorized,
        e.msg() == msg@,
{
    Error::Unauthorized(msg)
}

fn comma_parts(s: &str) -> (r: Vec<String>)
    ensures
        crate::completion::string_views(r@) == comma_groups(split_on(s@, ',')),
{
    let parts = split_chars(chars_of(s).as_slice(), ',');
    let ghost pv = views(parts@);
    let mut out: Vec<String> = Vec::new();
    let mut i: usize = 0;
    while i < parts.len()
        invariant
            i <= parts@.len(),
            pv == views(parts@),
            pv == split_on(s@, ','),
            crate::completion::string_views(out@) == comma_groups(pv.take(i as int)),
        decreases parts@.len() - i,
    {
        let t = trim_ws(parts[i].as_slice());
        assert(pv.take(i + 1).drop_last() =~= pv.take(i as int));
        assert(pv.take(i + 1).last() == parts@[i as int]@);
        if t.len() > 0 {
            out.push(string_of(t.as_slice()));
            assert(crate::completion::string_views(out@) =~= comma_groups(pv.take(i as int)).push(
                t@,
            ));
        }
        i = i + 1;
    }
    assert(pv.take(parts@.len() as int) =~= pv);
    out
}

fn keep_groups(groups: &Vec<String>, prefix: Option<&str>) -> (r: Vec<String>)
    ensures
        crate::completion::string_views(r@) == kept_groups(
            crate::completion::string_views(groups@),
            crate::shell_path::opt_view(prefix),
        ),
{
    let ghost gv = crate::completion::string_views(groups@);
    let ghost pre = crate::shell_path::opt_view(prefix);
    let mut out: Vec<String> = Vec::new();
    let mut i: usize = 0;
    while i < groups.len()
        invariant
            i <= groups@.len(),
            gv == crate::completion::string_views(groups@),
            pre == crate::shell_path::opt_view(prefix),
            crate::completion::string_views(out@) == kept_groups(gv.take(i as int), pre),
        decreases groups@.len() - i,
    {
        let g = trim_ws(chars_of(groups[i].as_str()).as_slice());
        assert(gv.take(i + 1).drop_last() =~= gv.take(i as int));
        assert(gv.take(i + 1).last() == groups@[i as int]@);
        let ghost before = out@;
        if g.len() > 0 {
            match prefix {
                None => {
                    out.push(string_of(g.as_slice()));
                    assert(crate::completion::string_views(out@) =~= crate::completion::string_views(
                        before,
                    ).push(g@));
                },
                Some(p) => {
                    let pc = chars_of(p);
                    if begins_with(g.as_slice(), pc.as_slice()) {
                        let rest = copy_range(g.as_slice(), pc.len(), g.len());
                        assert(rest@ =~= g@.skip(p@.len() as int));
                        let t = trim_ws(rest.as_slice());
                        if t.len() > 0 {
                            out.push(string_of(t.as_slice()));
                            assert(crate::completion::string_views(out@)
                                =~= crate::completion::string_views(before).push(t@));
                        }
                    }
                },
            }
        }
        i = i + 1;
    }
    assert(gv.take(groups@.len() as int) =~= gv);
    out
}

fn array_strings(a: &Vec<JsonValue>) -> (r: Option<Vec<String>>)
    ensures
        r is Some <==> all_strings(a@),
        r matches Some(v) ==> crate::completion::string_views(v@) == string_items(a@),
{
    let mut gs: Vec<String> = Vec::new();
    let mut i: usize = 0;
    while i < a.len()
        invariant
            i <= a@.len(),
            forall|k: int| 0 <= k < i ==> (#[trigger] a@[k]) is String,
            gs@.len() == i,
            crate::completion::string_views(gs@) == string_items(a@.take(i as int)),
        decreases a@.len() - i,
    {
        match &a[i] {
            JsonValue::String(s) => {
                let t = string_of(chars_of(s.as_str()).as_slice());
                assert(a@[i as int] is String);
                assert(a@[i as int]->String_0@ == t@);
                let ghost before = gs@;
                gs.push(t);
                assert(crate::completion::string_views(gs@) =~= string_items(a@.take(i + 1))) by {
                    assert forall|k: int| 0 <= k < i + 1 implies #[trigger] crate::completion::string_views(gs@)[k]
                        == string_items(a@.take(i + 1))[k] by {
                        if k < i {
                            assert(gs@[k] == before[k]);
                            assert(crate::completion::string_views(before)[k] == string_items(a@.take(i as int))[k]);
                        }
                    }
                }
            },
            _ => {
                return None;
            },
        }
        i = i + 1;
    }
    assert(a@.take(a@.len() as int) =~= a@);
    Some(gs)
}

/// The ACL group names in the claims under `field`: a JSON array of strings
/// or a comma-separated string; each trimmed, blanks dropped, and with a
/// prefix only the names that carry it, the prefix cut off. Every refusal is
/// `Unauthorized`.
pub fn normalize_groups_from_claim(claims: &JsonValue, field: &str, prefix: Option<&str>) -> (r:
    Result<Vec<String>, Error>)
    ensures
        match spec_claim_groups(*claims, field@, crate::shell_path::opt_view(prefix)) {
            Ok(gs) => r matches Ok(v) && crate::completion::string_views(v@) == gs,
            Err(m) => r matches Err(e) && e.kind() == ErrorKind::Unauthorized && e.msg() == m,
        },
{
    if chars_of(field).len() == 0 {
        return Err(unauthorized(string_of(chars_of("[oidc].groups_field must not be empty").as_slice())));
    }
    let raw = match claims {
        JsonValue::Object(m) => crate::json::get(m, field),
        _ => None,
    };
    let raw = match raw {
        None => {
            return Err(unauthorized(quoted_message("missing JWT claim `", field, "` for ACL mapping")));
        },
        Some(v) => v,
    };
    let groups: Vec<String> = match raw {
        JsonValue::Array(a) => match array_strings(a) {
            Some(gs) => gs,
            None => {
                return Err(
                    unauthorized(
                        quoted_message(
                            "JWT `",
                            field,
                            "` entries must be strings (got non-string array element)",
                        ),
                    ),
                );
            },
        },
        JsonValue::String(s) => comma_parts(s.as_str()),
        _ => {
            return Err(
                unauthorized(
                    quoted_message(
                        "JWT `",
                        field,
                        "` must be a JSON array of strings or a comma-separated string",
                    ),
                ),
            );
        },
    };
    Ok(keep_groups(&groups, prefix))
}

/// The configured group-name prefix, trimmed; none when it is blank.
pub fn group_name_prefix(configured: Option<&str>) -> (r: Option<String>)
    ensures
        match configured {
            None => r is None,
            Some(p) => if trim(p@).len() == 0 {
                r is None
            } else {
                r matches Some(s) && s@ == trim(p@)
            },
        },
{
    match configured {
        None => None,
        Some(p) => {
            let t = trim_ws(chars_of(p).as_slice());
            if t.len() == 0 {
                None
            } else {
                Some(string_of(t.as_slice()))
            }
        },
    }
}

/// Whether a signing key with id `id` is the one an assertion names.
pub open spec fn key_named(id: Option<Seq<char>>, kid: Option<Seq<char>>) -> bool {
    kid is Some && id == kid
}

/// The positions among the first `n` keys whose naming is `named`, in order.
pub open spec fn key_positions(ids: Seq<Option<Seq<char>>>, kid: Option<Seq<char>>, named: bool, n: nat) -> Seq<int>
    decreases n,
{
    if n == 0 {
        seq![]
    } else {
        let r = key_positions(ids, kid, named, (n - 1) as nat);
        if key_named(ids[n - 1], kid) == named {
            r.push(n - 1)
        } else {
            r
        }
    }
}

/// The order in which the signing keys of a key set are tried: the keys the
/// assertion's `kid` names first, then the others, each in set order.
pub open spec fn spec_key_order(ids: Seq<Option<Seq<char>>>, kid: Option<Seq<char>>) -> Seq<int> {
    key_positions(ids, kid, true, ids.len()) + key_positions(ids, kid, false, ids.len())
}

pub open spec fn ids_view(ids: Seq<Option<String>>) -> Seq<Option<Seq<char>>> {
    ids.map_values(|o: Option<String>| crate::listing::opt_str_view(o))
}

fn key_is_named(id: &Option<String>, kid: Option<&str>) -> (b: bool)
    ensures
        b == key_named(crate::listing::opt_str_view(*id), crate::shell_path::opt_view(kid)),
{
    match (id, kid) {
        (Some(i), Some(k)) => crate::text::chars_eq(chars_of(i.as_str()).as_slice(), chars_of(k).as_slice()),
        _ => false,
    }
}

fn push_positions(key_ids: &Vec<Option<String>>, kid: Option<&str>, named: bool, out: &mut Vec<usize>)
    ensures
        final(out)@.map_values(|i: usize| i as int) == old(out)@.map_values(|i: usize| i as int)
            + key_positions(ids_view(key_ids@), crate::shell_path::opt_view(kid), named, key_ids@.len()),
{
    let ghost ids = ids_view(key_ids@);
    let ghost k = crate::shell_path::opt_view(kid);
    let ghost start = old(out)@.map_values(|i: usize| i as int);
    let mut i: usize = 0;
    while i < key_ids.len()
        invariant
            i <= key_ids@.len(),
            ids == ids_view(key_ids@),
            k == crate::shell_path::opt_view(kid),
            out@.map_values(|j: usize| j as int) == start + key_positions(ids, k, named, i as nat),
        decreases key_ids@.len() - i,
    {
        assert(ids[i as int] == crate::listing::opt_str_view(key_ids@[i as int]));
        if key_is_named(&key_ids[i], kid) == named {
            let ghost before = out@;
            out.push(i);
            assert(out@.map_values(|j: usize| j as int) =~= before.map_values(|j: usize| j as int).push(
                i as int,
            ));
        }
        i = i + 1;
    }
}

/// The positions of the keys of a set (given by their key ids) in the order
/// they are tried against an assertion naming `kid`.
pub fn ordered_jwks(key_ids: &Vec<Option<String>>, kid: Option<&str>) -> (order: Vec<usize>)
    ensures
        order@.map_values(|i: usize| i as int) == spec_key_order(
            ids_view(key_ids@),
            crate::shell_path::opt_view(kid),
        ),
{
    let mut order: Vec<usize> = Vec::new();
    assert(order@.map_values(|i: usize| i as int) =~= Seq::<int>::empty());
    push_positions(key_ids, kid, true, &mut order);
    push_positions(key_ids, kid, false, &mut order);
    order
}

} // verus!

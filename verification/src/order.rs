//! Ordering by text: a stable sort of keyed items by their key, and a sort of
//! texts, both in the order `String` compares (by Unicode scalar value).

use vstd::prelude::*;
use crate::ls::{is_perm, lex_lt, lex_less, lemma_lex_asym, lemma_lex_total, lemma_lex_trans};
use crate::shell_path::strings_view;

verus! {

/// `a <= b` in text order.
pub open spec fn text_le(a: Seq<char>, b: Seq<char>) -> bool {
    !lex_lt(b, a)
}

pub proof fn lemma_text_le_trans(a: Seq<char>, b: Seq<char>, c: Seq<char>)
    ensures
        text_le(a, b) && text_le(b, c) ==> text_le(a, c),
{
    lemma_lex_total(a, b);
    lemma_lex_total(b, c);
    lemma_lex_trans(c, a, b);
    lemma_lex_trans(b, c, a);
}

/// The keys of `s` never decrease.
pub open spec fn keys_ascending<T>(s: Seq<(String, T)>) -> bool {
    forall|i: int, j: int| 0 <= i < j < s.len() ==> text_le((#[trigger] s[i]).0@, (#[trigger] s[j]).0@)
}

/// Keyed items with each key taken by its text.
pub open spec fn keyed<T>(s: Seq<(String, T)>) -> Seq<(Seq<char>, T)> {
    s.map_values(|e: (String, T)| (e.0@, e.1))
}

/// The keys of keyed items, in order.
pub open spec fn keys<T>(s: Seq<(Seq<char>, T)>) -> Seq<Seq<char>> {
    s.map_values(|e: (Seq<char>, T)| e.0)
}

/// `out` is `input` reordered by the permutation `p`, ascending by key, and
/// items with equal keys keep their relative order.
pub open spec fn sorted_stably<T>(out: Seq<(Seq<char>, T)>, input: Seq<(Seq<char>, T)>, p: Seq<int>) -> bool {
    &&& out.len() == input.len()
    &&& is_perm(p, input.len() as int)
    &&& forall|k: int| 0 <= k < out.len() ==> #[trigger] out[k] == input[p[k]]
    &&& forall|i: int, j: int| 0 <= i < j < out.len() ==> text_le((#[trigger] out[i]).0, (#[trigger] out[j]).0)
    &&& forall|k: int, m: int|
        0 <= k < m < out.len() && (#[trigger] out[k]).0 == (#[trigger] out[m]).0 ==> p[k] < p[m]
}

/// `out` is `input` reordered by the permutation `p`, in ascending order.
pub open spec fn sorted_texts(out: Seq<Seq<char>>, input: Seq<Seq<char>>, p: Seq<int>) -> bool {
    &&& out.len() == input.len()
    &&& is_perm(p, input.len() as int)
    &&& forall|k: int| 0 <= k < out.len() ==> #[trigger] out[k] == input[p[k]]
    &&& forall|i: int, j: int| 0 <= i < j < out.len() ==> text_le(#[trigger] out[i], #[trigger] out[j])
}

/// Sorting keyed items stably sorts their keys.
pub proof fn lemma_sorted_keys<T>(out: Seq<(Seq<char>, T)>, input: Seq<(Seq<char>, T)>, p: Seq<int>)
    requires
        sorted_stably(out, input, p),
    ensures
        sorted_texts(keys(out), keys(input), p),
{
    let ko = keys(out);
    let ki = keys(input);
    assert forall|k: int| 0 <= k < ko.len() implies #[trigger] ko[k] == ki[p[k]] by {
        assert(out[k] == input[p[k]]);
    }
    assert forall|i: int, j: int| 0 <= i < j < ko.len() implies text_le(#[trigger] ko[i], #[trigger] ko[j]) by {
        assert(text_le(out[i].0, out[j].0));
    }
}

/// Sorts keyed items by key, keeping items with equal keys in their order
/// (`sort_by` on the key).
pub fn sort_by_key<T>(items: &mut Vec<(String, T)>)
    ensures
        exists|p: Seq<int>| sorted_stably(keyed(final(items)@), keyed(old(items)@), p),
{
    let ghost input = items@;
    let n = items.len();
    let ghost mut p: Seq<int> = seq![];
    let mut i: usize = 0;
    while i < n
        invariant
            n == input.len(),
            items@.len() == n,
            i <= n,
            items@.skip(i as int) == input.skip(i as int),
            p.len() == i,
            forall|k: int| 0 <= k < i ==> 0 <= #[trigger] p[k] < i,
            forall|k: int, m: int| 0 <= k < m < i ==> #[trigger] p[k] != #[trigger] p[m],
            forall|k: int| 0 <= k < i ==> #[trigger] items@[k] == input[p[k]],
            keys_ascending(items@.take(i as int)),
            forall|k: int, m: int|
                0 <= k < m < i && (#[trigger] items@[k]).0@ == (#[trigger] items@[m]).0@ ==> p[k]
                    < p[m],
        decreases n - i,
    {
        let ghost before_items = items@;
        let x = items.remove(i);
        assert(x == input[i as int]) by {
            assert(before_items.skip(i as int)[0] == before_items[i as int]);
            assert(input.skip(i as int)[0] == input[i as int]);
        }
        let mut j: usize = i;
        while j > 0 && lex_less(x.0.as_str(), items[j - 1].0.as_str())
            invariant
                j <= i,
                i < n,
                items@.len() == n - 1,
                items@ == before_items.remove(i as int),
                before_items.len() == n,
                forall|k: int| j <= k < i ==> lex_lt(x.0@, (#[trigger] items@[k]).0@),
            decreases j,
        {
            j = j - 1;
        }
        proof {
            assert forall|k: int| 0 <= k < i implies #[trigger] items@[k] == before_items[k] by {}
        }
        let ghost xk = x.0@;
        items.insert(j, x);
        proof {
            let old_p = p;
            p = p.insert(j as int, i as int);
            let r = items@;
            assert(r.len() == n);
            assert(r[j as int].0@ == xk);
            assert forall|k: int| 0 <= k < i + 1 implies #[trigger] r[k] == input[p[k]] by {
                if k < j {
                    assert(r[k] == before_items[k]);
                } else if k > j {
                    assert(r[k] == before_items[k - 1]);
                }
            }
            assert forall|k: int| 0 <= k < i + 1 implies 0 <= #[trigger] p[k] < i + 1 by {
                if k < j {
                    assert(p[k] == old_p[k]);
                } else if k > j {
                    assert(p[k] == old_p[k - 1]);
                }
            }
            assert forall|k: int, m: int| 0 <= k < m < i + 1 implies #[trigger] p[k] != #[trigger] p[m] by {
                if k < j && m < j {
                    assert(p[k] == old_p[k] && p[m] == old_p[m]);
                } else if k < j && m == j {
                    assert(p[k] == old_p[k]);
                } else if k < j && m > j {
                    assert(p[k] == old_p[k] && p[m] == old_p[m - 1]);
                } else if k == j {
                    assert(p[m] == old_p[m - 1]);
                } else {
                    assert(p[k] == old_p[k - 1] && p[m] == old_p[m - 1]);
                }
            }
            let s = r.take(i + 1);
            let pre = before_items.take(i as int);
            assert forall|a: int, b: int| 0 <= a < b < s.len() implies text_le(
                (#[trigger] s[a]).0@,
                (#[trigger] s[b]).0@,
            ) by {
                let sa = s[a];
                let sb = s[b];
                if a < j && b < j {
                    assert(sa == pre[a] && sb == pre[b]);
                } else if a < j && b == j {
                    assert(sa == pre[a]);
                    let last = pre[j - 1];
                    assert(!lex_lt(xk, last.0@));
                    if a < j - 1 {
                        assert(text_le(sa.0@, last.0@));
                    }
                    lemma_text_le_trans(sa.0@, last.0@, xk);
                } else if a < j && b > j {
                    assert(sa == pre[a] && sb == pre[b - 1]);
                } else if a == j {
                    assert(sb == before_items.remove(i as int)[b - 1]);
                    assert(lex_lt(xk, sb.0@));
                    lemma_lex_asym(xk, sb.0@);
                } else {
                    assert(sa == pre[a - 1] && sb == pre[b - 1]);
                }
            }
            assert forall|k: int, m: int|
                0 <= k < m < i + 1 && (#[trigger] r[k]).0@ == (#[trigger] r[m]).0@ implies p[k]
                < p[m] by {
                if k < j && m < j {
                    assert(p[k] == old_p[k] && p[m] == old_p[m]);
                    assert(r[k] == before_items[k] && r[m] == before_items[m]);
                } else if k < j && m == j {
                    assert(p[k] == old_p[k]);
                } else if k < j && m > j {
                    assert(p[k] == old_p[k] && p[m] == old_p[m - 1]);
                    assert(r[k] == before_items[k] && r[m] == before_items[m - 1]);
                } else if k == j {
                    assert(r[m] == before_items.remove(i as int)[m - 1]);
                    assert(lex_lt(xk, r[m].0@));
                    lemma_lex_asym(xk, r[m].0@);
                } else {
                    assert(p[k] == old_p[k - 1] && p[m] == old_p[m - 1]);
                    assert(r[k] == before_items[k - 1] && r[m] == before_items[m - 1]);
                }
            }
            assert(r.skip(i + 1) =~= input.skip(i + 1)) by {
                assert forall|k: int| 0 <= k < r.skip(i + 1).len() implies #[trigger] r.skip(i + 1)[k]
                    == input.skip(i + 1)[k] by {
                    assert(r[i + 1 + k] == before_items[i + 1 + k]);
                    assert(before_items.skip(i as int)[k + 1] == input.skip(i as int)[k + 1]);
                }
            }
        }
        i = i + 1;
    }
    proof {
        assert(items@.take(n as int) =~= items@);
        let out = keyed(items@);
        let inp = keyed(input);
        assert forall|k: int| 0 <= k < out.len() implies #[trigger] out[k] == inp[p[k]] by {
            assert(items@[k] == input[p[k]]);
        }
        assert forall|a: int, b: int| 0 <= a < b < out.len() implies text_le(
            (#[trigger] out[a]).0,
            (#[trigger] out[b]).0,
        ) by {
            assert(text_le(items@[a].0@, items@[b].0@));
        }
        assert forall|k: int, m: int|
            0 <= k < m < out.len() && (#[trigger] out[k]).0 == (#[trigger] out[m]).0 implies p[k]
            < p[m] by {
            assert(items@[k].0@ == items@[m].0@);
        }
        assert(sorted_stably(out, inp, p));
    }
}

/// Sorts texts into ascending order (`sort` on a `Vec<String>`).
pub fn sort_texts(texts: Vec<String>) -> (r: Vec<String>)
    ensures
        exists|p: Seq<int>| sorted_texts(strings_view(r@), strings_view(texts@), p),
{
    let mut texts = texts;
    let ghost input = strings_view(texts@);
    let n = texts.len();
    let mut pairs: Vec<(String, ())> = Vec::new();
    let mut i: usize = 0;
    while i < n
        invariant
            n == input.len(),
            i <= n,
            texts@.len() == n - i,
            pairs@.len() == i,
            strings_view(texts@) == input.skip(i as int),
            keys(keyed(pairs@)) == input.take(i as int),
        decreases n - i,
    {
        let ghost before = texts@;
        let t = texts.remove(0);
        assert(t@ == input[i as int]) by {
            assert(strings_view(before)[0] == input.skip(i as int)[0]);
        }
        pairs.push((t, ()));
        assert(strings_view(texts@) =~= input.skip(i + 1)) by {
            assert forall|k: int| 0 <= k < texts@.len() implies #[trigger] strings_view(texts@)[k]
                == input.skip(i + 1)[k] by {
                assert(texts@[k] == before[k + 1]);
                assert(strings_view(before)[k + 1] == input.skip(i as int)[k + 1]);
            }
        }
        assert(keys(keyed(pairs@)) =~= input.take(i + 1)) by {
            assert forall|k: int| 0 <= k < i + 1 implies #[trigger] keys(keyed(pairs@))[k] == input.take(
                i + 1,
            )[k] by {
                if k < i {
                    assert(keys(keyed(pairs@.drop_last()))[k] == input.take(i as int)[k]);
                    assert(pairs@.drop_last()[k] == pairs@[k]);
                }
            }
        }
        i = i + 1;
    }
    assert(input.take(n as int) =~= input);
    let ghost unsorted = keyed(pairs@);
    sort_by_key(&mut pairs);
    let ghost p = choose|p: Seq<int>| sorted_stably(keyed(pairs@), unsorted, p);
    proof {
        lemma_sorted_keys(keyed(pairs@), unsorted, p);
    }
    let ghost sorted = keys(keyed(pairs@));
    let mut out: Vec<String> = Vec::new();
    let mut j: usize = 0;
    while j < n
        invariant
            j <= n,
            sorted.len() == n,
            pairs@.len() == n - j,
            out@.len() == j,
            keys(keyed(pairs@)) == sorted.skip(j as int),
            strings_view(out@) == sorted.take(j as int),
        decreases n - j,
    {
        let ghost before = pairs@;
        let (t, _) = pairs.remove(0);
        assert(t@ == sorted[j as int]) by {
            assert(keys(keyed(before))[0] == sorted.skip(j as int)[0]);
        }
        out.push(t);
        assert(keys(keyed(pairs@)) =~= sorted.skip(j + 1)) by {
            assert forall|k: int| 0 <= k < pairs@.len() implies #[trigger] keys(keyed(pairs@))[k]
                == sorted.skip(j + 1)[k] by {
                assert(pairs@[k] == before[k + 1]);
                assert(keys(keyed(before))[k + 1] == sorted.skip(j as int)[k + 1]);
            }
        }
        assert(strings_view(out@) =~= sorted.take(j + 1));
        j = j + 1;
    }
    assert(sorted.take(n as int) =~= sorted);
    out
}

} // verus!

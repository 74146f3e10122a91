//! Orderings: tests by full name (stable), texts ascending, and sorted sets of
//! texts.
use vstd::prelude::*;
use crate::text::{
    chars_of, less_chars, text_le, text_less, lemma_text_less_asymmetric, lemma_text_less_irreflexive,
    lemma_text_less_total, lemma_text_less_transitive,
};
use crate::types::{texts, TestItem};

verus! {

/// `a < b` and `b <= c` give `a < c`.
pub proof fn lemma_less_le_less(a: Seq<char>, b: Seq<char>, c: Seq<char>)
    requires
        text_less(a, b),
        text_le(b, c),
    ensures
        text_less(a, c),
{
    lemma_text_less_total(b, c);
    if b != c {
        lemma_text_less_transitive(a, b, c);
    }
}

/// The texts are in non-decreasing order.
pub open spec fn sorted_texts(s: Seq<Seq<char>>) -> bool {
    forall|i: int, j: int| 0 <= i < j < s.len() ==> text_le(#[trigger] s[i], #[trigger] s[j])
}

/// The texts are in strictly increasing order (so each occurs once).
pub open spec fn strictly_sorted_texts(s: Seq<Seq<char>>) -> bool {
    forall|i: int, j: int| 0 <= i < j < s.len() ==> text_less(#[trigger] s[i], #[trigger] s[j])
}

/// The full names of a sequence of tests.
pub open spec fn full_names(s: Seq<TestItem>) -> Seq<Seq<char>> {
    s.map_values(|t: TestItem| t.full_name@)
}

/// `out` is `items` reordered by `perm` (`out[k]` is `items[perm[k]]`), sorted
/// by full name, with tests of equal full name kept in their input order.
pub open spec fn is_stable_order(items: Seq<TestItem>, out: Seq<TestItem>, perm: Seq<int>) -> bool {
    &&& perm.len() == items.len()
    &&& out.len() == items.len()
    &&& forall|k: int| 0 <= k < perm.len() ==> 0 <= #[trigger] perm[k] < items.len()
    &&& forall|k: int, l: int| 0 <= k < l < perm.len() ==> #[trigger] perm[k] != #[trigger] perm[l]
    &&& forall|k: int| 0 <= k < out.len() ==> #[trigger] out[k] == items[perm[k]]
    &&& sorted_texts(full_names(out))
    &&& forall|k: int, l: int|
        0 <= k < l < out.len() && out[k].full_name@ == out[l].full_name@ ==> #[trigger] perm[k]
            < #[trigger] perm[l]
}

/// The tests ordered by full name; tests with equal full names keep their order.
pub fn order_by_full_name(items: Vec<TestItem>) -> (r: Vec<TestItem>)
    ensures
        exists|perm: Seq<int>| is_stable_order(items@, r@, perm),
{
    let ghost orig = items@;
    let mut rest = items;
    let mut out: Vec<TestItem> = Vec::new();
    let ghost mut perm: Seq<int> = Seq::empty();
    let mut i: usize = 0;
    let total: usize = rest.len();
    while rest.len() > 0
        invariant
            orig.len() == total,
            i + rest.len() == orig.len(),
            rest@ == orig.skip(i as int),
            perm.len() == i,
            out.len() == i,
            forall|k: int| 0 <= k < perm.len() ==> 0 <= #[trigger] perm[k] < i,
            forall|k: int, l: int| 0 <= k < l < perm.len() ==> #[trigger] perm[k] != #[trigger] perm[l],
            forall|k: int| 0 <= k < out.len() ==> #[trigger] out@[k] == orig[perm[k]],
            sorted_texts(full_names(out@)),
            forall|k: int, l: int|
                0 <= k < l < out.len() && out@[k].full_name@ == out@[l].full_name@ ==> #[trigger] perm[k]
                    < #[trigger] perm[l],
        decreases rest.len(),
    {
        let ghost names = full_names(out@);
        let x = rest.remove(0);
        proof {
            assert(x == orig[i as int]);
            assert(rest@ =~= orig.skip(i + 1));
        }
        let key = chars_of(x.full_name.as_str());
        let mut p: usize = 0;
        while p < out.len()
            invariant
                p <= out.len(),
                names == full_names(out@),
                key@ == x.full_name@,
                forall|q: int| 0 <= q < p ==> text_le(#[trigger] names[q], key@),
            ensures
                p <= out.len(),
                forall|q: int| 0 <= q < p ==> text_le(#[trigger] names[q], key@),
                p < out.len() ==> text_less(key@, names[p as int]),
            decreases out.len() - p,
        {
            let other = chars_of(out[p].full_name.as_str());
            if less_chars(&key, &other) {
                break;
            }
            assert(text_le(names[p as int], key@));
            p += 1;
        }
        proof {
            assert forall|q: int| p <= q < out.len() implies text_less(key@, #[trigger] names[q]) by {
                assert(p < out.len());
                assert(text_less(key@, names[p as int]));
                if q > p {
                    assert(text_le(names[p as int], names[q]));
                    lemma_less_le_less(key@, names[p as int], names[q]);
                }
            }
        }
        let ghost old_out = out@;
        let ghost old_perm = perm;
        out.insert(p, x);
        proof {
            perm = old_perm.insert(p as int, i as int);
            old_perm.insert_ensures(p as int, i as int);
            old_out.insert_ensures(p as int, x);
            assert(out@ == old_out.insert(p as int, x));
            let nn = full_names(out@);
            assert(nn.len() == out@.len());
            assert forall|k: int| 0 <= k < out@.len() implies #[trigger] nn[k] == (if k < p {
                names[k]
            } else if k == p {
                key@
            } else {
                names[k - 1]
            }) by {
                if k < p {
                    assert(out@[k] == old_out[k]);
                } else if k > p {
                    assert(out@[k] == old_out[k - 1]);
                }
            }
            assert forall|k: int, l: int| 0 <= k < l < nn.len() implies text_le(
                #[trigger] nn[k],
                #[trigger] nn[l],
            ) by {
                let a = nn[k];
                let b = nn[l];
                if k < p && l < p {
                } else if k < p && l == p {
                } else if k < p && l > p {
                    assert(text_le(names[k], names[l - 1]));
                } else if k == p {
                    assert(text_less(key@, names[l - 1]));
                    lemma_text_less_asymmetric(key@, names[l - 1]);
                } else {
                    assert(text_le(names[k - 1], names[l - 1]));
                }
            }
            assert forall|k: int| 0 <= k < out@.len() implies #[trigger] out@[k] == orig[perm[k]] by {
                if k < p {
                    assert(out@[k] == old_out[k]);
                    assert(perm[k] == old_perm[k]);
                } else if k > p {
                    assert(out@[k] == old_out[k - 1]);
                    assert(perm[k] == old_perm[k - 1]);
                }
            }
            assert forall|k: int| 0 <= k < perm.len() implies 0 <= #[trigger] perm[k] < i + 1 by {
                if k < p {
                    assert(perm[k] == old_perm[k]);
                } else if k > p {
                    assert(perm[k] == old_perm[k - 1]);
                }
            }
            assert forall|k: int, l: int| 0 <= k < l < perm.len() implies #[trigger] perm[k]
                != #[trigger] perm[l] by {
                if k != p && l != p {
                    let k0 = if k < p { k } else { k - 1 };
                    let l0 = if l < p { l } else { l - 1 };
                    assert(perm[k] == old_perm[k0]);
                    assert(perm[l] == old_perm[l0]);
                } else if k == p {
                    assert(perm[l] == old_perm[l - 1]);
                } else {
                    let k0 = if k < p { k } else { k - 1 };
                    assert(perm[k] == old_perm[k0]);
                }
            }
            assert forall|k: int, l: int|
                0 <= k < l < out@.len() && out@[k].full_name@ == out@[l].full_name@ implies #[trigger] perm[k]
                < #[trigger] perm[l] by {
                assert(nn[k] == out@[k].full_name@);
                assert(nn[l] == out@[l].full_name@);
                if k != p && l != p {
                    let k0 = if k < p { k } else { k - 1 };
                    let l0 = if l < p { l } else { l - 1 };
                    assert(perm[k] == old_perm[k0]);
                    assert(perm[l] == old_perm[l0]);
                    assert(old_out[k0].full_name@ == out@[k].full_name@);
                    assert(old_out[l0].full_name@ == out@[l].full_name@);
                } else if k == p {
                    assert(text_less(key@, names[l - 1]));
                    lemma_text_less_irreflexive(key@);
                } else {
                    let k0 = if k < p { k } else { k - 1 };
                    assert(perm[k] == old_perm[k0]);
                }
            }
        }
        i += 1;
    }
    proof {
        assert(is_stable_order(orig, out@, perm));
    }
    out
}

/// Two sequences in text order that hold the same texts, each as often, are
/// the same sequence.
pub proof fn lemma_sorted_unique(a: Seq<Seq<char>>, b: Seq<Seq<char>>)
    requires
        sorted_texts(a),
        sorted_texts(b),
        a.to_multiset() =~= b.to_multiset(),
    ensures
        a == b,
    decreases a.len(),
{
    broadcast use vstd::seq_lib::group_to_multiset_ensures;

    assert(a.len() == a.to_multiset().len());
    assert(b.len() == b.to_multiset().len());
    if a.len() > 0 {
        let n = a.len() - 1;
        let x = a.last();
        let y = b.last();
        assert(a[n] == x);
        assert(b[n] == y);
        assert(a.contains(x));
        assert(b.to_multiset().count(x) > 0);
        let i = choose|i: int| 0 <= i < b.len() && b[i] == x;
        if i < n {
            assert(text_le(b[i], b[n]));
        } else {
            lemma_text_less_irreflexive(x);
        }
        assert(!text_less(y, x));
        assert(b.contains(y));
        assert(a.to_multiset().count(y) > 0);
        let j = choose|j: int| 0 <= j < a.len() && a[j] == y;
        if j < n {
            assert(text_le(a[j], a[n]));
        } else {
            lemma_text_less_irreflexive(y);
        }
        assert(!text_less(x, y));
        lemma_text_less_total(x, y);
        let a2 = a.drop_last();
        let b2 = b.drop_last();
        assert(a =~= a2.push(x));
        assert(b =~= b2.push(y));
        assert(a2.to_multiset().insert(x) =~= b2.to_multiset().insert(x));
        assert forall|z: Seq<char>| #[trigger] a2.to_multiset().count(z) == b2.to_multiset().count(z) by {
            assert(a2.to_multiset().insert(x).count(z) == b2.to_multiset().insert(x).count(z));
        }
        assert(a2.to_multiset() =~= b2.to_multiset());
        lemma_sorted_unique(a2, b2);
    }
}

/// A multiset gains an element by insertion at any position.
proof fn lemma_insert_multiset<A>(s: Seq<A>, p: int, x: A)
    requires
        0 <= p <= s.len(),
    ensures
        s.insert(p, x).to_multiset() =~= s.to_multiset().insert(x),
{
    broadcast use vstd::seq_lib::group_to_multiset_ensures;

    let t = s.insert(p, x);
    s.insert_ensures(p, x);
    assert(t.remove(p) =~= s);
    assert(t.remove(p).to_multiset() =~= t.to_multiset().remove(t[p]));
    assert(t.contains(x)) by {
        assert(t[p] == x);
    }
    assert(t.to_multiset().count(x) > 0);
    assert forall|y: A| #[trigger] t.to_multiset().count(y) == s.to_multiset().insert(x).count(y) by {
        if y == x {
        } else {
        }
    }
}

/// The strings in ascending order of their texts.
pub fn sort_strings(v: Vec<String>) -> (r: Vec<String>)
    ensures
        sorted_texts(texts(r@)),
        texts(r@).to_multiset() =~= texts(v@).to_multiset(),
{
    let ghost orig = v@;
    let mut rest = v;
    let mut out: Vec<String> = Vec::new();
    let mut i: usize = 0;
    let total: usize = rest.len();
    proof {
        assert(texts(out@) =~= texts(orig.take(0)));
    }
    while rest.len() > 0
        invariant
            orig.len() == total,
            i + rest.len() == orig.len(),
            rest@ == orig.skip(i as int),
            sorted_texts(texts(out@)),
            texts(out@).to_multiset() =~= texts(orig.take(i as int)).to_multiset(),
        decreases rest.len(),
    {
        let ghost names = texts(out@);
        let x = rest.remove(0);
        proof {
            assert(x == orig[i as int]);
            assert(rest@ =~= orig.skip(i + 1));
        }
        let key = chars_of(x.as_str());
        let mut p: usize = 0;
        while p < out.len()
            invariant
                p <= out.len(),
                names == texts(out@),
                key@ == x@,
                forall|q: int| 0 <= q < p ==> text_le(#[trigger] names[q], key@),
            ensures
                p <= out.len(),
                forall|q: int| 0 <= q < p ==> text_le(#[trigger] names[q], key@),
                p < out.len() ==> text_less(key@, names[p as int]),
            decreases out.len() - p,
        {
            let other = chars_of(out[p].as_str());
            if less_chars(&key, &other) {
                break;
            }
            p += 1;
        }
        proof {
            assert forall|q: int| p <= q < out.len() implies text_less(key@, #[trigger] names[q]) by {
                assert(text_less(key@, names[p as int]));
                if q > p {
                    lemma_less_le_less(key@, names[p as int], names[q]);
                }
            }
        }
        let ghost old_out = out@;
        out.insert(p, x);
        proof {
            old_out.insert_ensures(p as int, x);
            let nn = texts(out@);
            assert(nn =~= names.insert(p as int, key@)) by {
                names.insert_ensures(p as int, key@);
                assert forall|k: int| 0 <= k < nn.len() implies nn[k] == names.insert(p as int, key@)[k] by {
                    if k < p {
                        assert(out@[k] == old_out[k]);
                    } else if k > p {
                        assert(out@[k] == old_out[k - 1]);
                    }
                }
            }
            names.insert_ensures(p as int, key@);
            assert forall|k: int, l: int| 0 <= k < l < nn.len() implies text_le(
                #[trigger] nn[k],
                #[trigger] nn[l],
            ) by {
                if k < p && l < p {
                } else if k < p && l == p {
                } else if k < p && l > p {
                    assert(text_le(names[k], names[l - 1]));
                } else if k == p {
                    assert(text_less(key@, names[l - 1]));
                    lemma_text_less_asymmetric(key@, names[l - 1]);
                } else {
                    assert(text_le(names[k - 1], names[l - 1]));
                }
            }
            lemma_insert_multiset(names, p as int, key@);
            assert(texts(orig.take(i + 1)) =~= texts(orig.take(i as int)).push(x@));
            broadcast use vstd::seq_lib::group_to_multiset_ensures;
        }
        i += 1;
    }
    proof {
        assert(orig.take(i as int) =~= orig);
    }
    out
}

/// The set of texts of a sequence of strings.
pub open spec fn text_set(v: Seq<String>) -> Set<Seq<char>> {
    texts(v).to_set()
}

/// Adds `s` to a strictly ascending vector of strings, unless its text is there.
pub fn insert_sorted_unique(v: &mut Vec<String>, s: String)
    requires
        strictly_sorted_texts(texts(old(v)@)),
    ensures
        strictly_sorted_texts(texts(final(v)@)),
        text_set(final(v)@) =~= text_set(old(v)@).insert(s@),
{
    let ghost names = texts(v@);
    let key = chars_of(s.as_str());
    let mut p: usize = 0;
    while p < v.len()
        invariant
            p <= v.len(),
            names == texts(v@),
            key@ == s@,
            forall|q: int| 0 <= q < p ==> text_less(#[trigger] names[q], key@),
        ensures
            p <= v.len(),
            forall|q: int| 0 <= q < p ==> text_less(#[trigger] names[q], key@),
            p < v.len() ==> !text_less(names[p as int], key@),
        decreases v.len() - p,
    {
        let other = chars_of(v[p].as_str());
        if !less_chars(&other, &key) {
            break;
        }
        p += 1;
    }
    if p < v.len() {
        let other = chars_of(v[p].as_str());
        if crate::text::same_chars(&other, &key) {
            proof {
                assert(names[p as int] == s@);
                assert(texts(v@).to_set() =~= texts(v@).to_set().insert(s@));
            }
            return;
        }
        proof {
            lemma_text_less_total(names[p as int], key@);
        }
    }
    proof {
        assert forall|q: int| p <= q < v.len() implies text_less(key@, #[trigger] names[q]) by {
            assert(text_less(key@, names[p as int])) by {
                lemma_text_less_total(names[p as int], key@);
            }
            if q > p {
                lemma_text_less_transitive(key@, names[p as int], names[q]);
            }
        }
    }
    let ghost old_v = v@;
    v.insert(p, s);
    proof {
        old_v.insert_ensures(p as int, s);
        names.insert_ensures(p as int, key@);
        let nn = texts(v@);
        assert(nn =~= names.insert(p as int, key@)) by {
            assert forall|k: int| 0 <= k < nn.len() implies nn[k] == names.insert(p as int, key@)[k] by {
                if k < p {
                    assert(v@[k] == old_v[k]);
                } else if k > p {
                    assert(v@[k] == old_v[k - 1]);
                }
            }
        }
        assert forall|k: int, l: int| 0 <= k < l < nn.len() implies text_less(
            #[trigger] nn[k],
            #[trigger] nn[l],
        ) by {
            if k < p && l < p {
            } else if k < p && l == p {
            } else if k < p && l > p {
                assert(text_less(names[k], names[l - 1]));
            } else if k == p {
            } else {
                assert(text_less(names[k - 1], names[l - 1]));
            }
        }
        assert forall|t: Seq<char>| nn.to_set().contains(t) <==> names.to_set().insert(key@).contains(t) by {
            if nn.to_set().contains(t) {
                let k = choose|k: int| 0 <= k < nn.len() && nn[k] == t;
                if k < p {
                    assert(names[k] == t);
                } else if k > p {
                    assert(names[k - 1] == t);
                }
            }
            if names.to_set().insert(key@).contains(t) {
                if t == key@ {
                    assert(nn[p as int] == t);
                } else {
                    let k = choose|k: int| 0 <= k < names.len() && names[k] == t;
                    if k < p {
                        assert(nn[k] == t);
                    } else {
                        assert(nn[k + 1] == t);
                    }
                }
            }
        }
    }
}

} // verus!

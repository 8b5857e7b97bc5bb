//! Sorting of item-identifier lists. The order is that of the text itself,
//! not of the numbers it may spell: `"10"` sorts before `"2"`.

use crate::order::{lemma_bytes_le_total, lemma_text_order_total, str_le, text_le, text_order};
use vstd::prelude::*;
use vstd::relations::*;
use vstd::seq_lib::*;

verus! {

/// The texts that a sequence of strings holds, in order.
pub open spec fn texts(v: Seq<String>) -> Seq<Seq<char>> {
    Seq::new(v.len(), |i: int| v[i]@)
}

/// `items` in ascending text order.
pub open spec fn sorted_texts(items: Seq<Seq<char>>) -> Seq<Seq<char>> {
    items.sort_by(text_order())
}

/// `s` is in ascending text order.
pub open spec fn is_sorted(s: Seq<Seq<char>>) -> bool {
    sorted_by(s, text_order())
}

/// Putting `x` where everything before it is no larger and what follows is
/// no smaller keeps a sorted sequence sorted.
proof fn lemma_insert_keeps_sorted(s: Seq<Seq<char>>, p: int, x: Seq<char>)
    requires
        is_sorted(s),
        0 <= p <= s.len(),
        forall|j: int| 0 <= j < p ==> text_le(#[trigger] s[j], x),
        p < s.len() ==> text_le(x, s[p]),
    ensures
        is_sorted(s.insert(p, x)),
{
    let r = text_order();
    let t = s.insert(p, x);
    lemma_text_order_total();
    assert forall|i: int, j: int| 0 <= i < j < t.len() implies #[trigger] r(t[i], t[j]) by {
        if j < p {
            assert(r(s[i], s[j]));
        } else if j == p {
            assert(text_le(s[i], x));
        } else if i == p {
            if j - 1 > p {
                assert(r(s[p], s[j - 1]));
                assert(r(x, s[p]) && r(s[p], s[j - 1]));
            }
        } else if i < p {
            assert(r(s[i], s[j - 1]));
        } else {
            assert(r(s[i - 1], s[j - 1]));
        }
    }
}

/// Sorted output is determined by what is sorted, not by the order it came in.
pub proof fn lemma_sorted_texts_of_permutation(a: Seq<Seq<char>>, b: Seq<Seq<char>>)
    requires
        a.to_multiset() == b.to_multiset(),
    ensures
        sorted_texts(a) == sorted_texts(b),
{
    lemma_text_order_total();
    a.lemma_sort_by_ensures(text_order());
    b.lemma_sort_by_ensures(text_order());
    lemma_sorted_unique(sorted_texts(a), sorted_texts(b), text_order());
}

/// What sorting yields: the same items, each as often as before, ascending.
pub proof fn lemma_sorted_texts_properties(a: Seq<Seq<char>>)
    ensures
        is_sorted(sorted_texts(a)),
        sorted_texts(a).to_multiset() == a.to_multiset(),
        sorted_texts(a).len() == a.len(),
{
    lemma_text_order_total();
    a.lemma_sort_by_ensures(text_order());
    to_multiset_len(a);
    to_multiset_len(sorted_texts(a));
}

/// A sequence that is already ascending is its own sorted form.
pub proof fn lemma_sorted_texts_of_sorted(a: Seq<Seq<char>>)
    requires
        is_sorted(a),
    ensures
        sorted_texts(a) == a,
{
    lemma_text_order_total();
    a.lemma_sort_by_ensures(text_order());
    lemma_sorted_unique(sorted_texts(a), a, text_order());
}

/// Sorting twice changes nothing more.
pub proof fn lemma_sorted_texts_idempotent(a: Seq<Seq<char>>)
    ensures
        sorted_texts(sorted_texts(a)) == sorted_texts(a),
{
    lemma_sorted_texts_properties(a);
    lemma_sorted_texts_of_sorted(sorted_texts(a));
}

/// A copy of `ids` in ascending text order.
pub fn sort_ids(ids: &Vec<String>) -> (out: Vec<String>)
    ensures
        texts(out@) == sorted_texts(texts(ids@)),
        is_sorted(texts(out@)),
        texts(out@).to_multiset() == texts(ids@).to_multiset(),
        out@.len() == ids@.len(),
{
    let mut out: Vec<String> = Vec::new();
    let mut i: usize = 0;
    assert(texts(ids@).take(0) =~= Seq::<Seq<char>>::empty());
    assert(texts(out@) =~= Seq::<Seq<char>>::empty());
    while i < ids.len()
        invariant
            i <= ids@.len(),
            out@.len() == i,
            is_sorted(texts(out@)),
            texts(out@).to_multiset() == texts(ids@).take(i as int).to_multiset(),
        decreases ids@.len() - i,
    {
        let x = ids[i].clone();
        let mut p: usize = 0;
        while p < out.len() && str_le(out[p].as_str(), x.as_str())
            invariant
                p <= out@.len(),
                forall|j: int| 0 <= j < p ==> text_le(#[trigger] texts(out@)[j], x@),
            decreases out@.len() - p,
        {
            p += 1;
        }
        proof {
            let s = texts(out@);
            if (p as int) < s.len() {
                assert(!text_le(s[p as int], x@));
                lemma_bytes_le_total(
                    vstd::utf8::encode_utf8(s[p as int]),
                    vstd::utf8::encode_utf8(x@),
                );
            }
            lemma_insert_keeps_sorted(s, p as int, x@);
            to_multiset_insert(s, p as int, x@);
            to_multiset_build(texts(ids@).take(i as int), x@);
            assert(texts(ids@).take(i as int).push(x@) =~= texts(ids@).take(i + 1));
        }
        let ghost before = out@;
        out.insert(p, x);
        assert(texts(out@) =~= texts(before).insert(p as int, x@));
        i += 1;
    }
    proof {
        assert(texts(ids@).take(i as int) =~= texts(ids@));
        lemma_text_order_total();
        texts(ids@).lemma_sort_by_ensures(text_order());
        lemma_sorted_unique(texts(out@), sorted_texts(texts(ids@)), text_order());
    }
    out
}

} // verus!

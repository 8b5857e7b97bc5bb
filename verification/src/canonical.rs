//! The canonical message of a claim request: the text that the authorizing
//! signature is made over and checked against.
//!
//! It is a compact JSON object whose fields stand in alphabetical order:
//! `amount`, `proof`, `signature`, `tokenIds`, `userAddress`. The groups under
//! `tokenIds` stand in ascending text order, and so do the identifiers of each
//! group. The entries of `proof` keep the order they came in.

use crate::bindings::json_quote;
use crate::json::{json_joined, json_list, json_quoted};
use crate::request::{ClaimRequest, ClaimRequestView};
use crate::sorting::{lemma_sorted_texts_of_permutation, sort_ids, sorted_texts, texts};
use crate::token_map::{
    groups_as_map, groups_ascending, lemma_group_lookup, lemma_same_domain_same_groups,
    lemma_same_groups_same_order, GroupView, TokenIdMap,
};
use vstd::prelude::*;
use vstd::string::StringExecFns;
use vstd::utf8::encode_utf8;

verus! {

/// One group as a member of the `tokenIds` object: its name, a colon, and
/// its identifiers in ascending order.
pub open spec fn group_member(g: GroupView) -> Seq<char> {
    json_quoted(g.group) + ":"@ + json_list(sorted_texts(g.ids))
}

/// The members for `groups`, separated by commas.
pub open spec fn group_members(groups: Seq<GroupView>) -> Seq<char>
    decreases groups.len(),
{
    if groups.len() == 0 {
        Seq::empty()
    } else if groups.len() == 1 {
        group_member(groups[0])
    } else {
        group_members(groups.drop_last()) + ","@ + group_member(groups.last())
    }
}

/// `groups` as the `tokenIds` object.
pub open spec fn groups_object(groups: Seq<GroupView>) -> Seq<char> {
    "{"@ + group_members(groups) + "}"@
}

/// The canonical message of `r`, as text.
pub open spec fn canonical_text(r: ClaimRequestView) -> Seq<char> {
    "{\"amount\":"@ + json_quoted(r.amount) + ",\"proof\":"@ + json_list(r.proof)
        + ",\"signature\":"@ + json_quoted(r.signature) + ",\"tokenIds\":"@ + groups_object(
        r.token_ids,
    ) + ",\"userAddress\":"@ + json_quoted(r.user_address) + "}"@
}

/// The canonical message of `r`, as the bytes that are signed.
pub open spec fn canonical_bytes(r: ClaimRequestView) -> Seq<u8> {
    encode_utf8(canonical_text(r))
}

/// Appends `items` to `out` as a JSON array of string literals.
fn write_list(out: &mut String, items: &Vec<String>)
    ensures
        final(out)@ == old(out)@ + json_list(texts(items@)),
{
    let ghost start = out@;
    let ghost all = texts(items@);
    out.append("[");
    let mut i: usize = 0;
    assert(all.take(0) =~= Seq::<Seq<char>>::empty());
    while i < items.len()
        invariant
            i <= items@.len(),
            all == texts(items@),
            out@ == start + "["@ + json_joined(all.take(i as int)),
        decreases items@.len() - i,
    {
        let ghost before = out@;
        if i > 0 {
            out.append(",");
        }
        let quoted = json_quote(items[i].as_str());
        out.append(quoted.as_str());
        proof {
            let next = all.take(i + 1);
            assert(next.drop_last() =~= all.take(i as int));
            assert(next.last() == all[i as int]);
            assert(out@ =~= start + "["@ + json_joined(next));
        }
        i += 1;
    }
    out.append("]");
    assert(all.take(i as int) =~= all);
    assert(out@ =~= start + json_list(all));
}

/// Appends the groups of `map` to `out` as the `tokenIds` object.
fn write_groups(out: &mut String, map: &TokenIdMap)
    ensures
        final(out)@ == old(out)@ + groups_object(map@),
{
    let ghost start = out@;
    let ghost all = map@;
    out.append("{");
    let n: usize = map.len();
    let mut i: usize = 0;
    assert(all.take(0) =~= Seq::<GroupView>::empty());
    while i < n
        invariant
            i <= n,
            n == all.len(),
            all == map@,
            out@ == start + "{"@ + group_members(all.take(i as int)),
        decreases n - i,
    {
        let ghost before = out@;
        if i > 0 {
            out.append(",");
        }
        let entry = map.entry(i);
        let quoted = json_quote(entry.group.as_str());
        out.append(quoted.as_str());
        out.append(":");
        let sorted = sort_ids(&entry.ids);
        write_list(out, &sorted);
        proof {
            let next = all.take(i + 1);
            assert(next.drop_last() =~= all.take(i as int));
            assert(next.last() == all[i as int]);
            assert(out@ =~= start + "{"@ + group_members(next));
        }
        i += 1;
    }
    out.append("}");
    assert(all.take(i as int) =~= all);
    assert(out@ =~= start + groups_object(all));
}

/// The canonical message of `request`.
///
/// It depends on the amount, the proof, the signature, the groups with their
/// identifiers and the user address, and on nothing else: not on the order
/// in which groups were put into the request, nor on the order in which a
/// group's identifiers came.
pub fn canonicalize(request: &ClaimRequest) -> (text: String)
    ensures
        text@ == canonical_text(request@),
{
    let mut out = String::new();
    out.append("{\"amount\":");
    let amount = json_quote(request.amount.as_str());
    out.append(amount.as_str());
    out.append(",\"proof\":");
    write_list(&mut out, &request.proof);
    out.append(",\"signature\":");
    let signature = json_quote(request.signature.as_str());
    out.append(signature.as_str());
    out.append(",\"tokenIds\":");
    write_groups(&mut out, &request.token_ids);
    out.append(",\"userAddress\":");
    let user = json_quote(request.user_address.as_str());
    out.append(user.as_str());
    out.append("}");
    assert(out@ =~= canonical_text(request@));
    out
}

/// `a` and `b` hold the same groups, and each group the same identifiers as
/// often, in whatever order.
pub open spec fn same_groups(a: Seq<GroupView>, b: Seq<GroupView>) -> bool {
    &&& groups_as_map(a).dom() == groups_as_map(b).dom()
    &&& forall|k: Seq<char>| #[trigger]
        groups_as_map(a).dom().contains(k) ==> groups_as_map(a)[k].to_multiset() == groups_as_map(
            b,
        )[k].to_multiset()
}

/// `a` and `b` are the same claim, but for the order of a group's
/// identifiers.
pub open spec fn same_claim(a: ClaimRequestView, b: ClaimRequestView) -> bool {
    &&& a.amount == b.amount
    &&& a.proof == b.proof
    &&& a.signature == b.signature
    &&& a.user_address == b.user_address
    &&& same_groups(a.token_ids, b.token_ids)
}

/// Groups that are the same but for the order of identifiers are written
/// alike.
proof fn lemma_group_members_ignore_order(a: Seq<GroupView>, b: Seq<GroupView>)
    requires
        a.len() == b.len(),
        forall|i: int|
            #![trigger a[i]]
            #![trigger b[i]]
            0 <= i < a.len() ==> a[i].group == b[i].group && a[i].ids.to_multiset()
                == b[i].ids.to_multiset(),
    ensures
        group_members(a) == group_members(b),
    decreases a.len(),
{
    if a.len() > 0 {
        let n = a.len() - 1;
        assert(a[n].group == b[n].group);
        lemma_sorted_texts_of_permutation(a[n].ids, b[n].ids);
        assert(group_member(a[n]) == group_member(b[n]));
        if a.len() > 1 {
            let a0 = a.drop_last();
            let b0 = b.drop_last();
            assert forall|i: int| 0 <= i < a0.len() implies a0[i].group == b0[i].group
                && a0[i].ids.to_multiset() == b0[i].ids.to_multiset() by {
                assert(a0[i] == a[i] && b0[i] == b[i]);
            }
            lemma_group_members_ignore_order(a0, b0);
        }
    }
}

/// Canonicalization is deterministic in what a request claims: two requests
/// that differ only in the order of a group's identifiers, or in the order
/// in which their groups were put in, have the same canonical message.
pub proof fn lemma_canonical_ignores_order(a: ClaimRequestView, b: ClaimRequestView)
    requires
        groups_ascending(a.token_ids),
        groups_ascending(b.token_ids),
        same_claim(a, b),
    ensures
        canonical_text(a) == canonical_text(b),
        canonical_bytes(a) == canonical_bytes(b),
{
    let x = a.token_ids;
    let y = b.token_ids;
    lemma_same_domain_same_groups(x, y);
    lemma_same_groups_same_order(x, y);
    assert forall|i: int| 0 <= i < x.len() implies x[i].group == y[i].group
        && x[i].ids.to_multiset() == y[i].ids.to_multiset() by {
        lemma_group_lookup(x, i);
        lemma_group_lookup(y, i);
        assert(groups_as_map(x).dom().contains(x[i].group));
    }
    lemma_group_members_ignore_order(x, y);
}

} // verus!

//! The mapping from reward group to its item identifiers.
//!
//! Groups are kept in ascending text order with no group twice, so two maps
//! that hold the same groups hold them in the same order, however they were
//! filled.

use crate::order::{
    lemma_text_le_antisym, lemma_text_le_total, lemma_text_lt_trans, str_le, text_le, text_lt,
};
use crate::sorting::texts;
use vstd::prelude::*;

verus! {

/// One reward group as the contracts see it.
pub struct GroupView {
    pub group: Seq<char>,
    pub ids: Seq<Seq<char>>,
}

/// One reward group and the item identifiers claimed in it, as received.
#[derive(Debug)]
pub struct TokenGroup {
    pub group: String,
    pub ids: Vec<String>,
}

impl View for TokenGroup {
    type V = GroupView;

    open spec fn view(&self) -> GroupView {
        GroupView { group: self.group@, ids: texts(self.ids@) }
    }
}

/// The groups' views, in the order held.
pub open spec fn group_views(v: Seq<TokenGroup>) -> Seq<GroupView> {
    Seq::new(v.len(), |i: int| v[i]@)
}

/// Every group sorts strictly before those after it.
pub open spec fn groups_ascending(s: Seq<GroupView>) -> bool {
    forall|i: int, j: int| #![trigger s[i], s[j]] 0 <= i < j < s.len() ==> text_lt(s[i].group, s[j].group)
}

/// Some entry of `s` is for group `k`.
pub open spec fn has_group(s: Seq<GroupView>, k: Seq<char>) -> bool {
    exists|i: int| 0 <= i < s.len() && #[trigger] s[i].group == k
}

/// Where group `k` stands in `s`, if it does.
pub open spec fn index_of_group(s: Seq<GroupView>, k: Seq<char>) -> int {
    choose|i: int| 0 <= i < s.len() && #[trigger] s[i].group == k
}

/// The mapping that the entries of `s` spell out.
pub open spec fn groups_as_map(s: Seq<GroupView>) -> Map<Seq<char>, Seq<Seq<char>>> {
    Map::new(|k: Seq<char>| has_group(s, k), |k: Seq<char>| s[index_of_group(s, k)].ids)
}

/// In an ascending sequence a group is found exactly where it stands.
pub proof fn lemma_group_lookup(s: Seq<GroupView>, i: int)
    requires
        groups_ascending(s),
        0 <= i < s.len(),
    ensures
        has_group(s, s[i].group),
        index_of_group(s, s[i].group) == i,
        groups_as_map(s).dom().contains(s[i].group),
        groups_as_map(s)[s[i].group] == s[i].ids,
{
    let k = s[i].group;
    assert(s[i].group == k);
    let c = index_of_group(s, k);
    if c < i {
        assert(text_lt(s[c].group, s[i].group));
    } else if i < c {
        assert(text_lt(s[i].group, s[c].group));
    }
}

/// Dropping the last group of an ascending sequence leaves it ascending,
/// and leaves exactly the other groups.
proof fn lemma_drop_last_group(a: Seq<GroupView>)
    requires
        groups_ascending(a),
        a.len() > 0,
    ensures
        groups_ascending(a.drop_last()),
        forall|k: Seq<char>|
            #![trigger has_group(a.drop_last(), k)]
            #![trigger has_group(a, k)]
            has_group(a.drop_last(), k) <==> (has_group(a, k) && k != a.last().group),
{
    let a0 = a.drop_last();
    let n = a.len() - 1;
    assert forall|x: int, y: int| 0 <= x < y < a0.len() implies text_lt(
        a0[x].group,
        a0[y].group,
    ) by {
        assert(text_lt(a[x].group, a[y].group));
    }
    assert forall|k: Seq<char>| has_group(a0, k) <==> (has_group(a, k) && k != a.last().group) by {
        if has_group(a0, k) {
            let i = index_of_group(a0, k);
            assert(a[i].group == k);
            assert(text_lt(a[i].group, a[n].group));
        }
        if has_group(a, k) && k != a.last().group {
            let i = index_of_group(a, k);
            assert(a0[i].group == k);
        }
    }
}

/// Ascending sequences over the same groups name them in the same order.
pub proof fn lemma_same_groups_same_order(a: Seq<GroupView>, b: Seq<GroupView>)
    requires
        groups_ascending(a),
        groups_ascending(b),
        forall|k: Seq<char>|
            #![trigger has_group(a, k)]
            #![trigger has_group(b, k)]
            has_group(a, k) == has_group(b, k),
    ensures
        a.len() == b.len(),
        forall|i: int| #![trigger a[i]] #![trigger b[i]] 0 <= i < a.len() ==> a[i].group == b[i].group,
    decreases a.len(),
{
    if a.len() == 0 {
        if b.len() > 0 {
            assert(b[0].group == b[0].group);
            assert(has_group(b, b[0].group));
            assert(has_group(a, b[0].group));
        }
    } else if b.len() == 0 {
        assert(a[0].group == a[0].group);
        assert(has_group(a, a[0].group));
        assert(has_group(b, a[0].group));
    } else {
        let n = a.len() - 1;
        let m = b.len() - 1;
        // Each last group is the largest of all, so they are the same group.
        assert(a[n].group == a[n].group && b[m].group == b[m].group);
        assert(has_group(a, a[n].group) && has_group(b, b[m].group));
        assert(has_group(b, a[n].group) && has_group(a, b[m].group));
        let j = index_of_group(b, a[n].group);
        let i = index_of_group(a, b[m].group);
        if j < m {
            assert(text_lt(b[j].group, b[m].group));
        }
        if i < n {
            assert(text_lt(a[i].group, a[n].group));
        }
        if a[n].group != b[m].group {
            lemma_text_le_antisym(a[n].group, b[m].group);
        }
        lemma_drop_last_group(a);
        lemma_drop_last_group(b);
        let a0 = a.drop_last();
        let b0 = b.drop_last();
        assert forall|k: Seq<char>| has_group(a0, k) == has_group(b0, k) by {
            assert(has_group(a0, k) <==> (has_group(a, k) && k != a.last().group));
            assert(has_group(b0, k) <==> (has_group(b, k) && k != b.last().group));
            assert(has_group(a, k) == has_group(b, k));
        }
        lemma_same_groups_same_order(a0, b0);
        assert forall|x: int| 0 <= x < a.len() implies a[x].group == b[x].group by {
            if x < n {
                assert(a0[x].group == b0[x].group);
            }
        }
    }
}

/// Sequences whose mappings have the same domain are over the same groups.
pub proof fn lemma_same_domain_same_groups(a: Seq<GroupView>, b: Seq<GroupView>)
    requires
        groups_as_map(a).dom() == groups_as_map(b).dom(),
    ensures
        forall|k: Seq<char>|
            #![trigger has_group(a, k)]
            #![trigger has_group(b, k)]
            has_group(a, k) == has_group(b, k),
{
    assert forall|k: Seq<char>|
        #![trigger has_group(a, k)]
        #![trigger has_group(b, k)]
        has_group(a, k) == has_group(b, k) by {
        assert(groups_as_map(a).dom().contains(k) == has_group(a, k));
        assert(groups_as_map(b).dom().contains(k) == has_group(b, k));
    }
}

/// Ascending sequences that spell the same mapping are the same sequence.
pub proof fn lemma_groups_canonical(a: Seq<GroupView>, b: Seq<GroupView>)
    requires
        groups_ascending(a),
        groups_ascending(b),
        groups_as_map(a) == groups_as_map(b),
    ensures
        a == b,
{
    lemma_same_domain_same_groups(a, b);
    lemma_same_groups_same_order(a, b);
    assert forall|i: int| 0 <= i < a.len() implies a[i] == b[i] by {
        lemma_group_lookup(a, i);
        lemma_group_lookup(b, i);
        assert(a[i].group == b[i].group);
    }
    assert(a =~= b);
}

/// The groups of a claim, each with its item identifiers.
#[derive(Debug)]
pub struct TokenIdMap {
    entries: Vec<TokenGroup>,
}

impl View for TokenIdMap {
    type V = Seq<GroupView>;

    closed spec fn view(&self) -> Seq<GroupView> {
        group_views(self.entries@)
    }
}

impl TokenIdMap {
    /// No group twice, and each before the next in text order.
    #[verifier::type_invariant]
    pub closed spec fn well_formed(self) -> bool {
        groups_ascending(group_views(self.entries@))
    }

    /// What stands for a well-formed map in contracts is ascending.
    pub proof fn lemma_view_ascending(self)
        requires
            self.well_formed(),
        ensures
            groups_ascending(self@),
    {
    }

    /// The mapping from group to identifiers.
    pub open spec fn as_map(self) -> Map<Seq<char>, Seq<Seq<char>>> {
        groups_as_map(self@)
    }

    /// A map without groups.
    pub fn new() -> (m: TokenIdMap)
        ensures
            m@ == Seq::<GroupView>::empty(),
            m.as_map() == Map::<Seq<char>, Seq<Seq<char>>>::empty(),
            m.well_formed(),
    {
        let m = TokenIdMap { entries: Vec::new() };
        assert(m@ =~= Seq::<GroupView>::empty());
        assert(m.as_map() =~= Map::<Seq<char>, Seq<Seq<char>>>::empty());
        m
    }

    /// The number of groups.
    pub fn len(&self) -> (n: usize)
        ensures
            n == self@.len(),
    {
        self.entries.len()
    }

    /// The group at position `i`, counted in ascending order.
    pub fn entry(&self, i: usize) -> (e: &TokenGroup)
        requires
            i < self@.len(),
        ensures
            e@ == self@[i as int],
    {
        &self.entries[i]
    }

    /// Sets the identifiers of `group`, replacing those it had.
    pub fn insert(&mut self, group: String, ids: Vec<String>)
        ensures
            final(self).as_map() == old(self).as_map().insert(group@, texts(ids@)),
            final(self).well_formed(),
            groups_ascending(final(self)@),
    {
        proof {
            use_type_invariant(&*self);
        }
        let ghost s = self@;
        let ghost k = group@;
        let ghost v = texts(ids@);
        // The entries are worked on outside the map, which is empty meanwhile.
        let mut entries: Vec<TokenGroup> = Vec::new();
        core::mem::swap(&mut self.entries, &mut entries);
        let mut p: usize = 0;
        while p < entries.len() && !str_le(group.as_str(), entries[p].group.as_str())
            invariant
                p <= entries@.len(),
                s == group_views(entries@),
                k == group@,
                forall|j: int| 0 <= j < p ==> text_lt(#[trigger] s[j].group, k),
            decreases entries@.len() - p,
        {
            proof {
                lemma_text_le_total(k, s[p as int].group);
            }
            p += 1;
        }
        let replace = p < entries.len() && str_le(entries[p].group.as_str(), group.as_str());
        let entry = TokenGroup { group, ids };
        assert(entry@ == (GroupView { group: k, ids: v }));
        if replace {
            proof {
                lemma_text_le_antisym(k, s[p as int].group);
                lemma_replace_group(s, p as int, v);
            }
            entries[p] = entry;
            assert(group_views(entries@) =~= s.update(p as int, entry@));
        } else {
            proof {
                if (p as int) < s.len() {
                    assert(text_le(k, s[p as int].group));
                    if k == s[p as int].group {
                        crate::order::lemma_bytes_le_refl(vstd::utf8::encode_utf8(k));
                    }
                }
                lemma_insert_group(s, p as int, entry@);
            }
            entries.insert(p, entry);
            assert(group_views(entries@) =~= s.insert(p as int, entry@));
        }
        self.entries = entries;
    }
}

/// Two maps that hold the same groups with the same identifiers hold them
/// in the same order, however each was filled.
pub proof fn lemma_same_mapping_same_order(x: TokenIdMap, y: TokenIdMap)
    requires
        x.well_formed(),
        y.well_formed(),
        x.as_map() == y.as_map(),
    ensures
        x@ == y@,
{
    lemma_groups_canonical(x@, y@);
}

/// Two different groups may be put in either one first: the mapping is the
/// same.
pub proof fn lemma_insertion_order(
    m: Map<Seq<char>, Seq<Seq<char>>>,
    first: Seq<char>,
    first_ids: Seq<Seq<char>>,
    second: Seq<char>,
    second_ids: Seq<Seq<char>>,
)
    requires
        first != second,
    ensures
        m.insert(first, first_ids).insert(second, second_ids) == m.insert(
            second,
            second_ids,
        ).insert(first, first_ids),
{
    assert(m.insert(first, first_ids).insert(second, second_ids) =~= m.insert(
        second,
        second_ids,
    ).insert(first, first_ids));
}

/// New identifiers for a group that is there leave the order as it was.
proof fn lemma_replace_group(s: Seq<GroupView>, p: int, v: Seq<Seq<char>>)
    requires
        groups_ascending(s),
        0 <= p < s.len(),
    ensures
        groups_ascending(s.update(p, GroupView { group: s[p].group, ids: v })),
        groups_as_map(s.update(p, GroupView { group: s[p].group, ids: v })) == groups_as_map(
            s,
        ).insert(s[p].group, v),
{
    let k = s[p].group;
    let t = s.update(p, GroupView { group: k, ids: v });
    assert forall|i: int, j: int| 0 <= i < j < t.len() implies text_lt(t[i].group, t[j].group) by {
        assert(text_lt(s[i].group, s[j].group));
    }
    assert(groups_as_map(t) =~= groups_as_map(s).insert(k, v)) by {
        assert forall|q: Seq<char>| has_group(t, q) <==> (has_group(s, q) || q == k) by {
            if has_group(t, q) {
                let i = index_of_group(t, q);
                assert(s[i].group == q);
            }
            if has_group(s, q) {
                let i = index_of_group(s, q);
                assert(t[i].group == q);
            }
            if q == k {
                assert(t[p].group == q);
            }
        }
        assert forall|q: Seq<char>| has_group(t, q) implies groups_as_map(t)[q] == groups_as_map(
            s,
        ).insert(k, v)[q] by {
            let i = index_of_group(t, q);
            lemma_group_lookup(t, i);
            if q != k {
                assert(s[i].group == q);
                lemma_group_lookup(s, i);
            }
        }
    }
}

/// A new group, put where the order asks for it, keeps the order.
proof fn lemma_insert_group(s: Seq<GroupView>, p: int, e: GroupView)
    requires
        groups_ascending(s),
        0 <= p <= s.len(),
        forall|j: int| 0 <= j < p ==> text_lt(#[trigger] s[j].group, e.group),
        p < s.len() ==> text_lt(e.group, s[p].group),
    ensures
        groups_ascending(s.insert(p, e)),
        groups_as_map(s.insert(p, e)) == groups_as_map(s).insert(e.group, e.ids),
{
    let k = e.group;
    let t = s.insert(p, e);
    assert forall|i: int, j: int| 0 <= i < j < t.len() implies text_lt(t[i].group, t[j].group) by {
        if j < p {
            assert(text_lt(s[i].group, s[j].group));
        } else if j == p {
            assert(text_lt(s[i].group, k));
        } else if i == p {
            if j - 1 > p {
                assert(text_lt(s[p].group, s[j - 1].group));
                lemma_text_lt_trans(k, s[p].group, s[j - 1].group);
            }
        } else if i < p {
            assert(text_lt(s[i].group, s[j - 1].group));
        } else {
            assert(text_lt(s[i - 1].group, s[j - 1].group));
        }
    }
    assert(!has_group(s, k)) by {
        if has_group(s, k) {
            let i = index_of_group(s, k);
            if i < p {
                assert(text_lt(s[i].group, k));
            } else if i > p {
                assert(text_lt(s[p].group, s[i].group));
                lemma_text_lt_trans(k, s[p].group, s[i].group);
            }
        }
    }
    assert(groups_as_map(t) =~= groups_as_map(s).insert(k, e.ids)) by {
        assert forall|q: Seq<char>| has_group(t, q) <==> (has_group(s, q) || q == k) by {
            if has_group(t, q) {
                let i = index_of_group(t, q);
                if i < p {
                    assert(s[i].group == q);
                } else if i > p {
                    assert(s[i - 1].group == q);
                }
            }
            if has_group(s, q) {
                let i = index_of_group(s, q);
                if i < p {
                    assert(t[i].group == q);
                } else {
                    assert(t[i + 1].group == q);
                }
            }
            if q == k {
                assert(t[p].group == q);
            }
        }
        assert forall|q: Seq<char>| has_group(t, q) implies groups_as_map(t)[q] == groups_as_map(
            s,
        ).insert(k, e.ids)[q] by {
            let i = index_of_group(t, q);
            lemma_group_lookup(t, i);
            if q != k {
                if i < p {
                    assert(s[i].group == q);
                    lemma_group_lookup(s, i);
                } else {
                    assert(s[i - 1].group == q);
                    lemma_group_lookup(s, i - 1);
                }
            }
        }
    }
}

} // verus!

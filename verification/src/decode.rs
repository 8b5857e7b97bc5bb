//! Decoding of a whole request into the arguments of the settlement call.
//!
//! The fields are decoded in a fixed order: the proof entries, the signature,
//! the groups (each group's address, then its identifiers), the amount, the
//! user address. The first text that is malformed fails the whole request,
//! and the failure names it.

use crate::codec::{
    address_of, amount_of, digest_of, parse_address, parse_amount, parse_digest, parse_signature,
    signature_of, Address, Digest, Reason, Uint256,
};
use crate::request::{ClaimRequest, ClaimRequestView};
use crate::sorting::texts;
use crate::token_map::{GroupView, TokenIdMap};
use vstd::prelude::*;

verus! {

/// The part of a request that a failure is about.
#[derive(Clone, Copy, Debug, PartialEq, Eq, Structural)]
pub enum Field {
    /// The proof entry at `index`.
    Proof { index: usize },
    /// The signature.
    Signature,
    /// The name of the group at `index`, counted in ascending order of names.
    Group { index: usize },
    /// The identifier at `index` of the group at `group`.
    ItemId { group: usize, index: usize },
    /// The amount.
    Amount,
    /// The address of the claiming user.
    UserAddress,
}

/// A text field that does not spell a value of its kind.
#[derive(Clone, Copy, Debug, PartialEq, Eq, Structural)]
pub struct MalformedInput {
    pub field: Field,
    pub reason: Reason,
}

/// The digests that `items` spell, or the first entry that spells none.
pub open spec fn digests_of(items: Seq<Seq<char>>) -> Result<Seq<Seq<u8>>, MalformedInput>
    decreases items.len(),
{
    if items.len() == 0 {
        Ok(Seq::empty())
    } else {
        match digests_of(items.drop_last()) {
            Err(e) => Err(e),
            Ok(front) => match digest_of(items.last()) {
                Ok(d) => Ok(front.push(d)),
                Err(reason) => Err(
                    MalformedInput {
                        field: Field::Proof { index: (items.len() - 1) as usize },
                        reason,
                    },
                ),
            },
        }
    }
}

/// The numbers that the identifiers `ids` of group number `group` spell, or
/// the first identifier that spells none.
pub open spec fn item_ids_of(group: usize, ids: Seq<Seq<char>>) -> Result<
    Seq<nat>,
    MalformedInput,
>
    decreases ids.len(),
{
    if ids.len() == 0 {
        Ok(Seq::empty())
    } else {
        match item_ids_of(group, ids.drop_last()) {
            Err(e) => Err(e),
            Ok(front) => match amount_of(ids.last()) {
                Ok(n) => Ok(front.push(n)),
                Err(reason) => Err(
                    MalformedInput {
                        field: Field::ItemId { group, index: (ids.len() - 1) as usize },
                        reason,
                    },
                ),
            },
        }
    }
}

/// The addresses of `groups` and, beside each, the numbers of its
/// identifiers, as a pair of sequences of one length.
pub struct PairedView {
    pub groups: Seq<Seq<u8>>,
    pub item_ids: Seq<Seq<nat>>,
}

/// The addresses and identifiers that `groups` spell, in the order of
/// `groups`, or the first name or identifier that spells none.
pub open spec fn groups_of(groups: Seq<GroupView>) -> Result<PairedView, MalformedInput>
    decreases groups.len(),
{
    if groups.len() == 0 {
        Ok(PairedView { groups: Seq::empty(), item_ids: Seq::empty() })
    } else {
        let index = (groups.len() - 1) as usize;
        match groups_of(groups.drop_last()) {
            Err(e) => Err(e),
            Ok(front) => match address_of(groups.last().group) {
                Err(reason) => Err(MalformedInput { field: Field::Group { index }, reason }),
                Ok(a) => match item_ids_of(index, groups.last().ids) {
                    Err(e) => Err(e),
                    Ok(ids) => Ok(
                        PairedView {
                            groups: front.groups.push(a),
                            item_ids: front.item_ids.push(ids),
                        },
                    ),
                },
            },
        }
    }
}

/// The arguments of the settlement call as the contracts see them.
pub struct DecodedArgsView {
    pub groups: Seq<Seq<u8>>,
    pub item_ids: Seq<Seq<nat>>,
    pub amount: nat,
    pub proof: Seq<Seq<u8>>,
    pub signature: Seq<u8>,
    pub user: Seq<u8>,
}

/// A malformed `field`, for `reason`.
pub open spec fn malformed<T>(field: Field, reason: Reason) -> Result<T, MalformedInput> {
    Err(MalformedInput { field, reason })
}

/// The arguments that the request `r` spells, or its first malformed field.
pub open spec fn decoded(r: ClaimRequestView) -> Result<DecodedArgsView, MalformedInput> {
    match digests_of(r.proof) {
        Err(e) => Err(e),
        Ok(proof) => match signature_of(r.signature) {
            Err(reason) => malformed(Field::Signature, reason),
            Ok(signature) => match groups_of(r.token_ids) {
                Err(e) => Err(e),
                Ok(paired) => match amount_of(r.amount) {
                    Err(reason) => malformed(Field::Amount, reason),
                    Ok(amount) => match address_of(r.user_address) {
                        Err(reason) => malformed(Field::UserAddress, reason),
                        Ok(user) => Ok(
                            DecodedArgsView {
                                groups: paired.groups,
                                item_ids: paired.item_ids,
                                amount,
                                proof,
                                signature,
                                user,
                            },
                        ),
                    },
                },
            },
        },
    }
}

/// A failure among the first entries is the failure of the whole proof.
proof fn lemma_digests_failure_stays(items: Seq<Seq<char>>, k: int)
    requires
        0 <= k <= items.len(),
        digests_of(items.take(k)) is Err,
    ensures
        digests_of(items) == digests_of(items.take(k)),
    decreases items.len() - k,
{
    if k < items.len() {
        assert(items.take(k + 1).drop_last() =~= items.take(k));
        lemma_digests_failure_stays(items, k + 1);
    } else {
        assert(items.take(k) =~= items);
    }
}

/// A failure among the first identifiers is the failure of them all.
proof fn lemma_item_ids_failure_stays(group: usize, ids: Seq<Seq<char>>, k: int)
    requires
        0 <= k <= ids.len(),
        item_ids_of(group, ids.take(k)) is Err,
    ensures
        item_ids_of(group, ids) == item_ids_of(group, ids.take(k)),
    decreases ids.len() - k,
{
    if k < ids.len() {
        assert(ids.take(k + 1).drop_last() =~= ids.take(k));
        lemma_item_ids_failure_stays(group, ids, k + 1);
    } else {
        assert(ids.take(k) =~= ids);
    }
}

/// A failure among the first groups is the failure of them all.
proof fn lemma_groups_failure_stays(groups: Seq<GroupView>, k: int)
    requires
        0 <= k <= groups.len(),
        groups_of(groups.take(k)) is Err,
    ensures
        groups_of(groups) == groups_of(groups.take(k)),
    decreases groups.len() - k,
{
    if k < groups.len() {
        assert(groups.take(k + 1).drop_last() =~= groups.take(k));
        lemma_groups_failure_stays(groups, k + 1);
    } else {
        assert(groups.take(k) =~= groups);
    }
}

/// Pairing: where groups decode, there is one address and one list of
/// numbers for each group, at the group's own position, and each list holds
/// its group's identifiers in the order they came.
pub proof fn lemma_groups_stay_paired(groups: Seq<GroupView>)
    requires
        groups_of(groups) is Ok,
    ensures
        ({
            let paired = groups_of(groups)->Ok_0;
            &&& paired.groups.len() == groups.len()
            &&& paired.item_ids.len() == groups.len()
            &&& forall|i: int|
                #![trigger groups[i]]
                0 <= i < groups.len() ==> address_of(groups[i].group) == Ok::<Seq<u8>, Reason>(
                    paired.groups[i],
                ) && item_ids_of(i as usize, groups[i].ids) == Ok::<Seq<nat>, MalformedInput>(
                    paired.item_ids[i],
                )
        }),
    decreases groups.len(),
{
    if groups.len() > 0 {
        let front = groups.drop_last();
        lemma_groups_stay_paired(front);
        let paired = groups_of(groups)->Ok_0;
        let before = groups_of(front)->Ok_0;
        assert forall|i: int| #![trigger groups[i]] 0 <= i < groups.len() implies address_of(
            groups[i].group,
        ) == Ok::<Seq<u8>, Reason>(paired.groups[i]) && item_ids_of(i as usize, groups[i].ids)
            == Ok::<Seq<nat>, MalformedInput>(paired.item_ids[i]) by {
            if i < groups.len() - 1 {
                assert(front[i] == groups[i]);
                assert(paired.groups[i] == before.groups[i]);
                assert(paired.item_ids[i] == before.item_ids[i]);
            }
        }
    }
}

/// Where identifiers decode, there is one number for each, in the order
/// they came.
pub proof fn lemma_item_ids_in_order(group: usize, ids: Seq<Seq<char>>)
    requires
        item_ids_of(group, ids) is Ok,
    ensures
        item_ids_of(group, ids)->Ok_0.len() == ids.len(),
        forall|j: int|
            #![trigger ids[j]]
            0 <= j < ids.len() ==> amount_of(ids[j]) == Ok::<nat, Reason>(
                item_ids_of(group, ids)->Ok_0[j],
            ),
    decreases ids.len(),
{
    if ids.len() > 0 {
        let front = ids.drop_last();
        lemma_item_ids_in_order(group, front);
        let all = item_ids_of(group, ids)->Ok_0;
        let before = item_ids_of(group, front)->Ok_0;
        assert forall|j: int| #![trigger ids[j]] 0 <= j < ids.len() implies amount_of(ids[j])
            == Ok::<nat, Reason>(all[j]) by {
            if j < ids.len() - 1 {
                assert(front[j] == ids[j]);
                assert(all[j] == before[j]);
            }
        }
    }
}

/// What stands for a list of digests in contracts.
pub open spec fn digest_views(v: Seq<Digest>) -> Seq<Seq<u8>> {
    Seq::new(v.len(), |i: int| v[i]@)
}

/// What stands for a list of addresses in contracts.
pub open spec fn address_views(v: Seq<Address>) -> Seq<Seq<u8>> {
    Seq::new(v.len(), |i: int| v[i]@)
}

/// What stands for a list of numbers in contracts.
pub open spec fn number_views(v: Seq<Uint256>) -> Seq<nat> {
    Seq::new(v.len(), |i: int| v[i]@)
}

/// What stands for a list of lists of numbers in contracts.
pub open spec fn number_list_views(v: Seq<Vec<Uint256>>) -> Seq<Seq<nat>> {
    Seq::new(v.len(), |i: int| number_views(v[i]@))
}

/// Decodes the proof: every entry, or the first that is malformed.
pub fn parse_digests(items: &Vec<String>) -> (r: Result<Vec<Digest>, MalformedInput>)
    ensures
        match r {
            Ok(v) => digests_of(texts(items@)) == Ok::<Seq<Seq<u8>>, MalformedInput>(
                digest_views(v@),
            ),
            Err(e) => digests_of(texts(items@)) == Err::<Seq<Seq<u8>>, MalformedInput>(e),
        },
{
    let ghost all = texts(items@);
    let mut out: Vec<Digest> = Vec::new();
    let mut i: usize = 0;
    assert(all.take(0) =~= Seq::<Seq<char>>::empty());
    assert(digest_views(out@) =~= Seq::<Seq<u8>>::empty());
    while i < items.len()
        invariant
            i <= items@.len(),
            all == texts(items@),
            digests_of(all.take(i as int)) == Ok::<Seq<Seq<u8>>, MalformedInput>(
                digest_views(out@),
            ),
        decreases items@.len() - i,
    {
        proof {
            assert(all.take(i + 1).drop_last() =~= all.take(i as int));
            assert(all.take(i + 1).last() == items@[i as int]@);
        }
        match parse_digest(items[i].as_str()) {
            Ok(d) => {
                let ghost before = out@;
                out.push(d);
                assert(digest_views(out@) =~= digest_views(before).push(d@));
            },
            Err(reason) => {
                proof {
                    lemma_digests_failure_stays(all, i + 1);
                }
                return Err(MalformedInput { field: Field::Proof { index: i }, reason });
            },
        }
        i += 1;
    }
    assert(all.take(i as int) =~= all);
    Ok(out)
}

/// Decodes the identifiers of group number `group`: every one, or the first
/// that is malformed.
pub fn parse_item_ids(group: usize, ids: &Vec<String>) -> (r: Result<Vec<Uint256>, MalformedInput>)
    ensures
        match r {
            Ok(v) => item_ids_of(group, texts(ids@)) == Ok::<Seq<nat>, MalformedInput>(
                number_views(v@),
            ),
            Err(e) => item_ids_of(group, texts(ids@)) == Err::<Seq<nat>, MalformedInput>(e),
        },
{
    let ghost all = texts(ids@);
    let mut out: Vec<Uint256> = Vec::new();
    let mut i: usize = 0;
    assert(all.take(0) =~= Seq::<Seq<char>>::empty());
    assert(number_views(out@) =~= Seq::<nat>::empty());
    while i < ids.len()
        invariant
            i <= ids@.len(),
            all == texts(ids@),
            item_ids_of(group, all.take(i as int)) == Ok::<Seq<nat>, MalformedInput>(
                number_views(out@),
            ),
        decreases ids@.len() - i,
    {
        proof {
            assert(all.take(i + 1).drop_last() =~= all.take(i as int));
            assert(all.take(i + 1).last() == ids@[i as int]@);
        }
        match parse_amount(ids[i].as_str()) {
            Ok(n) => {
                let ghost before = out@;
                out.push(n);
                assert(number_views(out@) =~= number_views(before).push(n@));
            },
            Err(reason) => {
                proof {
                    lemma_item_ids_failure_stays(group, all, i + 1);
                }
                return Err(
                    MalformedInput { field: Field::ItemId { group, index: i }, reason },
                );
            },
        }
        i += 1;
    }
    assert(all.take(i as int) =~= all);
    Ok(out)
}

/// The addresses of the groups and, beside each, the numbers of its
/// identifiers.
#[derive(Debug)]
pub struct PairedGroups {
    groups: Vec<Address>,
    item_ids: Vec<Vec<Uint256>>,
}

impl View for PairedGroups {
    type V = PairedView;

    closed spec fn view(&self) -> PairedView {
        PairedView {
            groups: address_views(self.groups@),
            item_ids: number_list_views(self.item_ids@),
        }
    }
}

impl PairedGroups {
    /// There is one list of identifiers for each group.
    #[verifier::type_invariant]
    pub closed spec fn well_formed(self) -> bool {
        self.groups@.len() == self.item_ids@.len()
    }

    /// No groups.
    pub fn new() -> (p: PairedGroups)
        ensures
            p@ == (PairedView { groups: Seq::empty(), item_ids: Seq::empty() }),
    {
        let p = PairedGroups { groups: Vec::new(), item_ids: Vec::new() };
        assert(p@.groups =~= Seq::<Seq<u8>>::empty());
        assert(p@.item_ids =~= Seq::<Seq<nat>>::empty());
        p
    }

    /// Adds a group and its identifiers after those that are there.
    pub fn push(self, group: Address, ids: Vec<Uint256>) -> (p: PairedGroups)
        ensures
            p@ == (PairedView {
                groups: self@.groups.push(group@),
                item_ids: self@.item_ids.push(number_views(ids@)),
            }),
    {
        proof {
            use_type_invariant(&self);
        }
        let mut groups = self.groups;
        let mut item_ids = self.item_ids;
        let ghost ids_view = number_views(ids@);
        groups.push(group);
        item_ids.push(ids);
        let p = PairedGroups { groups, item_ids };
        assert(p@.groups =~= self@.groups.push(group@));
        assert(p@.item_ids =~= self@.item_ids.push(ids_view));
        p
    }

    /// The number of groups, which is also the number of identifier lists.
    pub fn len(&self) -> (n: usize)
        ensures
            n == self@.groups.len(),
            n == self@.item_ids.len(),
    {
        proof {
            use_type_invariant(self);
        }
        self.groups.len()
    }

    /// The group addresses, in order.
    pub fn groups(&self) -> (g: &Vec<Address>)
        ensures
            address_views(g@) == self@.groups,
            g@.len() == self@.item_ids.len(),
    {
        proof {
            use_type_invariant(self);
        }
        &self.groups
    }

    /// The identifiers of each group, in the order of the groups.
    pub fn item_ids(&self) -> (ids: &Vec<Vec<Uint256>>)
        ensures
            number_list_views(ids@) == self@.item_ids,
            ids@.len() == self@.groups.len(),
    {
        proof {
            use_type_invariant(self);
        }
        &self.item_ids
    }
}

/// Decodes the groups of `map` into paired addresses and identifiers, in the
/// order of the map: every group, or the first name or identifier that is
/// malformed.
pub fn parse_groups(map: &TokenIdMap) -> (r: Result<PairedGroups, MalformedInput>)
    ensures
        match r {
            Ok(p) => groups_of(map@) == Ok::<PairedView, MalformedInput>(p@),
            Err(e) => groups_of(map@) == Err::<PairedView, MalformedInput>(e),
        },
{
    let ghost all = map@;
    let mut out = PairedGroups::new();
    let n: usize = map.len();
    let mut i: usize = 0;
    assert(all.take(0) =~= Seq::<GroupView>::empty());
    while i < n
        invariant
            i <= n,
            n == all.len(),
            all == map@,
            groups_of(all.take(i as int)) == Ok::<PairedView, MalformedInput>(out@),
        decreases n - i,
    {
        let entry = map.entry(i);
        proof {
            assert(all.take(i + 1).drop_last() =~= all.take(i as int));
            assert(all.take(i + 1).last() == entry@);
        }
        let address = match parse_address(entry.group.as_str()) {
            Ok(a) => a,
            Err(reason) => {
                proof {
                    lemma_groups_failure_stays(all, i + 1);
                }
                return Err(MalformedInput { field: Field::Group { index: i }, reason });
            },
        };
        let ids = match parse_item_ids(i, &entry.ids) {
            Ok(v) => v,
            Err(e) => {
                proof {
                    lemma_groups_failure_stays(all, i + 1);
                }
                return Err(e);
            },
        };
        out = out.push(address, ids);
        i += 1;
    }
    assert(all.take(i as int) =~= all);
    Ok(out)
}

/// The arguments of the settlement call, in binary form.
#[derive(Debug)]
pub struct DecodedArgs {
    /// The group addresses and, paired with them, the item identifiers.
    pub paired: PairedGroups,
    /// The total amount claimed.
    pub amount: Uint256,
    /// The eligibility proof.
    pub proof: Vec<Digest>,
    /// The raw signature: two scalars and a recovery byte.
    pub signature: Vec<u8>,
    /// The address of the claiming user.
    pub user: Address,
}

impl View for DecodedArgs {
    type V = DecodedArgsView;

    open spec fn view(&self) -> DecodedArgsView {
        DecodedArgsView {
            groups: self.paired@.groups,
            item_ids: self.paired@.item_ids,
            amount: self.amount@,
            proof: digest_views(self.proof@),
            signature: self.signature@,
            user: self.user@,
        }
    }
}

/// Decodes `request` into the arguments of the settlement call, or names its
/// first malformed field.
pub fn decode_args(request: &ClaimRequest) -> (r: Result<DecodedArgs, MalformedInput>)
    ensures
        match r {
            Ok(args) => decoded(request@) == Ok::<DecodedArgsView, MalformedInput>(args@),
            Err(e) => decoded(request@) == Err::<DecodedArgsView, MalformedInput>(e),
        },
{
    let proof = match parse_digests(&request.proof) {
        Ok(p) => p,
        Err(e) => {
            return Err(e);
        },
    };
    let signature = match parse_signature(request.signature.as_str()) {
        Ok(s) => s,
        Err(reason) => {
            return Err(MalformedInput { field: Field::Signature, reason });
        },
    };
    let paired = match parse_groups(&request.token_ids) {
        Ok(p) => p,
        Err(e) => {
            return Err(e);
        },
    };
    let amount = match parse_amount(request.amount.as_str()) {
        Ok(a) => a,
        Err(reason) => {
            return Err(MalformedInput { field: Field::Amount, reason });
        },
    };
    let user = match parse_address(request.user_address.as_str()) {
        Ok(u) => u,
        Err(reason) => {
            return Err(MalformedInput { field: Field::UserAddress, reason });
        },
    };
    Ok(DecodedArgs { paired, amount, proof, signature, user })
}

} // verus!

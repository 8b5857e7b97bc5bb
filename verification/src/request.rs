//! The claim request as it is received.

use crate::sorting::texts;
use crate::token_map::{GroupView, TokenIdMap};
use vstd::prelude::*;

verus! {

/// A request to claim a batched reward on behalf of a user. Every field is
/// text as it came in; nothing has been checked.
#[derive(Debug)]
pub struct ClaimRequest {
    /// The item identifiers claimed, by reward group.
    pub token_ids: TokenIdMap,
    /// The total amount claimed, in decimal.
    pub amount: String,
    /// The eligibility proof, one hexadecimal digest per entry.
    pub proof: Vec<String>,
    /// The authorization signature, in hexadecimal.
    pub signature: String,
    /// The address of the claiming user.
    pub user_address: String,
    /// The address of the authorizing party. It is carried for display and
    /// takes no part in any decision.
    pub authority: String,
}

/// A claim request as the contracts see it.
pub struct ClaimRequestView {
    pub token_ids: Seq<GroupView>,
    pub amount: Seq<char>,
    pub proof: Seq<Seq<char>>,
    pub signature: Seq<char>,
    pub user_address: Seq<char>,
    pub authority: Seq<char>,
}

impl View for ClaimRequest {
    type V = ClaimRequestView;

    open spec fn view(&self) -> ClaimRequestView {
        ClaimRequestView {
            token_ids: self.token_ids@,
            amount: self.amount@,
            proof: texts(self.proof@),
            signature: self.signature@,
            user_address: self.user_address@,
            authority: self.authority@,
        }
    }
}

} // verus!

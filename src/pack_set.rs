use vstd::prelude::*;

use crate::account_type::AccountType;

verus! {

/// What the value of a weight table entry means.
#[derive(Debug, Clone, Copy, PartialEq, Eq, Structural)]
pub enum PackDistributionType {
    /// A remaining supply, taken down by each draw of the card.
    MaxSupply,
    /// A probability weight that draws leave as it is.
    Fixed,
}

/// Where a pack stands in its life.
#[derive(Debug, Clone, Copy, PartialEq, Eq, Structural)]
pub enum PackSetState {
    NotActivated,
    Activated,
    Deactivated,
}

/// The aggregate of one pack: its policy, its activation window and its
/// running totals.
#[derive(Debug, Clone, Copy, PartialEq, Eq)]
pub struct PackSet {
    pub account_type: AccountType,
    pub pack_state: PackSetState,
    pub distribution_type: PackDistributionType,
    /// How many draws one redemption right may make, claimed or not.
    pub allowed_amount_to_redeem: u32,
    pub redeem_start_date: u64,
    pub redeem_end_date: Option<u64>,
    pub pack_cards: u32,
    pub pack_vouchers: u32,
    /// The sum of the weight table's values that draws normalise against.
    pub total_weight: u64,
    /// How many more cards the pack can hand out.
    pub total_editions: u64,
}

/// The pack is activated and `now` lies in its redemption window.
pub open spec fn active_at(ps: PackSet, now: u64) -> bool {
    &&& ps.pack_state == PackSetState::Activated
    &&& ps.redeem_start_date <= now
    &&& ps.redeem_end_date matches Some(end) ==> now <= end
}

/// `a` and `b` agree on everything but the running totals and the state.
pub open spec fn same_policy(a: PackSet, b: PackSet) -> bool {
    &&& a.account_type == b.account_type
    &&& a.distribution_type == b.distribution_type
    &&& a.allowed_amount_to_redeem == b.allowed_amount_to_redeem
    &&& a.redeem_start_date == b.redeem_start_date
    &&& a.redeem_end_date == b.redeem_end_date
    &&& a.pack_cards == b.pack_cards
    &&& a.pack_vouchers == b.pack_vouchers
}

/// `a` and `b` agree on everything but the running totals.
pub open spec fn same_terms(a: PackSet, b: PackSet) -> bool {
    &&& same_policy(a, b)
    &&& a.pack_state == b.pack_state
}

impl PackSet {
    /// Whether the pack takes requests at time `now`.
    pub fn is_active_at(&self, now: u64) -> (r: bool)
        ensures
            r == active_at(*self, now),
    {
        if self.pack_state != PackSetState::Activated || now < self.redeem_start_date {
            return false;
        }
        match self.redeem_end_date {
            Some(end) => now <= end,
            None => true,
        }
    }
}

} // verus!

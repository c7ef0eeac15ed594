use vstd::prelude::*;

use crate::account_type::AccountType;
use crate::error::PackError;
use crate::pack_config::{has_card, sorted_desc, unique_cards, PackConfig};
use crate::pack_set::{same_policy, same_terms, PackDistributionType, PackSet, PackSetState};

verus! {

/// The most entries a weight table record can hold.
pub const MAX_CARDS: usize = 50;

/// The sum of the values of a table.
pub open spec fn values_sum(ws: Seq<(u32, u32)>) -> int
    decreases ws.len(),
{
    if ws.len() == 0 {
        0
    } else {
        values_sum(ws.drop_last()) + ws.last().1
    }
}

/// The entries of a table whose value is not zero, in their order.
pub open spec fn live_entries(ws: Seq<(u32, u32)>) -> Seq<(u32, u32)>
    decreases ws.len(),
{
    if ws.len() == 0 {
        ws
    } else if ws.last().1 > 0 {
        live_entries(ws.drop_last()).push(ws.last())
    } else {
        live_entries(ws.drop_last())
    }
}

/// Pruning a pruned table changes nothing, so a second clean-up has no
/// effect beyond the first.
pub proof fn lemma_clean_up_idempotent(ws: Seq<(u32, u32)>)
    ensures
        live_entries(live_entries(ws)) == live_entries(ws),
    decreases ws.len(),
{
    if ws.len() > 0 {
        let d = ws.drop_last();
        lemma_clean_up_idempotent(d);
        if ws.last().1 > 0 {
            let l = live_entries(d).push(ws.last());
            assert(l.drop_last() =~= live_entries(d));
            assert(l.last() == ws.last());
        }
    }
}

/// What `add_card` answers before it changes anything.
pub open spec fn add_card_check(ps: PackSet, ws: Seq<(u32, u32)>, card_index: u32, max_supply: u32, weight: u32) -> Result<(), PackError> {
    let value = card_value(ps.distribution_type, max_supply, weight);
    if ps.pack_state != PackSetState::NotActivated {
        Err(PackError::InvalidState)
    } else if ws.len() >= MAX_CARDS {
        Err(PackError::MaxCardsReached)
    } else if card_index >= ps.pack_cards || has_card(ws, card_index) || value == 0 {
        Err(PackError::ConfigurationError)
    } else if ps.total_weight + value > u64::MAX || ps.total_editions + max_supply > u64::MAX {
        Err(PackError::ArithmeticError)
    } else {
        Ok(())
    }
}

/// The table value of a card: its supply under a supply policy, its weight otherwise.
pub open spec fn card_value(d: PackDistributionType, max_supply: u32, weight: u32) -> u32 {
    if d == PackDistributionType::MaxSupply {
        max_supply
    } else {
        weight
    }
}

impl PackSet {
    /// A pack that is not activated yet, for `pack_cards` declared cards, with
    /// no card or voucher added.
    pub fn new(
        distribution_type: PackDistributionType,
        allowed_amount_to_redeem: u32,
        redeem_start_date: u64,
        redeem_end_date: Option<u64>,
        pack_cards: u32,
    ) -> (r: PackSet)
        ensures
            r.account_type == AccountType::PackSet,
            r.pack_state == PackSetState::NotActivated,
            r.distribution_type == distribution_type,
            r.allowed_amount_to_redeem == allowed_amount_to_redeem,
            r.redeem_start_date == redeem_start_date,
            r.redeem_end_date == redeem_end_date,
            r.pack_cards == pack_cards,
            r.pack_vouchers == 0,
            r.total_weight == 0,
            r.total_editions == 0,
    {
        PackSet {
            account_type: AccountType::PackSet,
            pack_state: PackSetState::NotActivated,
            distribution_type,
            allowed_amount_to_redeem,
            redeem_start_date,
            redeem_end_date,
            pack_cards,
            pack_vouchers: 0,
            total_weight: 0,
            total_editions: 0,
        }
    }
}

/// Adds card `card_index` to a pack that is not activated yet. Its table value
/// is `max_supply` under a supply policy and `weight` otherwise; its
/// `max_supply` editions join the pack's total.
pub fn add_card(
    pack_set: &mut PackSet,
    config: &mut PackConfig,
    card_index: u32,
    max_supply: u32,
    weight: u32,
) -> (r: Result<(), PackError>)
    ensures
        r == add_card_check(*old(pack_set), old(config).weights@, card_index, max_supply, weight),
        r is Err ==> *final(pack_set) == *old(pack_set) && *final(config) == *old(config),
        r is Ok ==> {
            &&& final(config).weights@ == old(config).weights@.push(
                (card_index, card_value(old(pack_set).distribution_type, max_supply, weight)),
            )
            &&& final(config).account_type == old(config).account_type
            &&& final(pack_set).total_weight == old(pack_set).total_weight + card_value(
                old(pack_set).distribution_type,
                max_supply,
                weight,
            )
            &&& final(pack_set).total_editions == old(pack_set).total_editions + max_supply
            &&& same_terms(*final(pack_set), *old(pack_set))
            &&& final(pack_set).pack_state == old(pack_set).pack_state
        },
        unique_cards(old(config).weights@) ==> unique_cards(final(config).weights@),
{
    let value = if pack_set.distribution_type == PackDistributionType::MaxSupply {
        max_supply
    } else {
        weight
    };
    if pack_set.pack_state != PackSetState::NotActivated {
        return Err(PackError::InvalidState);
    }
    if config.weights.len() >= MAX_CARDS {
        return Err(PackError::MaxCardsReached);
    }
    if card_index >= pack_set.pack_cards || value == 0 {
        return Err(PackError::ConfigurationError);
    }
    if crate::proving_process::position_of(&config.weights, card_index).is_some() {
        return Err(PackError::ConfigurationError);
    }
    if pack_set.total_weight > u64::MAX - value as u64 || pack_set.total_editions > u64::MAX - max_supply as u64 {
        return Err(PackError::ArithmeticError);
    }
    let ghost ws = config.weights@;
    config.weights.push((card_index, value));
    pack_set.total_weight = pack_set.total_weight + value as u64;
    pack_set.total_editions = pack_set.total_editions + max_supply as u64;
    proof {
        let r = config.weights@;
        assert forall|i: int, j: int|
            0 <= i < r.len() && 0 <= j < r.len() && i != j && unique_cards(ws) implies (#[trigger] r[i]).0
            != (#[trigger] r[j]).0 by {
            if i < ws.len() {
                assert(r[i] == ws[i]);
            }
            if j < ws.len() {
                assert(r[j] == ws[j]);
            }
        }
    }
    Ok(())
}

/// Counts one more voucher for a pack that is not activated yet.
pub fn add_voucher(pack_set: &mut PackSet) -> (r: Result<(), PackError>)
    ensures
        old(pack_set).pack_state != PackSetState::NotActivated ==> r == Err::<(), PackError>(
            PackError::InvalidState,
        ),
        old(pack_set).pack_state == PackSetState::NotActivated && old(pack_set).pack_vouchers == u32::MAX
            ==> r == Err::<(), PackError>(PackError::MaxVouchersReached),
        r is Err ==> *final(pack_set) == *old(pack_set),
        r is Ok <==> old(pack_set).pack_state == PackSetState::NotActivated && old(pack_set).pack_vouchers
            < u32::MAX,
        r is Ok ==> {
            &&& final(pack_set).pack_vouchers == old(pack_set).pack_vouchers + 1
            &&& final(pack_set).total_weight == old(pack_set).total_weight
            &&& final(pack_set).total_editions == old(pack_set).total_editions
            &&& final(pack_set).pack_state == old(pack_set).pack_state
        },
{
    if pack_set.pack_state != PackSetState::NotActivated {
        return Err(PackError::InvalidState);
    }
    if pack_set.pack_vouchers == u32::MAX {
        return Err(PackError::MaxVouchersReached);
    }
    pack_set.pack_vouchers = pack_set.pack_vouchers + 1;
    Ok(())
}

/// Opens a pack with at least one card and one voucher for redemption, its
/// table sorted for drawing. The table and the policy are fixed from then on.
pub fn activate(pack_set: &mut PackSet, config: &mut PackConfig) -> (r: Result<(), PackError>)
    ensures
        r is Ok <==> old(pack_set).pack_state == PackSetState::NotActivated && old(config).weights@.len() > 0
            && old(pack_set).pack_vouchers > 0,
        r is Err ==> r == Err::<(), PackError>(PackError::InvalidState) && *final(pack_set) == *old(pack_set)
            && *final(config) == *old(config),
        r is Ok ==> {
            &&& final(pack_set).pack_state == PackSetState::Activated
            &&& same_policy(*final(pack_set), *old(pack_set))
            &&& final(pack_set).total_weight == old(pack_set).total_weight
            &&& final(pack_set).total_editions == old(pack_set).total_editions
            &&& final(config).weights@.to_multiset() == old(config).weights@.to_multiset()
            &&& sorted_desc(final(config).weights@)
            &&& final(config).account_type == old(config).account_type
        },
{
    if pack_set.pack_state != PackSetState::NotActivated || config.weights.len() == 0 || pack_set.pack_vouchers == 0 {
        return Err(PackError::InvalidState);
    }
    config.sort();
    pack_set.pack_state = PackSetState::Activated;
    Ok(())
}

/// Drops the entries whose value has reached zero, keeping the order of the
/// others, and sets the pack's total weight to the sum of what is left.
pub fn clean_up(pack_set: &mut PackSet, config: &mut PackConfig) -> (r: Result<(), PackError>)
    ensures
        r is Err <==> values_sum(live_entries(old(config).weights@)) > u64::MAX,
        r is Err ==> r == Err::<(), PackError>(PackError::ArithmeticError) && *final(pack_set) == *old(pack_set)
            && *final(config) == *old(config),
        r is Ok ==> {
            &&& final(config).weights@ == live_entries(old(config).weights@)
            &&& final(config).account_type == old(config).account_type
            &&& final(pack_set).total_weight == values_sum(final(config).weights@)
            &&& final(pack_set).total_editions == old(pack_set).total_editions
            &&& same_terms(*final(pack_set), *old(pack_set))
        },
{
    let ghost ws = config.weights@;
    let n = config.weights.len();
    let mut kept: Vec<(u32, u32)> = Vec::new();
    let mut i: usize = 0;
    assert(ws.subrange(0, 0) =~= Seq::<(u32, u32)>::empty());
    while i < n
        invariant
            n == ws.len(),
            ws == config.weights@,
            i <= n,
            kept@ == live_entries(ws.subrange(0, i as int)),
        decreases n - i,
    {
        let e = config.weights[i];
        assert(ws.subrange(0, i + 1).drop_last() =~= ws.subrange(0, i as int));
        assert(ws.subrange(0, i + 1).last() == e);
        if e.1 > 0 {
            kept.push(e);
        }
        i = i + 1;
    }
    assert(ws.subrange(0, n as int) =~= ws);
    let k = kept.len();
    let mut sum: u64 = 0;
    let mut j: usize = 0;
    assert(kept@.subrange(0, 0) =~= Seq::<(u32, u32)>::empty());
    while j < k
        invariant
            k == kept@.len(),
            j <= k,
            sum == values_sum(kept@.subrange(0, j as int)),
            kept@ == live_entries(ws),
            ws == old(config).weights@,
            *pack_set == *old(pack_set),
            *config == *old(config),
        decreases k - j,
    {
        assert(kept@.subrange(0, j + 1).drop_last() =~= kept@.subrange(0, j as int));
        assert(kept@.subrange(0, j + 1).last() == kept@[j as int]);
        let v = kept[j].1;
        if sum > u64::MAX - v as u64 {
            proof {
                lemma_values_sum_prefix(kept@, j + 1);
            }
            return Err(PackError::ArithmeticError);
        }
        sum = sum + v as u64;
        j = j + 1;
    }
    assert(kept@.subrange(0, k as int) =~= kept@);
    config.weights = kept;
    pack_set.total_weight = sum;
    Ok(())
}

/// A prefix sums to no more than the whole table.
pub proof fn lemma_values_sum_prefix(ws: Seq<(u32, u32)>, i: int)
    requires
        0 <= i <= ws.len(),
    ensures
        values_sum(ws.subrange(0, i)) <= values_sum(ws),
    decreases ws.len(),
{
    if i < ws.len() {
        lemma_values_sum_prefix(ws.drop_last(), i);
        assert(ws.drop_last().subrange(0, i) =~= ws.subrange(0, i));
    } else {
        assert(ws.subrange(0, i) =~= ws);
    }
}

} // verus!

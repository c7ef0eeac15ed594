use vstd::prelude::*;

use crate::error::PackError;
use crate::pack_config::{
    has_card, lemma_pick_in_table, lemma_selection_never_absent, sample_bound, selection, swap_removed,
    unique_cards, PackConfig,
};
use crate::pack_set::{active_at, same_terms, PackDistributionType, PackSet};
use crate::proving_process::{
    lemma_count_absent, lemma_count_unique, lemma_entry_le_total, lemma_push,
    lemma_swap_remove_counts, lemma_update, pending_count, pending_total, position_of,
    ProvingProcess,
};

verus! {

/// The value of an oracle's random number, and when it was published.
#[derive(Debug, Clone, Copy, PartialEq, Eq)]
pub struct RandomSnapshot {
    pub value: u16,
    pub published_at: u64,
}

/// Every value of the table is positive.
pub open spec fn positive_values(ws: Seq<(u32, u32)>) -> bool {
    forall|i: int| 0 <= i < ws.len() ==> (#[trigger] ws[i]).1 > 0
}

/// The position of the entry for `card` in a table that has one.
pub open spec fn slot_of(ws: Seq<(u32, u32)>, card: u32) -> int {
    choose|i: int| 0 <= i < ws.len() && (#[trigger] ws[i]).0 == card
}

/// A supply table after one draw of `card`: its supply down by one, and its
/// entry removed once that supply runs out.
pub open spec fn after_draw(ws: Seq<(u32, u32)>, card: u32) -> Seq<(u32, u32)> {
    let p = slot_of(ws, card);
    if ws[p].1 <= 1 {
        swap_removed(ws, p)
    } else {
        ws.update(p, (card, (ws[p].1 - 1) as u32))
    }
}

/// One draw: the card, then the table and the total weight after it.
pub open spec fn draw_outcome(ws: Seq<(u32, u32)>, total_weight: u64, rand: u16, d: PackDistributionType) -> Result<
    (u32, Seq<(u32, u32)>, u64),
    PackError,
> {
    match selection(ws, rand, total_weight) {
        Err(e) => Err(e),
        Ok(c) => if d == PackDistributionType::Fixed {
            Ok((c, ws, total_weight))
        } else {
            Ok((c, after_draw(ws, c), (total_weight - 1) as u64))
        },
    }
}

/// `n` draws in a row, each on what the one before left: the cards in the
/// order drawn, then the table and the total weight after the last.
pub open spec fn draws_outcome(
    ws: Seq<(u32, u32)>,
    total_weight: u64,
    rand: u16,
    d: PackDistributionType,
    n: nat,
) -> Result<(Seq<u32>, Seq<(u32, u32)>, u64), PackError>
    decreases n,
{
    if n == 0 {
        Ok((Seq::empty(), ws, total_weight))
    } else {
        match draws_outcome(ws, total_weight, rand, d, (n - 1) as nat) {
            Err(e) => Err(e),
            Ok(prev) => match draw_outcome(prev.1, prev.2, rand, d) {
                Err(e) => Err(e),
                Ok(next) => Ok((prev.0.push(next.0), next.1, next.2)),
            },
        }
    }
}

/// How many times `card` occurs in `cs`.
pub open spec fn times_drawn(cs: Seq<u32>, card: u32) -> int
    decreases cs.len(),
{
    if cs.len() == 0 {
        0
    } else {
        times_drawn(cs.drop_last(), card) + if cs.last() == card {
            1int
        } else {
            0
        }
    }
}

/// Once a run of draws fails, every longer run fails with the same error.
pub proof fn lemma_draws_error_stays(
    ws: Seq<(u32, u32)>,
    total_weight: u64,
    rand: u16,
    d: PackDistributionType,
    m: nat,
    n: nat,
)
    requires
        m <= n,
        draws_outcome(ws, total_weight, rand, d, m) is Err,
    ensures
        draws_outcome(ws, total_weight, rand, d, n) == draws_outcome(ws, total_weight, rand, d, m),
    decreases n - m,
{
    if m < n {
        lemma_draws_error_stays(ws, total_weight, rand, d, m, (n - 1) as nat);
    }
}

/// Under a supply policy, a card that is absent from the table (its supply
/// ran out and it was removed) is never drawn again: not by any number of
/// draws in a row, whatever the random value.
pub proof fn lemma_exhausted_card_never_drawn(
    ws: Seq<(u32, u32)>,
    total_weight: u64,
    rand: u16,
    card: u32,
    n: nat,
)
    requires
        !has_card(ws, card),
    ensures
        draws_outcome(ws, total_weight, rand, PackDistributionType::MaxSupply, n) matches Ok(o) ==> {
            &&& times_drawn(o.0, card) == 0
            &&& !has_card(o.1, card)
        },
    decreases n,
{
    if n > 0 {
        let m = (n - 1) as nat;
        lemma_exhausted_card_never_drawn(ws, total_weight, rand, card, m);
        if let Ok(prev) = draws_outcome(ws, total_weight, rand, PackDistributionType::MaxSupply, m) {
            lemma_selection_never_absent(prev.1, rand, prev.2, card);
            if let Ok(c) = selection(prev.1, rand, prev.2) {
                lemma_pick_in_table(prev.1, sample_bound(rand, prev.2));
                lemma_after_draw_keeps_absent(prev.1, c, card);
                let cs = prev.0.push(c);
                assert(cs.drop_last() =~= prev.0);
            }
        }
    }
}

/// A draw adds no card to the table.
pub proof fn lemma_after_draw_keeps_absent(ws: Seq<(u32, u32)>, drawn: u32, card: u32)
    requires
        has_card(ws, drawn),
        !has_card(ws, card),
    ensures
        !has_card(after_draw(ws, drawn), card),
{
    let p = slot_of(ws, drawn);
    let r = after_draw(ws, drawn);
    assert(0 <= p < ws.len() && ws[p].0 == drawn);
    if has_card(r, card) {
        let i = choose|i: int| 0 <= i < r.len() && (#[trigger] r[i]).0 == card;
        if ws[p].1 <= 1 {
            if i == p {
                assert(r[i] == ws[ws.len() - 1]);
            } else {
                assert(r[i] == ws[i]);
            }
        } else {
            if i != p {
                assert(r[i] == ws[i]);
            }
        }
    }
}

/// Makes one draw from `config` against `total_weight`. Under a supply policy
/// the drawn card's supply is taken down by one, and the card is removed from
/// the table once its supply runs out; a weight policy leaves both as they are.
pub fn draw_card(
    config: &mut PackConfig,
    distribution: PackDistributionType,
    total_weight: &mut u64,
    rand: u16,
) -> (r: Result<u32, PackError>)
    requires
        unique_cards(old(config).weights@),
    ensures
        r == selection(old(config).weights@, rand, *old(total_weight)),
        r is Err || distribution == PackDistributionType::Fixed ==> *final(config) == *old(config)
            && *final(total_weight) == *old(total_weight),
        final(config).account_type == old(config).account_type,
        unique_cards(final(config).weights@),
        positive_values(old(config).weights@) ==> positive_values(final(config).weights@),
        forall|c: u32| !has_card(old(config).weights@, c) ==> !has_card(#[trigger] final(config).weights@, c),
        draw_outcome(old(config).weights@, *old(total_weight), rand, distribution) matches Ok(o) ==> {
            &&& final(config).weights@ == o.1
            &&& *final(total_weight) == o.2
        },
        r is Ok && distribution == PackDistributionType::MaxSupply && old(config).weights@[slot_of(
            old(config).weights@,
            r->Ok_0,
        )].1 <= 1 ==> !has_card(final(config).weights@, r->Ok_0),
{
    let ghost ws = config.weights@;
    let card = match config.duplicate().select_weighted_random(rand, *total_weight) {
        Ok(card) => card,
        Err(e) => return Err(e),
    };
    if distribution == PackDistributionType::Fixed {
        return Ok(card);
    }
    let p = match position_of(&config.weights, card) {
        Some(p) => p,
        None => return Ok(card),
    };
    let supply = config.weights[p].1;
    proof {
        let s = slot_of(ws, card);
        assert(0 <= s < ws.len() && ws[s].0 == card);
        assert(s == p);
    }
    if supply <= 1 {
        config.remove_at(card);
        proof {
            let q = choose|q: int|
                0 <= q < ws.len() && ws[q].0 == card && config.weights@ == swap_removed(ws, q);
            assert(q == p);
            assert forall|c: u32| !has_card(ws, c) implies !has_card(#[trigger] config.weights@, c) by {
                if has_card(config.weights@, c) {
                    let e = choose|i: int| 0 <= i < config.weights@.len() && (#[trigger] config.weights@[i]).0 == c;
                    assert(config.weights@.contains(config.weights@[e]));
                }
            }
            if positive_values(ws) {
                assert forall|i: int| 0 <= i < config.weights@.len() implies (#[trigger] config.weights@[i]).1 > 0 by {
                    assert(config.weights@.contains(config.weights@[i]));
                }
            }
        }
    } else {
        config.weights.set(p, (card, supply - 1));
        proof {
            let r = config.weights@;
            assert forall|i: int, j: int|
                0 <= i < r.len() && 0 <= j < r.len() && i != j implies (#[trigger] r[i]).0 != (#[trigger] r[j]).0 by {
                assert(r[i].0 == ws[i].0 && r[j].0 == ws[j].0);
            }
            assert forall|c: u32| !has_card(ws, c) implies !has_card(#[trigger] config.weights@, c) by {
                if has_card(r, c) {
                    let e = choose|i: int| 0 <= i < r.len() && (#[trigger] r[i]).0 == c;
                    assert(r[e].0 == ws[e].0);
                }
            }
            if positive_values(ws) {
                assert forall|i: int| 0 <= i < r.len() implies (#[trigger] r[i]).1 > 0 by {
                    if i != p {
                        assert(r[i] == ws[i]);
                    }
                }
            }
        }
    }
    *total_weight = *total_weight - 1;
    Ok(card)
}

/// Records one more pending draw of `card`.
fn add_pending(pending: &mut Vec<(u32, u32)>, card: u32)
    requires
        unique_cards(old(pending)@),
        positive_values(old(pending)@),
        pending_total(old(pending)@) + 1 <= u32::MAX,
    ensures
        unique_cards(final(pending)@),
        positive_values(final(pending)@),
        pending_total(final(pending)@) == pending_total(old(pending)@) + 1,
        forall|c: u32|
            #[trigger] pending_count(final(pending)@, c) == pending_count(old(pending)@, c) + if c == card {
                1int
            } else {
                0
            },
{
    let ghost s = pending@;
    match position_of(pending, card) {
        Some(p) => {
            proof {
                lemma_entry_le_total(s, p as int);
            }
            let count = pending[p].1;
            pending.set(p, (card, count + 1));
            proof {
                lemma_update(s, p as int, (card, (count + 1) as u32));
                let r = pending@;
                assert forall|i: int, j: int|
                    0 <= i < r.len() && 0 <= j < r.len() && i != j implies (#[trigger] r[i]).0 != (#[trigger] r[j]).0 by {
                    assert(r[i].0 == s[i].0 && r[j].0 == s[j].0);
                }
                assert forall|i: int| 0 <= i < r.len() implies (#[trigger] r[i]).1 > 0 by {
                    if i != p {
                        assert(r[i] == s[i]);
                    }
                }
            }
        },
        None => {
            pending.push((card, 1));
            proof {
                lemma_push(s, (card, 1));
                let r = pending@;
                assert forall|i: int, j: int|
                    0 <= i < r.len() && 0 <= j < r.len() && i != j implies (#[trigger] r[i]).0 != (#[trigger] r[j]).0 by {
                    if i < s.len() && j < s.len() {
                        assert(r[i] == s[i] && r[j] == s[j]);
                    } else if i < s.len() {
                        assert(r[i] == s[i]);
                    } else {
                        assert(r[j] == s[j]);
                    }
                }
                assert forall|i: int| 0 <= i < r.len() implies (#[trigger] r[i]).1 > 0 by {
                    if i < s.len() {
                        assert(r[i] == s[i]);
                    }
                }
            }
        },
    }
}

/// The checks a request passes before any draw, in the order they are made.
pub open spec fn request_check(
    ps: PackSet,
    p: ProvingProcess,
    caller: u64,
    now: u64,
    random: RandomSnapshot,
    amount: u32,
) -> Result<(), PackError> {
    if caller != p.owner {
        Err(PackError::WrongVoucherOwner)
    } else if !active_at(ps, now) {
        Err(PackError::InvalidState)
    } else if random.published_at >= now {
        Err(PackError::StaleRandomness)
    } else if p.drawn() >= ps.allowed_amount_to_redeem || p.drawn() + amount > ps.allowed_amount_to_redeem {
        Err(PackError::VoucherRedeemLimitReached)
    } else if amount > ps.total_editions {
        Err(PackError::NotEnoughCards)
    } else {
        Ok(())
    }
}

/// Draws `amount` cards for the right that `process` records, at time `now`,
/// with the random value of `random`. Each draw is recorded as pending and
/// takes one edition from the pack. Either every draw is made or, on an
/// error, nothing changes.
pub fn request_card_for_redeem(
    pack_set: &mut PackSet,
    config: &mut PackConfig,
    process: &mut ProvingProcess,
    caller: u64,
    now: u64,
    random: RandomSnapshot,
    amount: u32,
) -> (r: Result<(), PackError>)
    requires
        old(process).wf(),
        unique_cards(old(config).weights@),
    ensures
        request_check(*old(pack_set), *old(process), caller, now, random, amount) is Err ==> r
            == request_check(*old(pack_set), *old(process), caller, now, random, amount),
        r is Err ==> *final(pack_set) == *old(pack_set) && *final(config) == *old(config) && *final(process)
            == *old(process),
        r is Ok ==> {
            &&& request_check(*old(pack_set), *old(process), caller, now, random, amount) is Ok
            &&& final(pack_set).total_editions == old(pack_set).total_editions - amount
            &&& final(process).drawn() == old(process).drawn() + amount
            &&& final(process).cards_redeemed == old(process).cards_redeemed
            &&& forall|c: u32|
                #[trigger] pending_count(final(process).cards_to_redeem@, c) >= pending_count(
                    old(process).cards_to_redeem@,
                    c,
                )
        },
        r is Ok && old(pack_set).distribution_type == PackDistributionType::Fixed ==> final(config).weights@
            == old(config).weights@ && final(pack_set).total_weight == old(pack_set).total_weight,
        r is Ok && old(pack_set).distribution_type == PackDistributionType::MaxSupply
            ==> final(pack_set).total_weight == old(pack_set).total_weight - amount,
        request_check(*old(pack_set), *old(process), caller, now, random, amount) is Ok ==> {
            &&& r is Ok <==> draws_outcome(
                old(config).weights@,
                old(pack_set).total_weight,
                random.value,
                old(pack_set).distribution_type,
                amount as nat,
            ) is Ok
            &&& draws_outcome(
                old(config).weights@,
                old(pack_set).total_weight,
                random.value,
                old(pack_set).distribution_type,
                amount as nat,
            ) is Err ==> r == Err::<(), PackError>(
                draws_outcome(
                    old(config).weights@,
                    old(pack_set).total_weight,
                    random.value,
                    old(pack_set).distribution_type,
                    amount as nat,
                )->Err_0,
            )
        },
        r is Ok ==> (draws_outcome(
            old(config).weights@,
            old(pack_set).total_weight,
            random.value,
            old(pack_set).distribution_type,
            amount as nat,
        ) matches Ok(o) ==> {
            &&& final(config).weights@ == o.1
            &&& final(pack_set).total_weight == o.2
            &&& forall|c: u32|
                #[trigger] pending_count(final(process).cards_to_redeem@, c) == pending_count(
                    old(process).cards_to_redeem@,
                    c,
                ) + times_drawn(o.0, c)
        }),
        request_check(*old(pack_set), *old(process), caller, now, random, amount) is Ok && amount == 0
            ==> r is Ok,
        same_terms(*final(pack_set), *old(pack_set)),
        final(pack_set).total_editions <= old(pack_set).total_editions,
        old(process).drawn() <= old(pack_set).allowed_amount_to_redeem ==> final(process).drawn()
            <= final(pack_set).allowed_amount_to_redeem,
        final(process).owner == old(process).owner,
        final(process).account_type == old(process).account_type,
        final(process).wf(),
        final(config).account_type == old(config).account_type,
        unique_cards(final(config).weights@),
        forall|c: u32| !has_card(old(config).weights@, c) ==> !has_card(#[trigger] final(config).weights@, c),
{
    if caller != process.owner {
        return Err(PackError::WrongVoucherOwner);
    }
    if !pack_set.is_active_at(now) {
        return Err(PackError::InvalidState);
    }
    if random.published_at >= now {
        return Err(PackError::StaleRandomness);
    }
    let pending_now = process.pending_sum();
    let drawn = process.cards_redeemed as u64 + pending_now as u64;
    if drawn >= pack_set.allowed_amount_to_redeem as u64 || drawn + amount as u64
        > pack_set.allowed_amount_to_redeem as u64 {
        return Err(PackError::VoucherRedeemLimitReached);
    }
    if amount as u64 > pack_set.total_editions {
        return Err(PackError::NotEnoughCards);
    }
    assert(request_check(*pack_set, *process, caller, now, random, amount) is Ok);
    let ghost old_pending = process.cards_to_redeem@;
    let ghost old_weights = config.weights@;
    let mut table = config.duplicate();
    let mut pending = ProvingProcess {
        account_type: process.account_type,
        owner: process.owner,
        cards_redeemed: process.cards_redeemed,
        cards_to_redeem: Vec::new(),
    };
    let n = process.cards_to_redeem.len();
    let mut k: usize = 0;
    while k < n
        invariant
            n == old_pending.len(),
            old_pending == process.cards_to_redeem@,
            k <= n,
            pending.cards_to_redeem@ == old_pending.subrange(0, k as int),
            pending.owner == process.owner,
            pending.account_type == process.account_type,
            pending.cards_redeemed == process.cards_redeemed,
        decreases n - k,
    {
        pending.cards_to_redeem.push(process.cards_to_redeem[k]);
        k = k + 1;
        assert(pending.cards_to_redeem@ =~= old_pending.subrange(0, k as int));
    }
    assert(pending.cards_to_redeem@ =~= old_pending);
    let mut weight = pack_set.total_weight;
    let distribution = pack_set.distribution_type;
    let mut d: u32 = 0;
    let ghost mut drawn_cards: Seq<u32> = Seq::empty();
    while d < amount
        invariant
            d <= amount,
            *pack_set == *old(pack_set),
            *process == *old(process),
            *config == *old(config),
            request_check(*old(pack_set), *old(process), caller, now, random, amount) is Ok,
            unique_cards(old_weights),
            pending.wf(),
            pending.owner == process.owner,
            pending.account_type == process.account_type,
            pending.cards_redeemed == process.cards_redeemed,
            process.cards_to_redeem@ == old_pending,
            process.wf(),
            pending.drawn() == process.drawn() + d,
            process.drawn() + amount <= pack_set.allowed_amount_to_redeem,
            distribution == pack_set.distribution_type,
            config.weights@ == old_weights,
            table.account_type == config.account_type,
            unique_cards(table.weights@),
            forall|c: u32| !has_card(old_weights, c) ==> !has_card(#[trigger] table.weights@, c),
            forall|c: u32|
                #[trigger] pending_count(pending.cards_to_redeem@, c) >= pending_count(old_pending, c),
            distribution == PackDistributionType::Fixed ==> table.weights@ == old_weights && weight
                == pack_set.total_weight,
            distribution == PackDistributionType::MaxSupply ==> weight == pack_set.total_weight - d,
            d == 0 ==> pending.cards_to_redeem@ == old_pending && table.weights@ == old_weights && weight
                == pack_set.total_weight,
            draws_outcome(old_weights, pack_set.total_weight, random.value, distribution, d as nat) == Ok::<
                (Seq<u32>, Seq<(u32, u32)>, u64),
                PackError,
            >((drawn_cards, table.weights@, weight)),
            forall|c: u32|
                #[trigger] pending_count(pending.cards_to_redeem@, c) == pending_count(old_pending, c)
                    + times_drawn(drawn_cards, c),
        decreases amount - d,
    {
        let card = match draw_card(&mut table, distribution, &mut weight, random.value) {
            Ok(card) => card,
            Err(e) => {
                proof {
                    lemma_draws_error_stays(
                        old_weights,
                        pack_set.total_weight,
                        random.value,
                        distribution,
                        (d + 1) as nat,
                        amount as nat,
                    );
                }
                return Err(e);
            },
        };
        add_pending(&mut pending.cards_to_redeem, card);
        proof {
            assert(drawn_cards.push(card).drop_last() =~= drawn_cards);
            drawn_cards = drawn_cards.push(card);
        }
        d = d + 1;
    }
    pack_set.total_editions = pack_set.total_editions - amount as u64;
    pack_set.total_weight = weight;
    config.weights = table.weights;
    process.cards_to_redeem = pending.cards_to_redeem;
    Ok(())
}

/// What `claim_pack` answers for `caller` claiming one pending draw of `card`.
pub open spec fn claim_result(p: ProvingProcess, caller: u64, card: u32) -> Result<(), PackError> {
    if caller != p.owner {
        Err(PackError::WrongVoucherOwner)
    } else if pending_count(p.cards_to_redeem@, card) == 0 {
        Err(PackError::CardAlreadyRedeemed)
    } else {
        Ok(())
    }
}

/// `new` is `old` with one pending draw of `card` moved to the claimed count.
pub open spec fn claimed(old: ProvingProcess, new: ProvingProcess, card: u32) -> bool {
    &&& new.account_type == old.account_type
    &&& new.owner == old.owner
    &&& new.cards_redeemed == old.cards_redeemed + 1
    &&& forall|c: u32|
        #[trigger] pending_count(new.cards_to_redeem@, c) == pending_count(old.cards_to_redeem@, c) - if c
            == card {
            1int
        } else {
            0
        }
}

/// Claims one pending draw of `card_index` for `caller`: on success the
/// caller may issue that card once. Ownership is checked before anything else.
pub fn claim_pack(process: &mut ProvingProcess, caller: u64, card_index: u32) -> (r: Result<(), PackError>)
    requires
        old(process).wf(),
    ensures
        r == claim_result(*old(process), caller, card_index),
        r is Err ==> *final(process) == *old(process),
        r is Ok ==> claimed(*old(process), *final(process), card_index),
        final(process).wf(),
        final(process).drawn() == old(process).drawn(),
{
    if caller != process.owner {
        return Err(PackError::WrongVoucherOwner);
    }
    let ghost s = process.cards_to_redeem@;
    let p = match position_of(&process.cards_to_redeem, card_index) {
        Some(p) => p,
        None => {
            proof {
                lemma_count_absent(s, card_index);
            }
            return Err(PackError::CardAlreadyRedeemed);
        },
    };
    proof {
        lemma_count_unique(s, p as int);
        lemma_entry_le_total(s, p as int);
    }
    let count = process.cards_to_redeem[p].1;
    if count <= 1 {
        process.cards_to_redeem.swap_remove(p);
        proof {
            lemma_swap_remove_counts(s, p as int);
            crate::pack_config::lemma_swap_removed(s, p as int);
            let r = process.cards_to_redeem@;
            assert forall|i: int| 0 <= i < r.len() implies (#[trigger] r[i]).1 > 0 by {
                if i == p {
                    assert(r[i] == s[s.len() - 1]);
                } else {
                    assert(r[i] == s[i]);
                }
            }
        }
    } else {
        process.cards_to_redeem.set(p, (card_index, count - 1));
        proof {
            lemma_update(s, p as int, (card_index, (count - 1) as u32));
            let r = process.cards_to_redeem@;
            assert forall|i: int, j: int|
                0 <= i < r.len() && 0 <= j < r.len() && i != j implies (#[trigger] r[i]).0 != (#[trigger] r[j]).0 by {
                assert(r[i].0 == s[i].0 && r[j].0 == s[j].0);
            }
            assert forall|i: int| 0 <= i < r.len() implies (#[trigger] r[i]).1 > 0 by {
                if i != p {
                    assert(r[i] == s[i]);
                }
            }
        }
    }
    process.cards_redeemed = process.cards_redeemed + 1;
    Ok(())
}

/// Once the only pending draw of a card has been claimed, claiming the same
/// card again is refused as already redeemed, and (by `claim_pack`'s
/// contract) leaves the record as it is.
pub proof fn lemma_second_claim_refused(first: ProvingProcess, second: ProvingProcess, caller: u64, card: u32)
    requires
        claim_result(first, caller, card) is Ok,
        pending_count(first.cards_to_redeem@, card) == 1,
        claimed(first, second, card),
    ensures
        claim_result(second, caller, card) == Err::<(), PackError>(PackError::CardAlreadyRedeemed),
{
    assert(pending_count(second.cards_to_redeem@, card) == 0);
}

} // verus!

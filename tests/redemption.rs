use nft_packs::account_type::AccountType;
use nft_packs::error::PackError;
use nft_packs::pack_config::PackConfig;
use nft_packs::pack_set::{PackDistributionType, PackSet, PackSetState};
use nft_packs::proving_process::ProvingProcess;
use nft_packs::redeem::{claim_pack, draw_card, request_card_for_redeem, RandomSnapshot};

const OWNER: u64 = 42;
const NOW: u64 = 1_000;

fn pack(distribution_type: PackDistributionType, total_weight: u64, total_editions: u64, allowed: u32) -> PackSet {
    PackSet {
        account_type: AccountType::PackSet,
        pack_state: PackSetState::Activated,
        distribution_type,
        allowed_amount_to_redeem: allowed,
        redeem_start_date: NOW - 10,
        redeem_end_date: Some(NOW + 100),
        pack_cards: 2,
        pack_vouchers: 1,
        total_weight,
        total_editions,
    }
}

fn table(weights: Vec<(u32, u32)>) -> PackConfig {
    PackConfig { account_type: AccountType::PackConfig, weights }
}

fn snapshot(value: u16) -> RandomSnapshot {
    RandomSnapshot { value, published_at: NOW - 1 }
}

#[test]
fn fixed_policy_request_then_claim_once() {
    let mut ps = pack(PackDistributionType::Fixed, 100, 10, 10);
    let mut cfg = table(vec![(1, 100)]);
    let mut pp = ProvingProcess::new(OWNER);
    assert_eq!(request_card_for_redeem(&mut ps, &mut cfg, &mut pp, OWNER, NOW, snapshot(65535), 1), Ok(()));
    assert_eq!(pp.pending_of(1), 1);
    assert_eq!(ps.total_editions, 9);
    assert_eq!(cfg.weights, vec![(1, 100)]);
    assert_eq!(ps.total_weight, 100);
    assert_eq!(claim_pack(&mut pp, OWNER, 1), Ok(()));
    assert_eq!(pp.cards_redeemed, 1);
    assert!(pp.cards_to_redeem.is_empty());
    let before = (pp.cards_redeemed, pp.cards_to_redeem.clone());
    assert_eq!(claim_pack(&mut pp, OWNER, 1), Err(PackError::CardAlreadyRedeemed));
    assert_eq!((pp.cards_redeemed, pp.cards_to_redeem.clone()), before);
}

#[test]
fn max_supply_runs_out_after_five() {
    let mut ps = pack(PackDistributionType::MaxSupply, 5, 5, 10);
    let mut cfg = table(vec![(1, 5)]);
    let mut pp = ProvingProcess::new(OWNER);
    for i in 0..5u32 {
        assert_eq!(request_card_for_redeem(&mut ps, &mut cfg, &mut pp, OWNER, NOW, snapshot(30000), 1), Ok(()));
        assert_eq!(claim_pack(&mut pp, OWNER, 1), Ok(()));
        assert_eq!(pp.cards_redeemed, i + 1);
        assert_eq!(ps.total_editions, 4 - i as u64);
    }
    assert!(cfg.weights.is_empty());
    assert_eq!(ps.total_weight, 0);
    assert_eq!(
        request_card_for_redeem(&mut ps, &mut cfg, &mut pp, OWNER, NOW, snapshot(30000), 1),
        Err(PackError::NotEnoughCards)
    );
    assert_eq!(pp.cards_redeemed, 5);
}

#[test]
fn claim_by_another_identity_is_refused() {
    let mut ps = pack(PackDistributionType::Fixed, 100, 10, 10);
    let mut cfg = table(vec![(1, 100)]);
    let mut pp = ProvingProcess::new(OWNER);
    request_card_for_redeem(&mut ps, &mut cfg, &mut pp, OWNER, NOW, snapshot(10), 1).unwrap();
    let before = ProvingProcess {
        account_type: pp.account_type,
        owner: pp.owner,
        cards_redeemed: pp.cards_redeemed,
        cards_to_redeem: pp.cards_to_redeem.clone(),
    };
    assert_eq!(claim_pack(&mut pp, OWNER + 1, 1), Err(PackError::WrongVoucherOwner));
    assert_eq!(pp, before);
}

#[test]
fn request_by_another_identity_is_refused() {
    let mut ps = pack(PackDistributionType::Fixed, 100, 10, 10);
    let mut cfg = table(vec![(1, 100)]);
    let mut pp = ProvingProcess::new(OWNER);
    assert_eq!(
        request_card_for_redeem(&mut ps, &mut cfg, &mut pp, 7, NOW, snapshot(10), 1),
        Err(PackError::WrongVoucherOwner)
    );
    assert_eq!(ps, pack(PackDistributionType::Fixed, 100, 10, 10));
}

#[test]
fn randomness_published_too_late_is_refused() {
    let mut ps = pack(PackDistributionType::Fixed, 100, 10, 10);
    let mut cfg = table(vec![(1, 100)]);
    let mut pp = ProvingProcess::new(OWNER);
    for published_at in [NOW, NOW + 1] {
        let r = RandomSnapshot { value: 10, published_at };
        assert_eq!(
            request_card_for_redeem(&mut ps, &mut cfg, &mut pp, OWNER, NOW, r, 1),
            Err(PackError::StaleRandomness)
        );
    }
    assert_eq!(ps, pack(PackDistributionType::Fixed, 100, 10, 10));
    assert_eq!(cfg, table(vec![(1, 100)]));
    assert_eq!(pp, ProvingProcess::new(OWNER));
}

#[test]
fn inactive_pack_is_refused() {
    let mut cfg = table(vec![(1, 100)]);
    let mut pp = ProvingProcess::new(OWNER);
    let mut ps = pack(PackDistributionType::Fixed, 100, 10, 10);
    ps.pack_state = PackSetState::NotActivated;
    assert_eq!(
        request_card_for_redeem(&mut ps, &mut cfg, &mut pp, OWNER, NOW, snapshot(1), 1),
        Err(PackError::InvalidState)
    );
    let mut ps = pack(PackDistributionType::Fixed, 100, 10, 10);
    assert_eq!(
        request_card_for_redeem(&mut ps, &mut cfg, &mut pp, OWNER, NOW + 101, snapshot(1), 1),
        Err(PackError::InvalidState)
    );
    assert_eq!(
        request_card_for_redeem(&mut ps, &mut cfg, &mut pp, OWNER, NOW - 11, RandomSnapshot { value: 1, published_at: 0 }, 1),
        Err(PackError::InvalidState)
    );
    assert!(ps.is_active_at(NOW + 100));
    assert!(!ps.is_active_at(NOW + 101));
}

#[test]
fn allowance_caps_requested_and_claimed_draws() {
    let mut ps = pack(PackDistributionType::Fixed, 100, 10, 3);
    let mut cfg = table(vec![(1, 60), (2, 40)]);
    let mut pp = ProvingProcess::new(OWNER);
    assert_eq!(request_card_for_redeem(&mut ps, &mut cfg, &mut pp, OWNER, NOW, snapshot(0), 2), Ok(()));
    assert_eq!(pp.pending_of(1), 2);
    assert_eq!(pp.pending_sum(), 2);
    assert_eq!(claim_pack(&mut pp, OWNER, 1), Ok(()));
    assert_eq!(pp.pending_of(1), 1);
    assert_eq!(
        request_card_for_redeem(&mut ps, &mut cfg, &mut pp, OWNER, NOW, snapshot(0), 2),
        Err(PackError::VoucherRedeemLimitReached)
    );
    assert_eq!(request_card_for_redeem(&mut ps, &mut cfg, &mut pp, OWNER, NOW, snapshot(65535), 1), Ok(()));
    assert_eq!(pp.pending_of(2), 1);
    assert_eq!(pp.cards_redeemed as u64 + pp.pending_sum() as u64, 3);
    assert_eq!(
        request_card_for_redeem(&mut ps, &mut cfg, &mut pp, OWNER, NOW, snapshot(0), 1),
        Err(PackError::VoucherRedeemLimitReached)
    );
    assert_eq!(ps.total_editions, 7);
}

#[test]
fn not_enough_editions_is_refused() {
    let mut ps = pack(PackDistributionType::Fixed, 100, 2, 10);
    let mut cfg = table(vec![(1, 100)]);
    let mut pp = ProvingProcess::new(OWNER);
    assert_eq!(
        request_card_for_redeem(&mut ps, &mut cfg, &mut pp, OWNER, NOW, snapshot(1), 3),
        Err(PackError::NotEnoughCards)
    );
    assert_eq!(ps.total_editions, 2);
}

#[test]
fn failed_draw_changes_nothing() {
    let mut ps = pack(PackDistributionType::MaxSupply, 0, 10, 10);
    let mut cfg = table(vec![(1, 3)]);
    let mut pp = ProvingProcess::new(OWNER);
    assert_eq!(
        request_card_for_redeem(&mut ps, &mut cfg, &mut pp, OWNER, NOW, snapshot(1), 1),
        Err(PackError::ConfigurationError)
    );
    // two draws of a single-supply card: the second finds the table empty
    let mut ps = pack(PackDistributionType::MaxSupply, 1, 10, 10);
    let mut cfg = table(vec![(1, 1)]);
    assert_eq!(
        request_card_for_redeem(&mut ps, &mut cfg, &mut pp, OWNER, NOW, snapshot(1), 2),
        Err(PackError::ConfigurationError)
    );
    assert_eq!(ps, pack(PackDistributionType::MaxSupply, 1, 10, 10));
    assert_eq!(cfg, table(vec![(1, 1)]));
    assert_eq!(pp, ProvingProcess::new(OWNER));
}

#[test]
fn exhausted_card_is_never_drawn_again() {
    let mut cfg = table(vec![(1, 3), (2, 1)]);
    let mut weight: u64 = 4;
    // 65535 reaches past the first entry onto card 2
    assert_eq!(draw_card(&mut cfg, PackDistributionType::MaxSupply, &mut weight, 65535), Ok(2));
    assert_eq!(cfg.weights, vec![(1, 3)]);
    assert_eq!(weight, 3);
    for rand in [0u16, 20000, 40000, 65535, 65535, 0] {
        let mut probe = cfg.duplicate();
        let mut w = weight;
        assert_ne!(draw_card(&mut probe, PackDistributionType::MaxSupply, &mut w, rand), Ok(2));
    }
    assert_eq!(draw_card(&mut cfg, PackDistributionType::MaxSupply, &mut weight, 0), Ok(1));
    assert_eq!(cfg.weights, vec![(1, 2)]);
    assert_eq!(weight, 2);
}

#[test]
fn fixed_draw_leaves_the_table() {
    let mut cfg = table(vec![(1, 3), (2, 1)]);
    let mut weight: u64 = 4;
    assert_eq!(draw_card(&mut cfg, PackDistributionType::Fixed, &mut weight, 65535), Ok(2));
    assert_eq!(cfg.weights, vec![(1, 3), (2, 1)]);
    assert_eq!(weight, 4);
}

#[test]
fn editions_never_grow_and_allowance_holds_over_a_sequence() {
    let mut ps = pack(PackDistributionType::MaxSupply, 6, 6, 4);
    let mut cfg = table(vec![(1, 4), (2, 2)]);
    let mut pp = ProvingProcess::new(OWNER);
    let mut last = ps.total_editions;
    let steps: [(bool, u16, u32); 8] =
        [(true, 0, 1), (false, 0, 1), (true, 65535, 2), (false, 0, 2), (true, 100, 3), (false, 0, 1), (true, 0, 1), (false, 0, 2)];
    for (is_request, value, n) in steps {
        if is_request {
            let _ = request_card_for_redeem(&mut ps, &mut cfg, &mut pp, OWNER, NOW, snapshot(value), n);
        } else {
            let _ = claim_pack(&mut pp, OWNER, n);
        }
        assert!(ps.total_editions <= last);
        last = ps.total_editions;
        assert!(pp.cards_redeemed as u64 + pp.pending_sum() as u64 <= ps.allowed_amount_to_redeem as u64);
    }
}

#[test]
fn exhausted_right_refuses_even_an_empty_request() {
    let mut ps = pack(PackDistributionType::Fixed, 100, 10, 1);
    let mut cfg = table(vec![(1, 100)]);
    let mut pp = ProvingProcess::new(OWNER);
    assert_eq!(request_card_for_redeem(&mut ps, &mut cfg, &mut pp, OWNER, NOW, snapshot(1), 0), Ok(()));
    assert_eq!(request_card_for_redeem(&mut ps, &mut cfg, &mut pp, OWNER, NOW, snapshot(1), 1), Ok(()));
    assert_eq!(
        request_card_for_redeem(&mut ps, &mut cfg, &mut pp, OWNER, NOW, snapshot(1), 0),
        Err(PackError::VoucherRedeemLimitReached)
    );
    assert_eq!(claim_pack(&mut pp, OWNER, 1), Ok(()));
    assert_eq!(
        request_card_for_redeem(&mut ps, &mut cfg, &mut pp, OWNER, NOW, snapshot(1), 0),
        Err(PackError::VoucherRedeemLimitReached)
    );
    assert_eq!(ps.total_editions, 9);
}

#[test]
fn record_is_set_up_once() {
    let mut pp = ProvingProcess {
        account_type: AccountType::Uninitialized,
        owner: 0,
        cards_redeemed: 0,
        cards_to_redeem: vec![],
    };
    assert_eq!(pp.init(OWNER), Ok(()));
    assert_eq!(pp, ProvingProcess::new(OWNER));
    let mut ps = pack(PackDistributionType::Fixed, 100, 10, 10);
    let mut cfg = table(vec![(1, 100)]);
    request_card_for_redeem(&mut ps, &mut cfg, &mut pp, OWNER, NOW, snapshot(1), 1).unwrap();
    assert_eq!(pp.init(OWNER + 1), Err(PackError::InvalidState));
    assert_eq!(pp.owner, OWNER);
    assert_eq!(pp.pending_of(1), 1);
}

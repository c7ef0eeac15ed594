use nft_packs::account_type::AccountType;
use nft_packs::error::PackError;
use nft_packs::pack_config::PackConfig;

fn table(weights: Vec<(u32, u32)>) -> PackConfig {
    PackConfig { account_type: AccountType::PackConfig, weights }
}

#[test]
fn single_card_is_always_selected() {
    for rand in [0u16, 1, 100, 32767, 32768, 65534, 65535] {
        assert_eq!(table(vec![(7, 100)]).select_weighted_random(rand, 100), Ok(7));
    }
}

#[test]
fn selection_walks_the_cumulative_weights() {
    let w = vec![(1, 50), (2, 30), (3, 20)];
    assert_eq!(table(w.clone()).select_weighted_random(0, 100), Ok(1));
    // 32767 * 100 / 65535 = 49
    assert_eq!(table(w.clone()).select_weighted_random(32767, 100), Ok(1));
    // 32768 * 100 / 65535 = 50: still within the first weight
    assert_eq!(table(w.clone()).select_weighted_random(32768, 100), Ok(1));
    // 52428 * 100 / 65535 = 80: 30 left after the first entry, within the second
    assert_eq!(table(w.clone()).select_weighted_random(52428, 100), Ok(2));
    // 55000 * 100 / 65535 = 83: 33 left, then 3 after the second entry
    assert_eq!(table(w.clone()).select_weighted_random(55000, 100), Ok(3));
    assert_eq!(table(w.clone()).select_weighted_random(65535, 100), Ok(3));
}

#[test]
fn selection_falls_back_to_the_last_entry() {
    // bound 200 exceeds every running total
    assert_eq!(table(vec![(4, 10), (9, 5)]).select_weighted_random(65535, 200), Ok(9));
}

#[test]
fn selection_always_returns_a_present_card() {
    let w = vec![(11, 40), (12, 40), (13, 15), (14, 5)];
    for rand in (0u32..=65535).step_by(257) {
        let card = table(w.clone()).select_weighted_random(rand as u16, 100).unwrap();
        assert!(w.iter().any(|e| e.0 == card));
    }
}

#[test]
fn empty_table_is_a_configuration_error() {
    assert_eq!(table(vec![]).select_weighted_random(5, 100), Err(PackError::ConfigurationError));
}

#[test]
fn zero_weight_sum_is_a_configuration_error() {
    assert_eq!(table(vec![(1, 1)]).select_weighted_random(5, 0), Err(PackError::ConfigurationError));
}

#[test]
fn oversized_bound_is_an_arithmetic_error() {
    assert_eq!(
        table(vec![(1, 1)]).select_weighted_random(65535, u64::MAX),
        Err(PackError::ArithmeticError)
    );
    // exactly u32::MAX still fits
    assert_eq!(table(vec![(1, 1)]).select_weighted_random(65535, u32::MAX as u64), Ok(1));
    assert_eq!(
        table(vec![(1, 1)]).select_weighted_random(65535, u32::MAX as u64 + 1),
        Err(PackError::ArithmeticError)
    );
}

#[test]
fn sort_orders_by_descending_value_then_index() {
    let mut c = table(vec![(1, 10), (2, 30), (3, 30), (4, 20)]);
    c.sort();
    assert_eq!(c.weights, vec![(3, 30), (2, 30), (4, 20), (1, 10)]);
    let mut e = table(vec![]);
    e.sort();
    assert!(e.weights.is_empty());
}

#[test]
fn remove_at_swaps_in_the_last_entry() {
    let mut c = table(vec![(1, 10), (2, 20), (3, 30)]);
    c.remove_at(1);
    assert_eq!(c.weights, vec![(3, 30), (2, 20)]);
    c.remove_at(8);
    assert_eq!(c.weights, vec![(3, 30), (2, 20)]);
    c.remove_at(2);
    assert_eq!(c.weights, vec![(3, 30)]);
}

#[test]
fn init_empties_the_table() {
    let mut c = PackConfig { account_type: AccountType::Uninitialized, weights: vec![(1, 2)] };
    assert!(!c.is_initialized());
    c.init();
    assert!(c.is_initialized());
    assert_eq!(c.account_type, AccountType::PackConfig);
    assert!(c.weights.is_empty());
    let other = PackConfig { account_type: AccountType::PackSet, weights: vec![] };
    assert!(!other.is_initialized());
}

#[test]
fn duplicate_keeps_everything() {
    let c = table(vec![(1, 2), (3, 4)]);
    assert_eq!(c.duplicate(), c);
}

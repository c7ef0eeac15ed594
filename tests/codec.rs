use nft_packs::account_type::AccountType;
use nft_packs::error::PackError;
use nft_packs::pack_config::PackConfig;

#[test]
fn record_encoding_is_tag_length_then_pairs() {
    let c = PackConfig { account_type: AccountType::PackConfig, weights: vec![(1, 2), (258, 65536)] };
    assert_eq!(
        c.to_bytes(),
        vec![5, 2, 0, 0, 0, 1, 0, 0, 0, 2, 0, 0, 0, 2, 1, 0, 0, 0, 0, 1, 0]
    );
    let empty = PackConfig { account_type: AccountType::Uninitialized, weights: vec![] };
    assert_eq!(empty.to_bytes(), vec![0, 0, 0, 0, 0]);
}

#[test]
fn record_decodes_from_a_padded_account() {
    let c = PackConfig { account_type: AccountType::PackConfig, weights: vec![(7, 100), (3, 1)] };
    let mut data = c.to_bytes();
    data.resize(PackConfig::LEN, 0);
    assert_eq!(PackConfig::from_bytes(&data), Ok(c));
}

#[test]
fn record_decoding_rejects_bad_input() {
    assert_eq!(PackConfig::from_bytes(&[]), Err(PackError::ConfigurationError));
    assert_eq!(PackConfig::from_bytes(&[9, 0, 0, 0, 0]), Err(PackError::ConfigurationError));
    assert_eq!(PackConfig::from_bytes(&[5, 0, 0]), Err(PackError::ConfigurationError));
    // one entry announced, only four of its eight bytes present
    assert_eq!(
        PackConfig::from_bytes(&[5, 1, 0, 0, 0, 1, 0, 0, 0]),
        Err(PackError::ConfigurationError)
    );
}

#[test]
fn account_tags_round_trip() {
    for tag in 0u8..=5 {
        assert_eq!(AccountType::from_tag(tag).unwrap().to_tag(), tag);
    }
    assert_eq!(AccountType::from_tag(6), None);
}

#[test]
fn zero_filled_account_decodes_as_uninitialized() {
    let data = [0u8; PackConfig::LEN];
    let c = PackConfig::from_bytes(&data).unwrap();
    assert_eq!(c, PackConfig { account_type: AccountType::Uninitialized, weights: vec![] });
    assert!(!c.is_initialized());
}

#[test]
fn full_table_round_trips_through_an_account() {
    let weights: Vec<(u32, u32)> = (0..50u32).map(|i| (i, 1000 - i)).collect();
    let c = PackConfig { account_type: AccountType::PackConfig, weights };
    let mut data = c.to_bytes();
    assert_eq!(data.len(), 1 + 4 + 8 * 50);
    data.resize(PackConfig::LEN, 0);
    assert_eq!(PackConfig::from_bytes(&data), Ok(c.clone()));
}

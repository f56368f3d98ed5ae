use utxoquery::amounts::{btc_string, u64_to_dec};
use utxoquery::shapes::{balance_json, rate_json, sat_add};

#[test]
fn decimal_rendering() {
    assert_eq!("0", u64_to_dec(0));
    assert_eq!("7", u64_to_dec(7));
    assert_eq!("1234567890", u64_to_dec(1234567890));
    assert_eq!("18446744073709551615", u64_to_dec(u64::MAX));
}

#[test]
fn btc_rendering_has_eight_places() {
    assert_eq!("0.00000000", btc_string(0));
    assert_eq!("0.00000001", btc_string(1));
    assert_eq!("1.00000000", btc_string(100_000_000));
    assert_eq!("1.23456789", btc_string(123_456_789));
    assert_eq!("21000000.00000000", btc_string(2_100_000_000_000_000));
}

#[test]
fn balance_amounts_add_up() {
    // The total amount field is the rendering of the summed satoshis, so a
    // reader parsing the three decimal strings sees amount = confirmed +
    // pending.
    let body = balance_json(150_000_000, 25_000_000);
    assert!(body.contains("\"confirm_amount\":\"1.50000000\""));
    assert!(body.contains("\"pending_amount\":\"0.25000000\""));
    assert!(body.contains("\"amount\":\"1.75000000\""));
    assert!(body.contains("\"coin_amount\":\"1.75000000\""));
}

#[test]
fn saturating_addition() {
    assert_eq!(5, sat_add(2, 3));
    assert_eq!(u64::MAX, sat_add(u64::MAX, 1));
    assert_eq!(u64::MAX, sat_add(u64::MAX - 1, 5));
}

#[test]
fn rate_rendering() {
    assert_eq!("12.500", rate_json(12_500));
    assert_eq!("0.000", rate_json(0));
    assert_eq!("1.001", rate_json(1_001));
}

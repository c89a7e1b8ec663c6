use quantlib::endpoints::{join_instruments, EmptyChunkError, OandaSettings};
use quantlib::instruments::get_instruments;

fn settings() -> OandaSettings {
    OandaSettings { account_id: "101-001-1234567-001".to_string(), authorization: "token".to_string() }
}

#[test]
fn instruments_are_joined_with_commas() {
    assert_eq!(join_instruments(&[]), "");
    assert_eq!(join_instruments(&["EUR_USD".to_string()]), "EUR_USD");
    let three = vec!["EUR_USD".to_string(), "USD_JPY".to_string(), "GBP_USD".to_string()];
    assert_eq!(join_instruments(&three), "EUR_USD,USD_JPY,GBP_USD");
}

#[test]
fn stream_address_names_account_and_instruments() {
    let two = vec!["EUR_USD".to_string(), "USD_JPY".to_string()];
    assert_eq!(
        settings().price_stream_url(&two),
        "https://stream-fxpractice.oanda.com/v3/accounts/101-001-1234567-001/pricing/stream?instruments=EUR_USD,USD_JPY"
    );
    assert_eq!(
        settings().latest_prices_url(&two),
        "https://api-fxpractice.oanda.com/v3/accounts/101-001-1234567-001/pricing?instruments=EUR_USD,USD_JPY"
    );
}

#[test]
fn account_addresses() {
    assert_eq!(
        settings().orders_url(),
        "https://api-fxpractice.oanda.com/v3/accounts/101-001-1234567-001/orders"
    );
    assert_eq!(
        settings().positions_url(),
        "https://api-fxpractice.oanda.com/v3/accounts/101-001-1234567-001/positions"
    );
}

#[test]
fn authorization_is_a_bearer_token() {
    assert_eq!(settings().authorization_header(), "Bearer token");
}

#[test]
fn empty_chunk_error_text() {
    let error = EmptyChunkError::new("Received empty chunk from OANDA".to_string());
    assert_eq!(error.message, "Received empty chunk from OANDA");
    assert_eq!(error.to_text(), "EmptyChunkError: Received empty chunk from OANDA");
}

#[test]
fn sixty_eight_instruments() {
    let names = get_instruments();
    assert_eq!(names.len(), 68);
    assert_eq!(names[0], "AUD_CAD");
    assert_eq!(names[29], "EUR_USD");
    assert_eq!(names[67], "ZAR_JPY");
    let mut sorted = names.clone();
    sorted.sort();
    sorted.dedup();
    assert_eq!(sorted.len(), 68);
    assert!(names.iter().all(|n| n.len() == 7 && n.as_bytes()[3] == b'_'));
}

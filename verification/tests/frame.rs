use crypto_collector::{build_frame, default_int, default_string, fetch_due, CryptoFiat, Frame};

fn quote(crypto: &str, fiat: &str, price: &str) -> CryptoFiat {
    let m = 4242.42f64.to_string();
    CryptoFiat {
        class: "5".to_string(),
        market: "CCCAGG".to_string(),
        crypto_symbol: crypto.to_string(),
        fiat_symbol: fiat.to_string(),
        flags: default_string(),
        price: price.to_string(),
        last_update: default_int(),
        last_volume_crypto: m.clone(),
        last_volume_fiat: m.clone(),
        last_trade_id: 424242,
        volume_day_crypto: m.clone(),
        volume_day_fiat: m.clone(),
        volume_24_hour_crypto: m.clone(),
        volume_24_hour_fiat: m.clone(),
        open_day: m.clone(),
        high_day: m.clone(),
        low_day: m.clone(),
        open_24_hour: m.clone(),
        high_24_hour: m.clone(),
        low_24_hour: m.clone(),
        last_market: default_string(),
        volume_hour_crypto: m.clone(),
        volume_hour_fiat: m.clone(),
        open_hour: m.clone(),
        high_hour: m.clone(),
        low_hour: m.clone(),
        change_24_hour: m.clone(),
        change_pct_24_hour: m.clone(),
        change_day: m.clone(),
        change_pct_day: m.clone(),
        supply: m.clone(),
        market_cap: m.clone(),
        total_volume_24_hour_crypto: m.clone(),
        total_volume_24_hour_fiat: m.clone(),
        image_url: default_string(),
    }
}

fn block(crypto: &str, fiat: &str, price: &str) -> (String, String, CryptoFiat) {
    (crypto.to_string(), fiat.to_string(), quote(crypto, fiat, price))
}

#[test]
fn build_frame_keys_each_pair() {
    let frame = build_frame(vec![
        block("BTC", "USD", "3576.03"),
        block("BTC", "EUR", "3140.1"),
        block("ETH", "USD", "118.2"),
    ]);
    assert_eq!(frame.len(), 3);
    let btc = frame.get("BTCandUSD").expect("no BTCandUSD quote");
    assert_eq!(btc.crypto_symbol, "BTC");
    assert_eq!(btc.fiat_symbol, "USD");
    assert_eq!(frame.get("BTCandEUR").unwrap().price, "3140.1");
    assert!(frame.get("ETHandEUR").is_none());
    assert_eq!(frame.keys(), vec!["BTCandUSD", "BTCandEUR", "ETHandUSD"]);
}

#[test]
fn build_frame_keeps_the_first_quote_of_a_pair() {
    let frame = build_frame(vec![
        block("X", "YandZ", "1"),
        block("XandY", "Z", "2"),
        block("X", "YandZ", "3"),
    ]);
    assert_eq!(frame.len(), 1);
    assert_eq!(frame.get("XandYandZ").unwrap().price, "1");
}

#[test]
fn insert_if_absent_leaves_a_present_key() {
    let mut frame = Frame::new();
    assert_eq!(frame.len(), 0);
    frame.insert_if_absent("LTCandUSD".to_string(), quote("LTC", "USD", "31.5"));
    frame.insert_if_absent("LTCandUSD".to_string(), quote("LTC", "USD", "99"));
    assert_eq!(frame.len(), 1);
    assert_eq!(frame.get("LTCandUSD").unwrap().price, "31.5");
}

#[test]
fn fetch_due_on_half_minutes() {
    assert!(fetch_due(1548299370));
    assert!(fetch_due(0));
    assert!(!fetch_due(1548299371));
    assert!(!fetch_due(1548299385));
}

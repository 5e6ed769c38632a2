use crypto_collector::{
    arrange_vec, decimal_text, default_int, default_string, pair_key, parse_i64,
    signed_decimal_text, CryptoFiat,
};

fn text(x: f64) -> String {
    x.to_string()
}

/// A quote with every field at the value the source's defaults give it.
fn missing_quote(crypto: &str, fiat: &str) -> CryptoFiat {
    let m = text(4242.42);
    CryptoFiat {
        class: default_string(),
        market: default_string(),
        crypto_symbol: crypto.to_string(),
        fiat_symbol: fiat.to_string(),
        flags: default_string(),
        price: m.clone(),
        last_update: default_int(),
        last_volume_crypto: m.clone(),
        last_volume_fiat: m.clone(),
        last_trade_id: 424242,
        volume_day_crypto: m.clone(),
        volume_day_fiat: m.clone(),
        volume_24_hour_crypto: m.clone(),
        volume_24_hour_fiat: m.clone(),
        open_day: m.clone(),
        high_day: m.clone(),
        low_day: m.clone(),
        open_24_hour: m.clone(),
        high_24_hour: m.clone(),
        low_24_hour: m.clone(),
        last_market: default_string(),
        volume_hour_crypto: m.clone(),
        volume_hour_fiat: m.clone(),
        open_hour: m.clone(),
        high_hour: m.clone(),
        low_hour: m.clone(),
        change_24_hour: m.clone(),
        change_pct_24_hour: m.clone(),
        change_day: m.clone(),
        change_pct_day: m.clone(),
        supply: m.clone(),
        market_cap: m.clone(),
        total_volume_24_hour_crypto: m.clone(),
        total_volume_24_hour_fiat: m.clone(),
        image_url: default_string(),
    }
}

/// The BTC/USD quote of the recorded frame.
fn btc_usd_quote() -> CryptoFiat {
    let mut q = missing_quote("BTC", "USD");
    q.last_update = 1548299366;
    q.price = text(3576.03);
    q.last_market = "Coinbase".to_string();
    q.volume_24_hour_crypto = text(37533.51939446323);
    q.volume_day_fiat = text(140675918.74609685);
    q.change_pct_day = text(2.3316949881989917);
    q.market_cap = text(65291977762.5);
    q.low_24_hour = text(3643.41);
    q
}

fn arrange_vec_has_29_items() -> Result<(), ()> {
    let pair = btc_usd_quote();
    let timestamp: u64 = 1548299370;
    let write_vec = arrange_vec(&pair, &timestamp);
    if write_vec.len() == 29 {
        Ok(())
    } else {
        Err(())
    }
}

fn arrange_vec_returns_valid_writevec() -> Result<(), ()> {
    let pair = btc_usd_quote();
    let timestamp: u64 = 1548299370;
    let write_vec = arrange_vec(&pair, &timestamp);
    if write_vec[0].len() == 10
        && write_vec[3] == "Coinbase"
        && write_vec[7] == "37533.51939446323"
        && write_vec[11] == "140675918.74609685"
        && write_vec[15] == "2.3316949881989917"
        && write_vec[19] == "65291977762.5"
        && write_vec[28] == "3643.41"
    {
        Ok(())
    } else {
        Err(())
    }
}

#[test]
fn arrange_vec_test_group_with_2() {
    arrange_vec_has_29_items().expect("arrange_vec returns an incorrect number of items");
    arrange_vec_returns_valid_writevec().expect("arrange_vec returns an invalid writeVEC");
}

#[test]
fn arrange_vec_orders_columns() {
    let pair = btc_usd_quote();
    let row = arrange_vec(&pair, &1548299370u64);
    assert_eq!(row[0], "1548299370");
    assert_eq!(row[1], "1548299366");
    assert_eq!(row[2], "3576.03");
    assert_eq!(row[4], "4242.42");
}

#[test]
fn arrange_vec_writes_negative_last_update() {
    let mut pair = missing_quote("ETH", "USD");
    pair.last_update = -17;
    let row = arrange_vec(&pair, &0u64);
    assert_eq!(row[0], "0");
    assert_eq!(row[1], "-17");
}

#[test]
fn decimal_text_matches_display() {
    for n in [0u64, 7, 9, 10, 42, 1000, 1548299370, u64::MAX] {
        assert_eq!(decimal_text(n), n.to_string());
    }
}

#[test]
fn signed_decimal_text_matches_display() {
    for v in [0i64, -1, 5, -10, 424242, i64::MIN, i64::MAX] {
        assert_eq!(signed_decimal_text(v), v.to_string());
    }
}

#[test]
fn parse_i64_reads_as_std_does() {
    let cases = [
        "0", "42", "+42", "-42", "", "+", "-", "4a", " 4", "+-4", "007",
        "9223372036854775807", "9223372036854775808", "-9223372036854775808",
        "-9223372036854775809", "99999999999999999999999",
    ];
    for s in cases {
        assert_eq!(parse_i64(s), s.parse::<i64>().ok(), "case {:?}", s);
    }
}

#[test]
fn decimal_parse_roundtrip() {
    for v in [0i64, 1548299370, -5, i64::MIN, i64::MAX] {
        assert_eq!(parse_i64(&signed_decimal_text(v)), Some(v));
    }
}

#[test]
fn defaults_of_missing_fields() {
    assert_eq!(default_string(), "MISSING");
    assert_eq!(default_int(), 424242);
}

#[test]
fn pair_key_joins_with_and() {
    assert_eq!(pair_key("BTC", "USD"), "BTCandUSD");
    assert_eq!(pair_key("", ""), "and");
}

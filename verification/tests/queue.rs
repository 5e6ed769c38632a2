use std::collections::HashSet;

use crypto_collector::{
    build_frame, choose_config, config_is_valid, default_config, default_int, default_string,
    queue_frames, Configuration, CryptoFiat, Frame, Queue,
};

const PAIRS: [&str; 32] = [
    "BCH", "BNB", "BTCD", "BTC", "BTG", "DASH", "DCR", "DGD", "EOS", "ETC", "ETH", "FCT", "GAS",
    "GBYTE", "GNO", "HSR", "LTC", "MAID", "MCO", "MLN", "NEO", "PART", "REP", "VEN", "VERI",
    "WAVES", "XCP", "XMR", "XRP", "XZC", "ZEC", "ZEN",
];

fn quote(crypto: &str, price: f64) -> CryptoFiat {
    let m = 4242.42f64.to_string();
    CryptoFiat {
        class: default_string(),
        market: default_string(),
        crypto_symbol: crypto.to_string(),
        fiat_symbol: "USD".to_string(),
        flags: default_string(),
        price: price.to_string(),
        last_update: default_int(),
        last_volume_crypto: m.clone(),
        last_volume_fiat: m.clone(),
        last_trade_id: 424242,
        volume_day_crypto: m.clone(),
        volume_day_fiat: m.clone(),
        volume_24_hour_crypto: m.clone(),
        volume_24_hour_fiat: m.clone(),
        open_day: m.clone(),
        high_day: m.clone(),
        low_day: m.clone(),
        open_24_hour: m.clone(),
        high_24_hour: m.clone(),
        low_24_hour: m.clone(),
        last_market: default_string(),
        volume_hour_crypto: m.clone(),
        volume_hour_fiat: m.clone(),
        open_hour: m.clone(),
        high_hour: m.clone(),
        low_hour: m.clone(),
        change_24_hour: m.clone(),
        change_pct_24_hour: m.clone(),
        change_day: m.clone(),
        change_pct_day: m.clone(),
        supply: m.clone(),
        market_cap: m.clone(),
        total_volume_24_hour_crypto: m.clone(),
        total_volume_24_hour_fiat: m.clone(),
        image_url: default_string(),
    }
}

/// The frames of the recorded database come every 30 seconds, from
/// 1548299370 on; this gives the `n`-th of them.
fn recorded_frame(n: u64) -> (Frame, u64) {
    let timestamp = 1548299370 + 30 * n;
    let blocks = PAIRS
        .iter()
        .map(|c| (c.to_string(), "USD".to_string(), quote(c, 0.1203174445 + n as f64)))
        .collect::<Vec<_>>();
    (build_frame(blocks), timestamp)
}

fn all_pairs() -> HashSet<String> {
    PAIRS.iter().map(|c| format!("{}andUSD", c)).collect()
}

fn queue_keys(queue: &Queue) -> HashSet<String> {
    queue.keys().into_iter().collect()
}

fn conf(pairs: &[&str]) -> Configuration {
    Configuration {
        pairs: pairs.iter().map(|p| p.to_string()).collect(),
        window: 60,
        interval: 60,
        path: "/agent_output/".to_string(),
    }
}

fn queue_frames_returns_all_keys() -> Result<(), ()> {
    let (frame, timestamp) = recorded_frame(0);
    let mut queue = Queue::new();
    queue = queue_frames(queue, &frame, &timestamp, None);
    if queue_keys(&queue) == all_pairs() {
        Ok(())
    } else {
        Err(())
    }
}

fn queue_frames_returns_valid_data() -> Result<(), ()> {
    let mut queue = Queue::new();
    for each in 0..2 {
        let (frame, timestamp) = recorded_frame(each);
        queue = queue_frames(queue, &frame, &timestamp, None);
    }
    let first = &queue.get("BTCandUSD").unwrap()[0][0];
    match first.parse::<u64>() {
        Err(_) => Err(()),
        Ok(_) => Ok(()),
    }
}

fn queue_frames_returns_more_than_one_vec() -> Result<(), ()> {
    let mut queue = Queue::new();
    for each in 0..4 {
        let (frame, timestamp) = recorded_frame(each);
        queue = queue_frames(queue, &frame, &timestamp, None);
    }
    if queue.get("BTCandUSD").unwrap().len() < 2 {
        Err(())
    } else {
        Ok(())
    }
}

#[test]
fn queue_frames_group_with_3() {
    queue_frames_returns_all_keys().expect("queue_frames did not return the expected keys");
    queue_frames_returns_valid_data()
        .expect("queue_frames did not return a parsable timestamp at [0][0] position");
    queue_frames_returns_more_than_one_vec().expect("queue_frames did not return multiple timesteps");
}

#[test]
fn queue_frames_survives_blank_conf_and_caps_at_defaults() {
    let mut queue = Queue::new();
    for each in 0..121 {
        let (frame, timestamp) = recorded_frame(each);
        queue = queue_frames(queue, &frame, &timestamp, None);
    }
    let rows = queue.get("BTCandUSD").unwrap();
    assert_eq!(rows.len(), 60, "the default queue length was not 60");
    let timestamp0: i64 = rows[8][0].parse().unwrap();
    let timestamp1: i64 = rows[9][0].parse().unwrap();
    assert_eq!(timestamp1 - timestamp0, 60, "the default queue interval was not 60 seconds apart");
    assert_eq!(rows[59][0], (1548299370u64 + 30 * 119).to_string());
}

#[test]
fn queue_frames_survives_invalid_conf() {
    let (frame, timestamp) = recorded_frame(0);
    let queue = queue_frames(Queue::new(), &frame, &timestamp, Some(conf(&["HAMandEGG", "BOBandMARTHA"])));
    assert_eq!(queue_keys(&queue), all_pairs());
}

#[test]
fn queue_frames_returns_pairs_specified_in_conf() {
    let (frame, timestamp) = recorded_frame(0);
    let queue = queue_frames(Queue::new(), &frame, &timestamp, Some(conf(&["LTCandUSD", "MAIDandUSD"])));
    let expect: HashSet<String> = ["LTCandUSD".to_string(), "MAIDandUSD".to_string()].into_iter().collect();
    assert_eq!(queue_keys(&queue), expect);
    assert_eq!(queue.len(), 2);
}

#[test]
fn queue_frames_skips_rows_off_the_interval() {
    // 1548299370 is not a whole minute; 1548299400 is.
    let (frame, timestamp) = recorded_frame(0);
    let queue = queue_frames(Queue::new(), &frame, &timestamp, None);
    assert_eq!(queue.get("BTCandUSD").unwrap().len(), 0);
    let (frame, timestamp) = recorded_frame(1);
    let queue = queue_frames(queue, &frame, &timestamp, None);
    let rows = queue.get("BTCandUSD").unwrap();
    assert_eq!(rows.len(), 1);
    assert_eq!(rows[0][0], "1548299400");
    assert_eq!(rows[0][2], (0.1203174445f64 + 1.0).to_string());
}

#[test]
fn queue_frames_drops_rows_off_a_new_interval() {
    // Rows taken every 30 seconds, three at most; then the interval becomes 60 seconds.
    let mut queue = Queue::new();
    for each in 0..5 {
        let (frame, timestamp) = recorded_frame(each);
        let mut c = conf(&["BTCandUSD"]);
        c.interval = 30;
        c.window = 3;
        queue = queue_frames(queue, &frame, &timestamp, Some(c));
    }
    let rows = queue.get("BTCandUSD").unwrap();
    let times: Vec<&str> = rows.iter().map(|r| r[0].as_str()).collect();
    assert_eq!(times, vec!["1548299430", "1548299460", "1548299490"]);
    let (frame, timestamp) = recorded_frame(5);
    let mut c = conf(&["BTCandUSD"]);
    c.window = 3;
    let queue = queue_frames(queue, &frame, &timestamp, Some(c));
    let rows = queue.get("BTCandUSD").unwrap();
    let times: Vec<&str> = rows.iter().map(|r| r[0].as_str()).collect();
    // The rows off the minute go, and the new row, on the minute, comes last.
    assert_eq!(timestamp, 1548299520);
    assert_eq!(times, vec!["1548299460", "1548299520"]);
}

#[test]
fn queue_frames_reads_large_timestamps_as_i64() {
    // u64::MAX - 59 read as i64 is -60, which is on the minute.
    let (frame, _) = recorded_frame(0);
    let timestamp = u64::MAX - 59;
    let queue = queue_frames(Queue::new(), &frame, &timestamp, None);
    assert_eq!(queue.get("BTCandUSD").unwrap().len(), 1);
}

#[test]
fn config_validity() {
    let (frame, _) = recorded_frame(0);
    assert!(config_is_valid(&conf(&["LTCandUSD"]), &frame));
    assert!(!config_is_valid(&conf(&[]), &frame));
    assert!(!config_is_valid(&conf(&["HAMandEGG"]), &frame));
    let mut c = conf(&["LTCandUSD"]);
    c.interval = 45;
    assert!(!config_is_valid(&c, &frame));
    let mut c = conf(&["LTCandUSD"]);
    c.interval = 0;
    assert!(!config_is_valid(&c, &frame));
    let mut c = conf(&["LTCandUSD"]);
    c.window = 0;
    assert!(!config_is_valid(&c, &frame));
    let mut c = conf(&["LTCandUSD"]);
    c.interval = 90;
    c.window = 1;
    assert!(config_is_valid(&c, &frame));
}

#[test]
fn choose_config_falls_back_to_defaults() {
    let (frame, _) = recorded_frame(0);
    let d = default_config();
    assert_eq!(d.window, 60);
    assert_eq!(d.interval, 60);
    assert_eq!(d.path, "");
    assert_eq!(d.pairs.iter().cloned().collect::<HashSet<String>>(), all_pairs());
    let c = choose_config(None, &frame);
    assert_eq!(c.pairs, d.pairs);
    let c = choose_config(Some(conf(&["HAMandEGG"])), &frame);
    assert_eq!(c.pairs, d.pairs);
    assert_eq!(c.path, "");
    let c = choose_config(Some(conf(&["LTCandUSD"])), &frame);
    assert_eq!(c.pairs, vec!["LTCandUSD".to_string()]);
    assert_eq!(c.path, "/agent_output/");
}

use std::collections::HashSet;

use crypto_collector::{
    build_frame, create_table_statement, default_int, default_string, insert_row_statement,
    notification_text, write_plan, CryptoFiat, Frame, Notify,
};
use rusqlite::Connection;

const PAIRS: [&str; 32] = [
    "BTC", "ETH", "BCH", "LTC", "EOS", "BNB", "XMR", "DASH", "VEN", "NEO", "ETC", "ZEC", "WAVES",
    "BTG", "DCR", "REP", "GNO", "MCO", "FCT", "HSR", "DGD", "XZC", "VERI", "PART", "GAS", "ZEN",
    "GBYTE", "BTCD", "MLN", "XCP", "XRP", "MAID",
];

fn quote(crypto: &str, low_24_hour: f64) -> CryptoFiat {
    let m = 4242.42f64.to_string();
    CryptoFiat {
        class: default_string(),
        market: "CCCAGG".to_string(),
        crypto_symbol: crypto.to_string(),
        fiat_symbol: "USD".to_string(),
        flags: "4".to_string(),
        price: 3576.03f64.to_string(),
        last_update: 1548299366,
        last_volume_crypto: m.clone(),
        last_volume_fiat: m.clone(),
        last_trade_id: 424242,
        volume_day_crypto: m.clone(),
        volume_day_fiat: m.clone(),
        volume_24_hour_crypto: m.clone(),
        volume_24_hour_fiat: m.clone(),
        open_day: m.clone(),
        high_day: m.clone(),
        low_day: m.clone(),
        open_24_hour: m.clone(),
        high_24_hour: m.clone(),
        low_24_hour: low_24_hour.to_string(),
        last_market: "Coinbase".to_string(),
        volume_hour_crypto: m.clone(),
        volume_hour_fiat: m.clone(),
        open_hour: m.clone(),
        high_hour: m.clone(),
        low_hour: m.clone(),
        change_24_hour: m.clone(),
        change_pct_24_hour: m.clone(),
        change_day: m.clone(),
        change_pct_day: m.clone(),
        supply: m.clone(),
        market_cap: m.clone(),
        total_volume_24_hour_crypto: m.clone(),
        total_volume_24_hour_fiat: m.clone(),
        image_url: default_string(),
    }
}

/// A frame of every requested pair against USD, as the source reports one.
fn one_frame() -> (Frame, u64) {
    let blocks = PAIRS
        .iter()
        .map(|c| (c.to_string(), "USD".to_string(), quote(c, if *c == "BTC" { 3643.41 } else { 1.5 })))
        .collect::<Vec<_>>();
    (build_frame(blocks), 1548299370)
}

/// Runs the statements that store `frame` against the database at `path`.
fn write_data(frame: &Frame, timestamp: &u64, path: &str) {
    let storage = Connection::open(path).expect("failed to open or create master");
    for statement in write_plan(frame, timestamp) {
        storage
            .execute(&statement.sql, rusqlite::params_from_iter(statement.params.iter()))
            .expect("failed to write to master");
    }
    storage.close().expect("failed to close the db");
}

fn all_pairs() -> HashSet<String> {
    PAIRS.iter().map(|c| format!("{}andUSD", c)).collect()
}

fn write_data_creates_db_when_none() -> Result<(), ()> {
    let (frame, timestamp) = one_frame();
    let path = "file:write_data_creates?mode=memory&cache=shared";
    let keep = Connection::open(path).map_err(|_| ())?;
    write_data(&frame, &timestamp, path);
    let mut statement = keep.prepare("SELECT count(*) FROM sqlite_master WHERE type='table';").unwrap();
    let n: i64 = statement.query_row([], |row| row.get(0)).map_err(|_| ())?;
    if n > 0 {
        Ok(())
    } else {
        Err(())
    }
}

fn write_data_adds_valid_tables_to_db() -> Result<(), ()> {
    let (frame, timestamp) = one_frame();
    let path = "file:write_data_tables?mode=memory&cache=shared";
    let keep = Connection::open(path).map_err(|_| ())?;
    write_data(&frame, &timestamp, path);
    let mut statement = keep.prepare("SELECT name FROM sqlite_master WHERE type='table';").unwrap();
    let table_iter = statement.query_map([], |row| row.get::<_, String>(0)).unwrap();
    let mut table_vec: HashSet<String> = HashSet::new();
    for row in table_iter {
        table_vec.insert(row.expect("row error"));
    }
    if table_vec == all_pairs() {
        Ok(())
    } else {
        Err(())
    }
}

fn write_data_adds_valid_row_to_one_table() -> Result<(), ()> {
    let (frame, timestamp) = one_frame();
    let path = "file:write_data_row?mode=memory&cache=shared";
    let keep = Connection::open(path).map_err(|_| ())?;
    write_data(&frame, &timestamp, path);
    let mut statement = keep.prepare("SELECT * FROM BTCandUSD;").unwrap();
    let row_iter = statement.query_map([], |row| row.get::<_, f64>(28)).unwrap();
    let mut result = 0.0;
    for row in row_iter {
        result = row.expect("unable to unwrap row from row_iter");
    }
    if result == 3643.41 {
        Ok(())
    } else {
        Err(())
    }
}

fn write_data_adds_valid_columns() -> Result<(), ()> {
    let (frame, timestamp) = one_frame();
    let expect_set: HashSet<&str> = [
        "timestamp", "last_update", "price", "last_market", "last_volume_crypto",
        "volume_hour_crypto", "volume_day_crypto", "volume_24_hour_crypto",
        "total_volume_24_hour_crypto", "last_volume_fiat", "volume_hour_fiat", "volume_day_fiat",
        "volume_24_hour_fiat", "total_volume_24_hour_fiat", "change_day", "change_pct_day",
        "change_24_hour", "change_pct_24_hour", "supply", "market_cap", "open_hour", "high_hour",
        "low_hour", "open_day", "high_day", "low_day", "open_24_hour", "high_24_hour",
        "low_24_hour",
    ]
    .iter()
    .cloned()
    .collect();
    let path = "file:write_data_columns?mode=memory&cache=shared";
    let keep = Connection::open(path).map_err(|_| ())?;
    write_data(&frame, &timestamp, path);
    let statement = keep.prepare("SELECT * FROM BTCandUSD;").unwrap();
    let column_set: HashSet<&str> = statement.column_names().into_iter().collect();
    if expect_set == column_set {
        Ok(())
    } else {
        Err(())
    }
}

#[test]
fn write_data_group_with_4() {
    write_data_creates_db_when_none().expect("write_data failed to create master");
    write_data_adds_valid_tables_to_db().expect("write_data failed to add tables to DB");
    write_data_adds_valid_columns().expect("write_data failed to add valid columns");
    write_data_adds_valid_row_to_one_table()
        .expect("write_data failed to add a valid row to the  first table");
}

#[test]
fn write_data_appends_a_row_per_frame() {
    let (frame, _) = one_frame();
    let path = "file:write_data_twice?mode=memory&cache=shared";
    let keep = Connection::open(path).unwrap();
    write_data(&frame, &1548299370, path);
    write_data(&frame, &1548299400, path);
    let mut statement = keep.prepare("SELECT timestamp FROM ETHandUSD;").unwrap();
    let rows: Vec<i64> = statement.query_map([], |row| row.get(0)).unwrap().map(|r| r.unwrap()).collect();
    assert_eq!(rows, vec![1548299370, 1548299400]);
}

#[test]
fn write_plan_creates_then_inserts() {
    let (frame, timestamp) = one_frame();
    let plan = write_plan(&frame, &timestamp);
    let keys = frame.keys();
    assert_eq!(plan.len(), 64);
    for (i, key) in keys.iter().enumerate() {
        assert_eq!(plan[i].sql, create_table_statement(key));
        assert!(plan[i].params.is_empty());
        assert_eq!(plan[32 + i].sql, insert_row_statement(key));
        assert_eq!(plan[32 + i].params.len(), 29);
        assert_eq!(plan[32 + i].params[0], "1548299370");
    }
    assert_eq!(keys[0], "BTCandUSD");
}

#[test]
fn statements_name_the_table() {
    let create = create_table_statement("BTCandUSD");
    assert!(create.starts_with("CREATE TABLE IF NOT EXISTS BTCandUSD (\n"));
    assert!(create.contains("timestamp              INTERGER NOT NULL,"));
    assert!(create.ends_with("low_24_hour    REAL NOT NULL\n                  )"));
    let insert = insert_row_statement("BTCandUSD");
    assert!(insert.starts_with("INSERT INTO BTCandUSD (\n"));
    assert!(insert.contains("?29\n"));
}

#[test]
fn notification_texts() {
    let cases = [
        (Notify::ChangedDB("/mnt/a".to_string()), "the DB has been changed to: /mnt/a"),
        (Notify::FirstWrite("1548299370".to_string()), "the new DB has been written to at: 1548299370"),
        (Notify::LowStorage("2 GB".to_string()), "the storage is low on this volume: 2 GB"),
        (Notify::ChangedConfig("60/60".to_string()), "the config has successfully been changed to: 60/60"),
        (
            Notify::InvalidConfig("window".to_string()),
            "reverting to previous config, new config failed to parse: window",
        ),
    ];
    for (n, text) in cases {
        assert_eq!(notification_text(&n), text);
    }
}

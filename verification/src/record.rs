//! One crypto/fiat quote of a frame, and the row that stores it.
use vstd::prelude::*;
use crate::decimal::{decimal, signed_decimal, decimal_text, signed_decimal_text};

verus! {

/// The quote of one crypto currency in one fiat currency, as the price source
/// reports it under `RAW.<crypto>.<fiat>`.
///
/// Text fields hold what the source sent, or `MISSING` where it sent nothing.
/// The quantities that the source gives as floating-point numbers are held as
/// their decimal text, as `f64`'s `Display` writes it; a missing one is
/// `4242.42`.
#[derive(Debug)]
pub struct CryptoFiat {
    pub class: String,
    pub market: String,
    pub crypto_symbol: String,
    pub fiat_symbol: String,
    pub flags: String,
    pub price: String,
    pub last_update: i64,
    pub last_volume_crypto: String,
    pub last_volume_fiat: String,
    pub last_trade_id: i64,
    pub volume_day_crypto: String,
    pub volume_day_fiat: String,
    pub volume_24_hour_crypto: String,
    pub volume_24_hour_fiat: String,
    pub open_day: String,
    pub high_day: String,
    pub low_day: String,
    pub open_24_hour: String,
    pub high_24_hour: String,
    pub low_24_hour: String,
    pub last_market: String,
    pub volume_hour_crypto: String,
    pub volume_hour_fiat: String,
    pub open_hour: String,
    pub high_hour: String,
    pub low_hour: String,
    pub change_24_hour: String,
    pub change_pct_24_hour: String,
    pub change_day: String,
    pub change_pct_day: String,
    pub supply: String,
    pub market_cap: String,
    pub total_volume_24_hour_crypto: String,
    pub total_volume_24_hour_fiat: String,
    pub image_url: String,
}

/// The value a text field takes when the source leaves it out.
pub open spec fn missing_text() -> Seq<char> {
    seq!['M', 'I', 'S', 'S', 'I', 'N', 'G']
}

/// The text a quote takes for a field that the source leaves out: `MISSING`.
pub fn default_string() -> (r: String)
    ensures
        r@ == missing_text(),
{
    let r = String::from_str("MISSING");
    proof { reveal_strlit("MISSING"); }
    r
}

/// The integer a quote takes for a field that the source leaves out.
pub fn default_int() -> (r: i64)
    ensures
        r == 424242,
{
    424242
}

/// The key of a frame for a crypto/fiat pair: the two symbols joined by `and`.
pub open spec fn pair_key_spec(crypto: Seq<char>, fiat: Seq<char>) -> Seq<char> {
    crypto + seq!['a', 'n', 'd'] + fiat
}

/// The key of a frame for a crypto/fiat pair, such as `BTCandUSD`.
pub fn pair_key(crypto: &str, fiat: &str) -> (r: String)
    ensures
        r@ == pair_key_spec(crypto@, fiat@),
{
    let mut r = String::from_str(crypto);
    proof { reveal_strlit("and"); }
    r.append("and");
    r.append(fiat);
    r
}

/// The row that stores `pair` at `timestamp`, in the order of the table's columns:
/// timestamp, last update, price, last market, the crypto volumes, the fiat
/// volumes, the changes, supply, market cap, then open/high/low by hour, day
/// and 24 hours.
pub open spec fn row_spec(pair: CryptoFiat, timestamp: u64) -> Seq<Seq<char>> {
    seq![
        decimal(timestamp as nat),
        signed_decimal(pair.last_update as int),
        pair.price@,
        pair.last_market@,
        pair.last_volume_crypto@,
        pair.volume_hour_crypto@,
        pair.volume_day_crypto@,
        pair.volume_24_hour_crypto@,
        pair.total_volume_24_hour_crypto@,
        pair.last_volume_fiat@,
        pair.volume_hour_fiat@,
        pair.volume_day_fiat@,
        pair.volume_24_hour_fiat@,
        pair.total_volume_24_hour_fiat@,
        pair.change_day@,
        pair.change_pct_day@,
        pair.change_24_hour@,
        pair.change_pct_24_hour@,
        pair.supply@,
        pair.market_cap@,
        pair.open_hour@,
        pair.high_hour@,
        pair.low_hour@,
        pair.open_day@,
        pair.high_day@,
        pair.low_day@,
        pair.open_24_hour@,
        pair.high_24_hour@,
        pair.low_24_hour@,
    ]
}

/// The text of each string of a row.
pub open spec fn row_text(row: Seq<String>) -> Seq<Seq<char>> {
    row.map_values(|s: String| s@)
}

/// The row of 29 values that stores `pair` at `timestamp`.
pub fn arrange_vec(pair: &CryptoFiat, timestamp: &u64) -> (r: Vec<String>)
    ensures
        row_text(r@) == row_spec(*pair, *timestamp),
        r@.len() == 29,
{
    let mut row: Vec<String> = Vec::new();
    row.push(decimal_text(*timestamp));
    row.push(signed_decimal_text(pair.last_update));
    row.push(pair.price.clone());
    row.push(pair.last_market.clone());
    row.push(pair.last_volume_crypto.clone());
    row.push(pair.volume_hour_crypto.clone());
    row.push(pair.volume_day_crypto.clone());
    row.push(pair.volume_24_hour_crypto.clone());
    row.push(pair.total_volume_24_hour_crypto.clone());
    row.push(pair.last_volume_fiat.clone());
    row.push(pair.volume_hour_fiat.clone());
    row.push(pair.volume_day_fiat.clone());
    row.push(pair.volume_24_hour_fiat.clone());
    row.push(pair.total_volume_24_hour_fiat.clone());
    row.push(pair.change_day.clone());
    row.push(pair.change_pct_day.clone());
    row.push(pair.change_24_hour.clone());
    row.push(pair.change_pct_24_hour.clone());
    row.push(pair.supply.clone());
    row.push(pair.market_cap.clone());
    row.push(pair.open_hour.clone());
    row.push(pair.high_hour.clone());
    row.push(pair.low_hour.clone());
    row.push(pair.open_day.clone());
    row.push(pair.high_day.clone());
    row.push(pair.low_day.clone());
    row.push(pair.open_24_hour.clone());
    row.push(pair.high_24_hour.clone());
    row.push(pair.low_24_hour.clone());
    assert(row_text(row@) =~= row_spec(*pair, *timestamp));
    row
}

} // verus!

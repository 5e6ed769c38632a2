//! The settings of the rolling window of rows, and how they are chosen.
use vstd::prelude::*;
use crate::frame::Frame;
use crate::record::CryptoFiat;

verus! {

/// The settings of the rolling window: which pairs to keep, how many rows per
/// pair, every how many seconds a row is taken, and where the rows go.
#[derive(Debug)]
pub struct Configuration {
    pub pairs: Vec<String>,
    pub window: i64,
    pub interval: i64,
    pub path: String,
}

/// The text of each pair of a list.
pub open spec fn pair_texts(pairs: Seq<String>) -> Seq<Seq<char>> {
    pairs.map_values(|p: String| p@)
}

/// The pairs kept when no valid settings are given: every pair that the
/// collector requests, each against USD.
pub open spec fn default_pairs() -> Seq<Seq<char>> {
    seq![
        "BCHandUSD"@,
        "BNBandUSD"@,
        "BTCDandUSD"@,
        "BTCandUSD"@,
        "BTGandUSD"@,
        "DASHandUSD"@,
        "DCRandUSD"@,
        "DGDandUSD"@,
        "EOSandUSD"@,
        "ETCandUSD"@,
        "ETHandUSD"@,
        "FCTandUSD"@,
        "GASandUSD"@,
        "GBYTEandUSD"@,
        "GNOandUSD"@,
        "HSRandUSD"@,
        "LTCandUSD"@,
        "MAIDandUSD"@,
        "MCOandUSD"@,
        "MLNandUSD"@,
        "NEOandUSD"@,
        "PARTandUSD"@,
        "REPandUSD"@,
        "VENandUSD"@,
        "VERIandUSD"@,
        "WAVESandUSD"@,
        "XCPandUSD"@,
        "XMRandUSD"@,
        "XRPandUSD"@,
        "XZCandUSD"@,
        "ZECandUSD"@,
        "ZENandUSD"@
    ]
}

/// The settings used when none are given or the given ones are not valid:
/// the default pairs, 60 rows, one row a minute, and no output path.
pub fn default_config() -> (r: Configuration)
    ensures
        pair_texts(r.pairs@) == default_pairs(),
        r.window == 60,
        r.interval == 60,
        r.path@ == Seq::<char>::empty(),
{
    let mut pairs: Vec<String> = Vec::new();
    pairs.push(String::from_str("BCHandUSD"));
    pairs.push(String::from_str("BNBandUSD"));
    pairs.push(String::from_str("BTCDandUSD"));
    pairs.push(String::from_str("BTCandUSD"));
    pairs.push(String::from_str("BTGandUSD"));
    pairs.push(String::from_str("DASHandUSD"));
    pairs.push(String::from_str("DCRandUSD"));
    pairs.push(String::from_str("DGDandUSD"));
    pairs.push(String::from_str("EOSandUSD"));
    pairs.push(String::from_str("ETCandUSD"));
    pairs.push(String::from_str("ETHandUSD"));
    pairs.push(String::from_str("FCTandUSD"));
    pairs.push(String::from_str("GASandUSD"));
    pairs.push(String::from_str("GBYTEandUSD"));
    pairs.push(String::from_str("GNOandUSD"));
    pairs.push(String::from_str("HSRandUSD"));
    pairs.push(String::from_str("LTCandUSD"));
    pairs.push(String::from_str("MAIDandUSD"));
    pairs.push(String::from_str("MCOandUSD"));
    pairs.push(String::from_str("MLNandUSD"));
    pairs.push(String::from_str("NEOandUSD"));
    pairs.push(String::from_str("PARTandUSD"));
    pairs.push(String::from_str("REPandUSD"));
    pairs.push(String::from_str("VENandUSD"));
    pairs.push(String::from_str("VERIandUSD"));
    pairs.push(String::from_str("WAVESandUSD"));
    pairs.push(String::from_str("XCPandUSD"));
    pairs.push(String::from_str("XMRandUSD"));
    pairs.push(String::from_str("XRPandUSD"));
    pairs.push(String::from_str("XZCandUSD"));
    pairs.push(String::from_str("ZECandUSD"));
    pairs.push(String::from_str("ZENandUSD"));
    assert(pair_texts(pairs@) =~= default_pairs());
    Configuration { pairs, window: 60, interval: 60, path: String::new() }
}

/// Settings are valid for a frame when they keep at least one row, take rows
/// on a whole number of half-minutes (at least one), name at least one pair,
/// and every pair they name is one that the frame quotes.
pub open spec fn config_valid(conf: Configuration, frame: Map<Seq<char>, CryptoFiat>) -> bool {
    &&& conf.window > 0
    &&& conf.interval >= 30
    &&& conf.interval % 30 == 0
    &&& conf.pairs@.len() > 0
    &&& forall|i: int| 0 <= i < conf.pairs@.len() ==> frame.contains_key(#[trigger] conf.pairs@[i]@)
}

/// Whether `conf` is valid for `frame` (see `config_valid`).
pub fn config_is_valid(conf: &Configuration, frame: &Frame) -> (r: bool)
    ensures
        r == config_valid(*conf, frame@),
        r == (conf.window > 0 && conf.interval >= 30 && conf.interval % 30 == 0 && conf.pairs@.len()
            > 0 && forall|i: int|
            0 <= i < conf.pairs@.len() ==> frame@.contains_key(#[trigger] conf.pairs@[i]@)),
{
    if conf.window <= 0 || conf.interval < 30 || (conf.interval as u64) % 30 != 0 || conf.pairs.len() == 0 {
        return false;
    }
    let mut i: usize = 0;
    while i < conf.pairs.len()
        invariant
            i <= conf.pairs@.len(),
            forall|j: int| 0 <= j < i ==> frame@.contains_key(#[trigger] conf.pairs@[j]@),
        decreases conf.pairs@.len() - i,
    {
        match frame.get(conf.pairs[i].as_str()) {
            Some(_) => {},
            None => {
                return false;
            },
        }
        i = i + 1;
    }
    true
}

/// The given settings are used: they parsed and are valid for the frame.
pub open spec fn uses_given(parsed: Option<Configuration>, frame: Map<Seq<char>, CryptoFiat>) -> bool {
    parsed is Some && config_valid(parsed->0, frame)
}

/// The pairs of the settings in use.
pub open spec fn chosen_pairs(parsed: Option<Configuration>, frame: Map<Seq<char>, CryptoFiat>) -> Seq<Seq<char>> {
    if uses_given(parsed, frame) { pair_texts(parsed->0.pairs@) } else { default_pairs() }
}

/// The window of the settings in use.
pub open spec fn chosen_window(parsed: Option<Configuration>, frame: Map<Seq<char>, CryptoFiat>) -> int {
    if uses_given(parsed, frame) { parsed->0.window as int } else { 60 }
}

/// The interval of the settings in use.
pub open spec fn chosen_interval(parsed: Option<Configuration>, frame: Map<Seq<char>, CryptoFiat>) -> int {
    if uses_given(parsed, frame) { parsed->0.interval as int } else { 60 }
}

/// The settings in use: the given ones where they parsed (`Some`) and are
/// valid for the frame, the default ones otherwise.
pub fn choose_config(parsed: Option<Configuration>, frame: &Frame) -> (r: Configuration)
    ensures
        uses_given(parsed, frame@) ==> r == parsed->0,
        pair_texts(r.pairs@) == chosen_pairs(parsed, frame@),
        r.window == chosen_window(parsed, frame@),
        r.interval == chosen_interval(parsed, frame@),
        !uses_given(parsed, frame@) ==> r.path@ == Seq::<char>::empty(),
        !uses_given(parsed, frame@) ==> r.window == 60 && r.interval == 60 && pair_texts(r.pairs@)
            == default_pairs(),
        r.window > 0,
        r.interval >= 30,
{
    match parsed {
        Some(conf) => {
            if config_is_valid(&conf, frame) {
                conf
            } else {
                default_config()
            }
        },
        None => default_config(),
    }
}

/// Settings that keep at least one row, take rows on a whole number of
/// half-minutes, and name at least one pair, each quoted by the frame, are the
/// settings in use, whatever the size of their window.
pub proof fn law_valid_settings_are_used(conf: Configuration, frame: Map<Seq<char>, CryptoFiat>)
    requires
        conf.window > 0,
        conf.interval >= 30,
        conf.interval % 30 == 0,
        conf.pairs@.len() > 0,
        forall|i: int| 0 <= i < conf.pairs@.len() ==> frame.contains_key(#[trigger] conf.pairs@[i]@),
    ensures
        uses_given(Some(conf), frame),
        chosen_window(Some(conf), frame) == conf.window,
        chosen_interval(Some(conf), frame) == conf.interval,
        chosen_pairs(Some(conf), frame) == pair_texts(conf.pairs@),
{
}

/// Where no settings parsed, or the given ones fail any of the conditions of
/// validity, every setting in use is the default one: 60 rows, one a minute,
/// of the default pairs. Nothing of the given settings is kept.
pub proof fn law_invalid_settings_fall_back(parsed: Option<Configuration>, frame: Map<Seq<char>, CryptoFiat>)
    requires
        parsed is None || parsed->0.window <= 0 || parsed->0.interval < 30 || parsed->0.interval % 30
            != 0 || parsed->0.pairs@.len() == 0 || exists|i: int|
            0 <= i < parsed->0.pairs@.len() && !frame.contains_key(#[trigger] parsed->0.pairs@[i]@),
    ensures
        !uses_given(parsed, frame),
        chosen_window(parsed, frame) == 60,
        chosen_interval(parsed, frame) == 60,
        chosen_pairs(parsed, frame) == default_pairs(),
{
}

} // verus!

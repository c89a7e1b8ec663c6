//! The instruments that a collecting session subscribes to.

use vstd::prelude::*;

verus! {

/// The names of the instruments, in the order of subscription.
pub open spec fn instrument_names() -> Seq<Seq<char>> {
    seq![
        "AUD_CAD"@,
        "AUD_CHF"@,
        "AUD_HKD"@,
        "AUD_JPY"@,
        "AUD_NZD"@,
        "AUD_SGD"@,
        "AUD_USD"@,
        "CAD_CHF"@,
        "CAD_HKD"@,
        "CAD_JPY"@,
        "CAD_SGD"@,
        "CHF_HKD"@,
        "CHF_JPY"@,
        "CHF_ZAR"@,
        "EUR_AUD"@,
        "EUR_CAD"@,
        "EUR_CHF"@,
        "EUR_CZK"@,
        "EUR_DKK"@,
        "EUR_GBP"@,
        "EUR_HKD"@,
        "EUR_HUF"@,
        "EUR_JPY"@,
        "EUR_NOK"@,
        "EUR_NZD"@,
        "EUR_PLN"@,
        "EUR_SEK"@,
        "EUR_SGD"@,
        "EUR_TRY"@,
        "EUR_USD"@,
        "EUR_ZAR"@,
        "GBP_AUD"@,
        "GBP_CAD"@,
        "GBP_CHF"@,
        "GBP_HKD"@,
        "GBP_JPY"@,
        "GBP_NZD"@,
        "GBP_PLN"@,
        "GBP_SGD"@,
        "GBP_USD"@,
        "GBP_ZAR"@,
        "HKD_JPY"@,
        "NZD_CAD"@,
        "NZD_CHF"@,
        "NZD_HKD"@,
        "NZD_JPY"@,
        "NZD_SGD"@,
        "NZD_USD"@,
        "SGD_CHF"@,
        "SGD_JPY"@,
        "TRY_JPY"@,
        "USD_CAD"@,
        "USD_CHF"@,
        "USD_CNH"@,
        "USD_CZK"@,
        "USD_DKK"@,
        "USD_HKD"@,
        "USD_HUF"@,
        "USD_JPY"@,
        "USD_MXN"@,
        "USD_NOK"@,
        "USD_PLN"@,
        "USD_SEK"@,
        "USD_SGD"@,
        "USD_THB"@,
        "USD_TRY"@,
        "USD_ZAR"@,
        "ZAR_JPY"@,
    ]
}

/// The views of a run of names.
pub open spec fn name_views(names: Seq<String>) -> Seq<Seq<char>> {
    names.map_values(|n: String| n@)
}

/// The instruments to subscribe to.
pub fn get_instruments() -> (names: Vec<String>)
    ensures
        name_views(names@) == instrument_names(),
        names@.len() == 68,
{
    let mut names: Vec<String> = Vec::new();
    names.push("AUD_CAD".to_owned());
    names.push("AUD_CHF".to_owned());
    names.push("AUD_HKD".to_owned());
    names.push("AUD_JPY".to_owned());
    names.push("AUD_NZD".to_owned());
    names.push("AUD_SGD".to_owned());
    names.push("AUD_USD".to_owned());
    names.push("CAD_CHF".to_owned());
    names.push("CAD_HKD".to_owned());
    names.push("CAD_JPY".to_owned());
    names.push("CAD_SGD".to_owned());
    names.push("CHF_HKD".to_owned());
    names.push("CHF_JPY".to_owned());
    names.push("CHF_ZAR".to_owned());
    names.push("EUR_AUD".to_owned());
    names.push("EUR_CAD".to_owned());
    names.push("EUR_CHF".to_owned());
    names.push("EUR_CZK".to_owned());
    names.push("EUR_DKK".to_owned());
    names.push("EUR_GBP".to_owned());
    names.push("EUR_HKD".to_owned());
    names.push("EUR_HUF".to_owned());
    names.push("EUR_JPY".to_owned());
    names.push("EUR_NOK".to_owned());
    names.push("EUR_NZD".to_owned());
    names.push("EUR_PLN".to_owned());
    names.push("EUR_SEK".to_owned());
    names.push("EUR_SGD".to_owned());
    names.push("EUR_TRY".to_owned());
    names.push("EUR_USD".to_owned());
    names.push("EUR_ZAR".to_owned());
    names.push("GBP_AUD".to_owned());
    names.push("GBP_CAD".to_owned());
    names.push("GBP_CHF".to_owned());
    names.push("GBP_HKD".to_owned());
    names.push("GBP_JPY".to_owned());
    names.push("GBP_NZD".to_owned());
    names.push("GBP_PLN".to_owned());
    names.push("GBP_SGD".to_owned());
    names.push("GBP_USD".to_owned());
    names.push("GBP_ZAR".to_owned());
    names.push("HKD_JPY".to_owned());
    names.push("NZD_CAD".to_owned());
    names.push("NZD_CHF".to_owned());
    names.push("NZD_HKD".to_owned());
    names.push("NZD_JPY".to_owned());
    names.push("NZD_SGD".to_owned());
    names.push("NZD_USD".to_owned());
    names.push("SGD_CHF".to_owned());
    names.push("SGD_JPY".to_owned());
    names.push("TRY_JPY".to_owned());
    names.push("USD_CAD".to_owned());
    names.push("USD_CHF".to_owned());
    names.push("USD_CNH".to_owned());
    names.push("USD_CZK".to_owned());
    names.push("USD_DKK".to_owned());
    names.push("USD_HKD".to_owned());
    names.push("USD_HUF".to_owned());
    names.push("USD_JPY".to_owned());
    names.push("USD_MXN".to_owned());
    names.push("USD_NOK".to_owned());
    names.push("USD_PLN".to_owned());
    names.push("USD_SEK".to_owned());
    names.push("USD_SGD".to_owned());
    names.push("USD_THB".to_owned());
    names.push("USD_TRY".to_owned());
    names.push("USD_ZAR".to_owned());
    names.push("ZAR_JPY".to_owned());
    proof {
        assert(name_views(names@) =~= instrument_names());
    }
    names
}

} // verus!

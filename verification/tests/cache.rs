use unit_converter::conversion_cache::{
    anchor, judge_reply, plan_request, raw_rate, CacheError, ConversionResponse,
    ExpiringConversionCache, ALL_CURRENCIES,
};
use unit_converter::rates::{RateEntry, RateTable};

fn entry(code: &str, rate: u64) -> RateEntry {
    RateEntry { code: code.to_string(), rate }
}

fn reply(base: &str, rates: Vec<RateEntry>) -> ConversionResponse {
    ConversionResponse {
        base: base.to_string(),
        date: "2023-05-01".to_string(),
        rates,
        success: true,
        timestamp: 1_682_899_200,
    }
}

fn dollar_reply() -> ConversionResponse {
    reply(
        "USD",
        vec![entry("USD", 1_000_000), entry("EUR", 900_000), entry("GBP", 800_000)],
    )
}

#[test]
fn new_cache_is_empty_and_keeps_its_time() {
    let cache = ExpiringConversionCache::new(17);
    assert_eq!(cache.last_updated(), 17);
    assert_eq!(cache.get_conversion_table().to_entries().len(), 0);
    assert_eq!(cache.get_conversion_table().get("USD"), None);
}

#[test]
fn refresh_replaces_the_table_and_sets_the_time() {
    let mut cache = ExpiringConversionCache::new(0);
    assert_eq!(cache.populate(Ok(dollar_reply()), 42), Ok(()));
    assert_eq!(cache.last_updated(), 42);
    let table = cache.get_conversion_table();
    assert_eq!(table.get("USD"), Some(1_000_000));
    assert_eq!(table.get("EUR"), Some(900_000));
    assert_eq!(table.get("GBP"), Some(800_000));
    assert_eq!(table.get("JPY"), None);
    assert_eq!(table.to_entries().len(), 3);
}

#[test]
fn refresh_drops_codes_that_the_reply_lacks() {
    let mut cache = ExpiringConversionCache::new(0);
    assert!(cache.add("CHF", 910_000));
    assert_eq!(cache.populate(Ok(dollar_reply()), 1), Ok(()));
    assert_eq!(cache.get_conversion_table().get("CHF"), None);
}

#[test]
fn refresh_anchors_to_the_dollar_and_keeps_the_rate_of_the_base() {
    // Rates per euro: the dollar at 1.25, the pound at 0.5.
    let response = reply(
        "EUR",
        vec![entry("EUR", 1_000_000), entry("USD", 1_250_000), entry("GBP", 500_000)],
    );
    let mut cache = ExpiringConversionCache::new(0);
    assert_eq!(cache.populate(Ok(response), 5), Ok(()));
    let table = cache.get_conversion_table();
    // The declared base keeps the rate that the reply gave it.
    assert_eq!(table.get("EUR"), Some(1_000_000));
    // Every other code is divided by the dollar's rate.
    assert_eq!(table.get("USD"), Some(1_000_000));
    assert_eq!(table.get("GBP"), Some(400_000));
}

#[test]
fn base_rate_overrides_the_anchored_one() {
    let response = reply("GBP", vec![entry("USD", 2_000_000), entry("GBP", 3_000_000)]);
    let mut cache = ExpiringConversionCache::new(0);
    assert_eq!(cache.populate(Ok(response), 5), Ok(()));
    let table = cache.get_conversion_table();
    assert_eq!(table.get("GBP"), Some(3_000_000));
    assert_eq!(table.get("USD"), Some(1_000_000));
}

#[test]
fn anchored_rates_round_to_the_nearest_millionth() {
    assert_eq!(anchor(1_000_000, 3_000_000), Some(333_333));
    assert_eq!(anchor(2_000_000, 3_000_000), Some(666_667));
    assert_eq!(anchor(1, 2), Some(500_000));
    assert_eq!(anchor(900_000, 1_000_000), Some(900_000));
}

#[test]
fn rates_that_cannot_be_anchored_are_refused() {
    assert_eq!(anchor(0, 1_000_000), None);
    assert_eq!(anchor(1_000_000, 0), None);
    assert_eq!(anchor(1, 3_000_000), None);
    assert_eq!(anchor(u64::MAX, 1), None);
    assert_eq!(anchor(u64::MAX, 1_000_000), Some(u64::MAX));
}

#[test]
fn later_rate_of_a_code_given_twice_counts() {
    let rates = vec![entry("EUR", 1), entry("USD", 2), entry("EUR", 3)];
    assert_eq!(raw_rate(&rates, "EUR"), Some(3));
    assert_eq!(raw_rate(&rates, "USD"), Some(2));
    assert_eq!(raw_rate(&rates, "GBP"), None);
}

fn filled_cache() -> ExpiringConversionCache {
    let mut cache = ExpiringConversionCache::new(0);
    assert_eq!(cache.populate(Ok(dollar_reply()), 100), Ok(()));
    cache
}

fn assert_unchanged(cache: &ExpiringConversionCache) {
    assert_eq!(cache.last_updated(), 100);
    let snapshot = cache.read();
    assert_eq!(snapshot.last_updated, 100);
    assert_eq!(snapshot.table.to_entries().len(), 3);
    assert_eq!(snapshot.table.get("USD"), Some(1_000_000));
    assert_eq!(snapshot.table.get("EUR"), Some(900_000));
    assert_eq!(snapshot.table.get("GBP"), Some(800_000));
}

#[test]
fn failed_fetch_leaves_the_cache_untouched() {
    let failures = [
        CacheError::ConfigurationMissing,
        CacheError::TransportFailure,
        CacheError::UpstreamRejected(503),
        CacheError::DecodeFailure,
    ];
    for failure in failures {
        let mut cache = filled_cache();
        assert_eq!(cache.populate(Err(failure), 200), Err(failure));
        assert_unchanged(&cache);
    }
}

#[test]
fn reply_without_the_dollar_leaves_the_cache_untouched() {
    let mut cache = filled_cache();
    let response = reply("EUR", vec![entry("EUR", 1_000_000), entry("GBP", 500_000)]);
    assert_eq!(cache.populate(Ok(response), 200), Err(CacheError::DecodeFailure));
    assert_unchanged(&cache);
}

#[test]
fn reply_without_its_base_leaves_the_cache_untouched() {
    let mut cache = filled_cache();
    let response = reply("EUR", vec![entry("USD", 1_000_000), entry("GBP", 500_000)]);
    assert_eq!(cache.populate(Ok(response), 200), Err(CacheError::DecodeFailure));
    assert_unchanged(&cache);
}

#[test]
fn reply_with_a_rate_of_zero_leaves_the_cache_untouched() {
    let mut cache = filled_cache();
    let response = reply(
        "USD",
        vec![entry("USD", 1_000_000), entry("JPY", 110_000_000), entry("GBP", 0)],
    );
    assert_eq!(cache.populate(Ok(response), 200), Err(CacheError::DecodeFailure));
    assert_unchanged(&cache);
}

#[test]
fn fill_cache_reports_an_unusable_reply() {
    let mut cache = filled_cache();
    let response = reply("USD", vec![]);
    assert_eq!(cache.fill_cache(&response, 200), Err(CacheError::DecodeFailure));
    assert_unchanged(&cache);
    assert_eq!(cache.fill_cache(&dollar_reply(), 300), Ok(()));
    assert_eq!(cache.last_updated(), 300);
}

#[test]
fn two_reads_agree() {
    let cache = filled_cache();
    let first = cache.read();
    let second = cache.read();
    assert_eq!(first.last_updated, second.last_updated);
    let mut left: Vec<(String, u64)> =
        first.table.to_entries().into_iter().map(|e| (e.code, e.rate)).collect();
    let mut right: Vec<(String, u64)> =
        second.table.to_entries().into_iter().map(|e| (e.code, e.rate)).collect();
    left.sort();
    right.sort();
    assert_eq!(left, right);
    assert_eq!(
        left,
        vec![
            ("EUR".to_string(), 900_000),
            ("GBP".to_string(), 800_000),
            ("USD".to_string(), 1_000_000)
        ]
    );
}

#[test]
fn snapshot_outlives_a_refresh() {
    let mut cache = filled_cache();
    let before = cache.read();
    let response = reply("USD", vec![entry("USD", 1_000_000), entry("EUR", 950_000)]);
    assert_eq!(cache.populate(Ok(response), 500), Ok(()));
    assert_eq!(before.last_updated, 100);
    assert_eq!(before.table.get("EUR"), Some(900_000));
    assert_eq!(before.table.get("GBP"), Some(800_000));
    let after = cache.read();
    assert_eq!(after.last_updated, 500);
    assert_eq!(after.table.get("EUR"), Some(950_000));
    assert_eq!(after.table.get("GBP"), None);
}

#[test]
fn add_sets_one_rate_and_refuses_zero() {
    let mut cache = ExpiringConversionCache::new(9);
    assert!(cache.add("EUR", 900_000));
    assert!(cache.add("EUR", 910_000));
    assert!(!cache.add("EUR", 0));
    assert!(!cache.add("GBP", 0));
    assert_eq!(cache.get_conversion_table().get("EUR"), Some(910_000));
    assert_eq!(cache.get_conversion_table().get("GBP"), None);
    assert_eq!(cache.last_updated(), 9);
}

#[test]
fn table_insert_replaces_and_refuses_zero() {
    let mut table = RateTable::new();
    assert!(table.to_entries().is_empty());
    assert!(table.insert("USD", 1_000_000));
    assert!(table.insert("EUR", 900_000));
    assert!(table.insert("USD", 1_100_000));
    assert!(!table.insert("JPY", 0));
    assert!(table.contains("USD"));
    assert!(!table.contains("JPY"));
    assert!(!table.contains("usd"));
    assert_eq!(table.get("USD"), Some(1_100_000));
    assert_eq!(table.to_entries().len(), 2);
    let copy = table.snapshot();
    assert!(table.insert("EUR", 1));
    assert_eq!(copy.get("EUR"), Some(900_000));
}

#[test]
fn request_needs_a_key() {
    assert_eq!(plan_request(None).err(), Some(CacheError::ConfigurationMissing));
    let request = plan_request(Some("k3y".to_string())).unwrap();
    assert_eq!(request.url, "https://api.apilayer.com/exchangerates_data/latest");
    assert_eq!(request.api_key, "k3y");
    assert_eq!(request.base, "USD");
    assert_eq!(request.symbols, ALL_CURRENCIES);
    assert_eq!(request.symbols.split(',').count(), 152);
    assert!(request.symbols.split(',').any(|c| c == "USD"));
}

#[test]
fn reply_is_judged_by_status_then_by_body() {
    assert_eq!(judge_reply(404, Some(dollar_reply())).err(), Some(CacheError::UpstreamRejected(404)));
    assert_eq!(judge_reply(199, None).err(), Some(CacheError::UpstreamRejected(199)));
    assert_eq!(judge_reply(300, None).err(), Some(CacheError::UpstreamRejected(300)));
    assert_eq!(judge_reply(200, None).err(), Some(CacheError::DecodeFailure));
    assert_eq!(judge_reply(299, None).err(), Some(CacheError::DecodeFailure));
    let judged = judge_reply(200, Some(dollar_reply())).ok().unwrap();
    assert_eq!(judged.base, "USD");
    assert_eq!(judged.rates.len(), 3);
}

#[test]
fn refresh_errors_have_their_texts() {
    assert_eq!(
        CacheError::ConfigurationMissing.message(),
        "Error getting conversion rates: Couldn't get the API key from the environment variable"
    );
    assert_eq!(
        CacheError::TransportFailure.message(),
        "Error getting conversion rates: Couldn't send the request"
    );
    assert_eq!(
        CacheError::UpstreamRejected(503).message(),
        "Error getting conversion rates: HTTP request failed with 503, couldn't get conversion"
    );
    assert_eq!(
        CacheError::DecodeFailure.message(),
        "Error getting conversion rates: Couldn't read the JSON response properly"
    );
}

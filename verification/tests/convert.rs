use unit_converter::command::{Reply, TCommand};
use unit_converter::conversion::{answer, conversion, convert};
use unit_converter::currency::{
    calc_cached_conversions_usd_base, convert_amounts, create_cached_conversions, cross, header,
    push_trailer, targets,
};
use unit_converter::rates::RateTable;
use unit_converter::scheduler::{after_refresh, REFRESH_PERIOD_SECS};
use unit_converter::conversion_cache::{CacheError, CacheSnapshot};
use unit_converter::unit::{ConvertError, Unit, UnitType};

fn small_table() -> RateTable {
    let mut table = RateTable::new();
    table.insert("USD", 1_000_000);
    table.insert("EUR", 900_000);
    table.insert("GBP", 800_000);
    table
}

fn snapshot_at(last_updated: u64) -> CacheSnapshot {
    CacheSnapshot { table: small_table(), last_updated }
}

fn empty_snapshot() -> CacheSnapshot {
    CacheSnapshot { table: RateTable::new(), last_updated: 0 }
}

fn amount(base: &str, value: i64) -> Unit {
    Unit { base: base.to_string(), value }
}

#[test]
fn hundred_dollars_end_to_end() {
    let out = convert("100 USD", &snapshot_at(0), Some("USD,EUR,GBP"), 0).unwrap();
    assert_eq!(out, "100 USD is\n90.000 EUR\n80.000 GBP\nlast updated 0h 0m 0s ago");
    assert!(!out.contains(" USD\n"));
}

#[test]
fn own_currency_is_never_listed() {
    for base in ["USD", "EUR", "GBP"] {
        let list = convert_amounts(&amount(base, 1_000_000), &small_table(), "USD,EUR,GBP,USD,EUR")
            .unwrap();
        assert!(!list.is_empty());
        assert!(list.iter().all(|c| c.code != base));
    }
}

#[test]
fn targets_keep_the_order_and_the_repeats() {
    assert_eq!(targets("USD,EUR,GBP", "EUR"), vec!["USD", "GBP"]);
    assert_eq!(targets("EUR,USD,EUR,GBP,GBP", "EUR"), vec!["USD", "GBP", "GBP"]);
    assert_eq!(targets("USD", "USD"), Vec::<String>::new());
    assert_eq!(targets("", "USD"), vec![""]);
    assert_eq!(targets("USD,", "USD"), vec![""]);
    assert_eq!(targets(",USD,,EUR", "JPY"), vec!["", "USD", "", "EUR"]);
}

#[test]
fn cross_rate_goes_through_the_dollar() {
    // 100 EUR at 0.9 to GBP at 0.8: 100 / 0.9 * 0.8 = 88.888...
    assert_eq!(cross(100_000_000, 900_000, 800_000), 88_889);
    // 1 EUR to USD: 1 / 0.9 = 1.111...
    assert_eq!(cross(1_000_000, 900_000, 1_000_000), 1_111);
    // 1 USD to JPY at 110.
    assert_eq!(cross(1_000_000, 1_000_000, 110_000_000), 110_000);
    assert_eq!(cross(0, 900_000, 800_000), 0);
}

#[test]
fn cross_rate_rounds_to_the_nearest_thousandth() {
    assert_eq!(cross(1_499, 1_000_000, 1_000_000), 1);
    assert_eq!(cross(1_500, 1_000_000, 1_000_000), 2);
    assert_eq!(cross(499, 1_000_000, 1_000_000), 0);
    assert_eq!(cross(500, 1_000_000, 1_000_000), 1);
    assert_eq!(cross(-499, 1_000_000, 1_000_000), 0);
    assert_eq!(cross(-500, 1_000_000, 1_000_000), 0);
    assert_eq!(cross(-501, 1_000_000, 1_000_000), -1);
    assert_eq!(cross(-1_500, 1_000_000, 1_000_000), -1);
    assert_eq!(cross(-1_501, 1_000_000, 1_000_000), -2);
}

#[test]
fn cross_rate_takes_the_largest_amounts() {
    assert_eq!(cross(i64::MAX, 1, u64::MAX), 170_141_183_460_469_231_704_017_187_605_319_778);
    assert_eq!(cross(i64::MIN, 1, u64::MAX), -170_141_183_460_469_231_722_463_931_679_029_330);
    assert_eq!(cross(i64::MAX, u64::MAX, 1), 0);
}

#[test]
fn conversion_of_a_negative_amount() {
    let out = create_cached_conversions(&amount("USD", -2_500_000), &small_table(), "EUR,GBP", 61)
        .unwrap();
    assert_eq!(out, "-2.5 USD is\n-2.250 EUR\n-2.000 GBP\nlast updated 0h 1m 1s ago");
}

#[test]
fn missing_base_currency_is_named() {
    let out = create_cached_conversions(&amount("CHF", 1_000_000), &small_table(), "USD,EUR", 0);
    assert_eq!(out, Err(ConvertError::BaseCurrencyNotFound("CHF".to_string())));
    assert_eq!(
        out.unwrap_err().message(),
        "Couldn't find the base currency CHF in the conversion table"
    );
}

#[test]
fn first_missing_target_is_named_and_nothing_is_converted() {
    let out =
        create_cached_conversions(&amount("USD", 1_000_000), &small_table(), "EUR,JPY,GBP,RUB", 0);
    assert_eq!(out, Err(ConvertError::CurrencyNotFound("JPY".to_string())));
    assert_eq!(
        out.unwrap_err().message(),
        "Couldn't find the currency JPY in the conversion table"
    );
    let list = convert_amounts(&amount("USD", 1_000_000), &small_table(), "EUR,JPY,GBP,RUB");
    assert!(matches!(list, Err(ConvertError::CurrencyNotFound(code)) if code == "JPY"));
}

#[test]
fn missing_base_is_reported_before_a_missing_target() {
    let out = create_cached_conversions(&amount("CHF", 1_000_000), &small_table(), "JPY,EUR", 0);
    assert_eq!(out, Err(ConvertError::BaseCurrencyNotFound("CHF".to_string())));
}

#[test]
fn empty_table_knows_no_currency() {
    let out = convert("5 EUR", &empty_snapshot(), Some("USD,EUR"), 0);
    assert_eq!(out, Err(ConvertError::BaseCurrencyNotFound("EUR".to_string())));
}

#[test]
fn symbols_and_lower_case_reach_the_table() {
    let snapshot = snapshot_at(0);
    let expected = "10 USD is\n9.000 EUR\n8.000 GBP\nlast updated 0h 0m 0s ago";
    assert_eq!(convert("10 $", &snapshot, Some("USD,EUR,GBP"), 0).unwrap(), expected);
    assert_eq!(convert("$10", &snapshot, Some("USD,EUR,GBP"), 0).unwrap(), expected);
    assert_eq!(convert("10 usd", &snapshot, Some("USD,EUR,GBP"), 0).unwrap(), expected);
    assert_eq!(convert("10US$", &snapshot, Some("USD,EUR,GBP"), 0).unwrap(), expected);
    assert_eq!(
        convert("9€", &snapshot, Some("USD,EUR,GBP"), 0).unwrap(),
        "9 EUR is\n10.000 USD\n8.000 GBP\nlast updated 0h 0m 0s ago"
    );
}

#[test]
fn age_is_broken_into_hours_minutes_and_seconds() {
    let cases: [(u64, &str); 7] = [
        (0, "last updated 0h 0m 0s ago"),
        (59, "last updated 0h 0m 59s ago"),
        (60, "last updated 0h 1m 0s ago"),
        (3_599, "last updated 0h 59m 59s ago"),
        (3_600, "last updated 1h 0m 0s ago"),
        (3_725, "last updated 1h 2m 5s ago"),
        (90_061, "last updated 25h 1m 1s ago"),
    ];
    for (elapsed, expected) in cases {
        let mut out = String::new();
        push_trailer(&mut out, elapsed);
        assert_eq!(out, expected);
    }
    let mut out = String::from("x");
    push_trailer(&mut out, u64::MAX);
    assert_eq!(out, "xlast updated 5124095576030431h 0m 15s ago");
}

#[test]
fn header_shows_the_amount_as_it_was_given() {
    assert_eq!(header(&amount("USD", 100_000_000)), "100 USD is\n");
    assert_eq!(header(&amount("kg", 1_500_000)), "1.5 kg is\n");
    assert_eq!(header(&amount("kg", 250_000)), "0.25 kg is\n");
    assert_eq!(header(&amount("kg", 1)), "0.000001 kg is\n");
    assert_eq!(header(&amount("kg", 1_000_010)), "1.00001 kg is\n");
    assert_eq!(header(&amount("kg", 0)), "0 kg is\n");
    assert_eq!(header(&amount("K", -273_150_000)), "-273.15 K is\n");
    assert_eq!(header(&amount("x", i64::MAX)), "9223372036854.775807 x is\n");
    assert_eq!(header(&amount("x", i64::MIN)), "-9223372036854.775808 x is\n");
}

#[test]
fn units_are_classified_by_name() {
    let cases: [(&str, UnitType); 26] = [
        ("kg", UnitType::Weight),
        ("g", UnitType::Weight),
        ("lb", UnitType::Weight),
        ("lbs", UnitType::Weight),
        ("oz", UnitType::Weight),
        ("st", UnitType::Weight),
        ("m", UnitType::Length),
        ("cm", UnitType::Length),
        ("in", UnitType::Length),
        ("ft", UnitType::Length),
        ("yd", UnitType::Length),
        ("mi", UnitType::Length),
        ("°C", UnitType::Temperature),
        ("°F", UnitType::Temperature),
        ("K", UnitType::Temperature),
        ("L", UnitType::Volume),
        ("l", UnitType::Volume),
        ("gal", UnitType::Volume),
        ("galUK", UnitType::Volume),
        ("galUS", UnitType::Volume),
        ("pt", UnitType::Volume),
        ("USD", UnitType::Currency),
        ("KG", UnitType::Currency),
        ("mm", UnitType::Currency),
        ("barrel", UnitType::Currency),
        ("", UnitType::Currency),
    ];
    for (name, family) in cases {
        assert_eq!(amount(name, 1).extract_unit_type(), family);
    }
}

#[test]
fn other_families_do_not_read_the_table() {
    let out = convert("1 kg", &empty_snapshot(), None, 7).unwrap();
    assert_eq!(out, "1 kg is\n2.205 lb\n35.274 oz\n0.157 st\n");
    let unit = amount("ft", 1_000_000);
    assert_eq!(
        unit.convert(&empty_snapshot(), None, 0).unwrap(),
        "1 ft is\n0.305 m\n30.480 cm\n304.800 mm\n12.000 in\n0.333 yd\n"
    );
}

#[test]
fn parse_errors_pass_through() {
    let snapshot = snapshot_at(0);
    assert_eq!(convert("kg", &snapshot, Some("USD"), 0), Err(ConvertError::MissingValue));
    assert_eq!(convert("42", &snapshot, Some("USD"), 0), Err(ConvertError::MissingUnit));
    assert_eq!(
        convert("99999999999999999999 kg", &snapshot, Some("USD"), 0),
        Err(ConvertError::ValueOutOfRange)
    );
    assert_eq!(
        convert("99999999999999999999", &snapshot, Some("USD"), 0),
        Err(ConvertError::MissingUnit)
    );
    assert_eq!(convert("1 kg 1.2.3", &snapshot, Some("USD"), 0), Err(ConvertError::MissingValue));
}

#[test]
fn every_outcome_comes_to_a_text() {
    assert_eq!(answer(Ok("fine".to_string())), "fine");
    assert_eq!(answer(Err(ConvertError::MissingValue)), "Missing value, no numbers?");
    assert_eq!(answer(Err(ConvertError::MissingUnit)), "Missing unit, no letters?");
    assert_eq!(
        answer(Err(ConvertError::ValueOutOfRange)),
        "Value out of range, too many digits?"
    );
    let snapshot = snapshot_at(0);
    assert_eq!(conversion("kg", &snapshot, Some("USD,EUR"), 0), "Missing value, no numbers?");
    assert_eq!(conversion("7", &snapshot, Some("USD,EUR"), 0), "Missing unit, no letters?");
    assert_eq!(
        conversion("7 chf", &snapshot, Some("USD,EUR"), 0),
        "Couldn't find the base currency CHF in the conversion table"
    );
    assert_eq!(
        conversion("7 usd", &snapshot, Some("USD,EUR,JPY"), 0),
        "Couldn't find the currency JPY in the conversion table"
    );
    assert_eq!(
        conversion("7 usd", &snapshot, Some("USD,EUR"), 3_600),
        "7 USD is\n6.300 EUR\nlast updated 1h 0m 0s ago"
    );
}

#[test]
fn commands_get_their_replies() {
    let snapshot = snapshot_at(0);
    assert_eq!(
        unit_converter::command::answer(TCommand::Help, &snapshot, Some("USD,EUR"), 0),
        Reply::Descriptions
    );
    assert_eq!(
        unit_converter::command::answer(TCommand::Dice("6".to_string()), &snapshot, Some("USD,EUR"), 0),
        Reply::Dice
    );
    let text = "2 EUR is\n2.222 USD\nlast updated 0h 0m 1s ago".to_string();
    assert_eq!(
        unit_converter::command::answer(
            TCommand::Convert("2 eur".to_string()),
            &snapshot,
            Some("USD,EUR"),
            1
        ),
        Reply::Message(text.clone())
    );
    assert_eq!(
        unit_converter::command::answer(TCommand::C("2 eur".to_string()), &snapshot, Some("USD,EUR"), 1),
        Reply::Message(text)
    );
    assert_eq!(
        unit_converter::command::answer(TCommand::C("".to_string()), &snapshot, Some("USD,EUR"), 1),
        Reply::Message("Missing value, no numbers?".to_string())
    );
}

#[test]
fn schedule_goes_on_after_a_failure() {
    assert_eq!(REFRESH_PERIOD_SECS, 12 * 3600);
    let fine = after_refresh(Ok(()));
    assert_eq!(fine.wait_secs, 43_200);
    assert_eq!(fine.report, None);
    let failed = after_refresh(Err(CacheError::TransportFailure));
    assert_eq!(failed.wait_secs, 43_200);
    assert_eq!(
        failed.report,
        Some("Error getting conversion rates: Couldn't send the request".to_string())
    );
}

#[test]
fn currencies_need_the_list_of_supported_ones() {
    let snapshot = snapshot_at(0);
    assert_eq!(convert("5 EUR", &snapshot, None, 0), Err(ConvertError::ConfigurationMissing));
    assert_eq!(convert("5 CHF", &snapshot, None, 0), Err(ConvertError::ConfigurationMissing));
    assert_eq!(
        calc_cached_conversions_usd_base(&amount("USD", 1), &snapshot, None, 0),
        Err(ConvertError::ConfigurationMissing)
    );
    assert_eq!(
        conversion("5 EUR", &snapshot, None, 0),
        "Couldn't get the supported currencies from the environment variable"
    );
    assert_eq!(
        ConvertError::ConfigurationMissing.message(),
        "Couldn't get the supported currencies from the environment variable"
    );
    assert_eq!(convert("kg", &snapshot, None, 0), Err(ConvertError::MissingValue));
    assert_eq!(
        convert("2 st", &snapshot, None, 0).unwrap(),
        "2 st is\n12.701 kg\n12700.580 g\n28.000 lb\n448.000 oz\n"
    );
}

#[test]
fn age_runs_from_the_refresh_of_the_snapshot() {
    let snapshot = snapshot_at(100);
    assert_eq!(snapshot.age(100), 0);
    assert_eq!(snapshot.age(3_825), 3_725);
    assert_eq!(snapshot.age(99), 0);
    assert_eq!(snapshot.age(0), 0);
    assert_eq!(snapshot.age(u64::MAX), u64::MAX - 100);
    assert_eq!(
        calc_cached_conversions_usd_base(&amount("USD", 2_000_000), &snapshot, Some("EUR"), 3_825)
            .unwrap(),
        "2 USD is\n1.800 EUR\nlast updated 1h 2m 5s ago"
    );
    assert_eq!(
        convert("2 USD", &snapshot, Some("EUR"), 160).unwrap(),
        "2 USD is\n1.800 EUR\nlast updated 0h 1m 0s ago"
    );
    assert_eq!(
        convert("2 USD", &snapshot, Some("EUR"), 7).unwrap(),
        "2 USD is\n1.800 EUR\nlast updated 0h 0m 0s ago"
    );
}

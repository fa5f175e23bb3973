use unit_converter::currency::accommodate_symbols;
use unit_converter::fixed::div_round;
use unit_converter::text::{
    from_chars, magnitude, push_amount, push_milli, push_nat, push_padded, push_trimmed,
    same_chars, same_text, split, to_chars,
};
use unit_converter::unit::{
    classify, decimal_value, find_point, read_amount, Classified, ConvertError, Unit,
};

fn normalized(symbol: &str) -> String {
    accommodate_symbols(&Unit { base: symbol.to_string(), value: 1_000_000 }).base
}

#[test]
fn dollar_signs_mean_dollars() {
    for symbol in ["$", "US$", "USD$", "$US", "$USD"] {
        assert_eq!(normalized(symbol), "USD");
    }
}

#[test]
fn other_symbols_mean_their_currencies() {
    assert_eq!(normalized("€"), "EUR");
    assert_eq!(normalized("EURO"), "EUR");
    assert_eq!(normalized("£"), "GBP");
    assert_eq!(normalized("£GBP"), "GBP");
    assert_eq!(normalized("GBP£"), "GBP");
    assert_eq!(normalized("¥"), "JPY");
    assert_eq!(normalized("₽"), "RUB");
    assert_eq!(normalized("A$"), "AUD");
    assert_eq!(normalized("AU$"), "AUD");
}

#[test]
fn other_tokens_go_to_upper_case() {
    assert_eq!(normalized("usd"), "USD");
    assert_eq!(normalized("Eur"), "EUR");
    assert_eq!(normalized("CHF"), "CHF");
    assert_eq!(normalized("euro"), "EURO");
    assert_eq!(normalized("us$"), "US$");
    assert_eq!(normalized("zł"), "ZŁ");
    assert_eq!(normalized("straße"), "STRASSE");
    assert_eq!(normalized(""), "");
}

#[test]
fn normalizing_keeps_the_amount() {
    let unit = accommodate_symbols(&Unit { base: "$".to_string(), value: -7 });
    assert_eq!(unit.value, -7);
}

#[test]
fn texts_split_at_every_separator() {
    assert_eq!(split("USD,EUR,GBP", ','), vec!["USD", "EUR", "GBP"]);
    assert_eq!(split("USD", ','), vec!["USD"]);
    assert_eq!(split("", ','), vec![""]);
    assert_eq!(split(",", ','), vec!["", ""]);
    assert_eq!(split("a,,b,", ','), vec!["a", "", "b", ""]);
    assert_eq!(split("€;£", ';'), vec!["€", "£"]);
    assert_eq!(split("a,b", ';'), vec!["a,b"]);
}

#[test]
fn split_pieces_join_to_the_text() {
    for text in ["", ",", "USD,EUR", ",a,,b,"] {
        assert_eq!(split(text, ',').join(","), text);
        assert!(split(text, ',').iter().all(|piece| !piece.contains(',')));
    }
}

#[test]
fn texts_and_characters_convert_both_ways() {
    assert_eq!(to_chars("a€1"), vec!['a', '€', '1']);
    assert_eq!(to_chars(""), Vec::<char>::new());
    assert_eq!(from_chars(&vec!['°', 'C']), "°C");
    assert_eq!(from_chars(&Vec::new()), "");
}

#[test]
fn texts_compare_by_their_characters() {
    assert!(same_text("kg", "kg"));
    assert!(same_text("", ""));
    assert!(!same_text("kg", "k"));
    assert!(!same_text("kg", "kG"));
    assert!(!same_text("€", "$"));
    assert!(same_chars(&vec!['a', 'b'], &vec!['a', 'b']));
    assert!(!same_chars(&vec!['a', 'b'], &vec!['b', 'a']));
    assert!(!same_chars(&vec!['a'], &vec![]));
}

#[test]
fn naturals_in_decimal() {
    let cases: [(u128, &str); 6] = [
        (0, "0"),
        (7, "7"),
        (10, "10"),
        (907, "907"),
        (1_000_000, "1000000"),
        (u128::MAX, "340282366920938463463374607431768211455"),
    ];
    for (n, expected) in cases {
        let mut out = String::from("n=");
        push_nat(&mut out, n);
        assert_eq!(out, format!("n={}", expected));
    }
}

#[test]
fn padded_and_trimmed_digits() {
    let mut out = String::new();
    push_padded(&mut out, 7, 3);
    assert_eq!(out, "007");
    push_padded(&mut out, 12_345, 3);
    assert_eq!(out, "007345");
    push_padded(&mut out, 5, 0);
    assert_eq!(out, "007345");
    let mut out = String::new();
    push_trimmed(&mut out, 500_000, 6);
    assert_eq!(out, "5");
    push_trimmed(&mut out, 1_230, 6);
    assert_eq!(out, "500123");
    push_trimmed(&mut out, 0, 6);
    assert_eq!(out, "500123");
    push_trimmed(&mut out, 1, 6);
    assert_eq!(out, "500123000001");
}

#[test]
fn thousandths_have_three_decimals() {
    let cases: [(i128, &str); 9] = [
        (0, "0.000"),
        (1, "0.001"),
        (-1, "-0.001"),
        (999, "0.999"),
        (1_000, "1.000"),
        (90_000, "90.000"),
        (-17_778, "-17.778"),
        (i128::MAX, "170141183460469231731687303715884105.727"),
        (i128::MIN, "-170141183460469231731687303715884105.728"),
    ];
    for (v, expected) in cases {
        let mut out = String::new();
        push_milli(&mut out, v);
        assert_eq!(out, expected);
    }
}

#[test]
fn millionths_have_the_decimals_they_need() {
    let cases: [(i64, &str); 8] = [
        (0, "0"),
        (1_000_000, "1"),
        (1_500_000, "1.5"),
        (-1_500_000, "-1.5"),
        (123_456_789, "123.456789"),
        (100, "0.0001"),
        (-100, "-0.0001"),
        (1_000_000_000, "1000"),
    ];
    for (v, expected) in cases {
        let mut out = String::new();
        push_amount(&mut out, v);
        assert_eq!(out, expected);
    }
}

#[test]
fn sizes_of_signed_numbers() {
    assert_eq!(magnitude(0), 0);
    assert_eq!(magnitude(5), 5);
    assert_eq!(magnitude(-5), 5);
    assert_eq!(magnitude(i128::MAX), i128::MAX as u128);
    assert_eq!(magnitude(i128::MIN), 1u128 << 127);
}

#[test]
fn division_rounds_to_the_nearest() {
    let cases: [(i128, i128, i128); 16] = [
        (i128::MIN, 1, i128::MIN),
        (i128::MIN, 2, i128::MIN / 2),
        (i128::MIN, 3, -56_713_727_820_156_410_577_229_101_238_628_035_243),
        (i128::MIN, i128::MAX, -1),
        (7, 2, 4),
        (-7, 2, -3),
        (6, 2, 3),
        (-6, 2, -3),
        (1, 3, 0),
        (2, 3, 1),
        (-1, 3, 0),
        (-2, 3, -1),
        (0, 5, 0),
        (i128::MAX, 1, i128::MAX),
        (i128::MAX, i128::MAX, 1),
        (i128::MIN + 1, 1, i128::MIN + 1),
    ];
    for (n, d, expected) in cases {
        assert_eq!(div_round(n, d), expected);
    }
}

#[test]
fn numbers_keep_six_decimals() {
    let cases: [(&str, i64); 10] = [
        ("0 kg", 0),
        ("0.5 kg", 500_000),
        (".5 kg", 500_000),
        ("5. kg", 5_000_000),
        ("3.14159 kg", 3_141_590),
        ("0.000001 kg", 1),
        ("0.0000019 kg", 1),
        ("1.9999999 kg", 1_999_999),
        ("007 kg", 7_000_000),
        ("9223372036854.775807 kg", i64::MAX),
    ];
    for (text, expected) in cases {
        assert_eq!(Unit::parse(text).unwrap().value, expected);
    }
}

#[test]
fn numbers_beyond_the_range_are_refused() {
    for text in ["9223372036854.775808 kg", "9223372036855 kg", "123456789012345678901234567890 kg"]
    {
        assert_eq!(Unit::parse(text).err(), Some(ConvertError::ValueOutOfRange));
    }
}

#[test]
fn texts_without_a_number_miss_their_value() {
    for text in ["kg", "", "   ", ",,,", ". kg", "1.2.3 kg", "1..2 kg", "٣ kg", "½ kg", "x"] {
        assert_eq!(Unit::parse(text).err(), Some(ConvertError::MissingValue));
    }
}

#[test]
fn texts_without_a_unit_miss_their_unit() {
    for text in ["42", "1", " , , , 1", "1,000", "4 2", "42\t", "42\n", "\u{a0}42"] {
        assert_eq!(Unit::parse(text).err(), Some(ConvertError::MissingUnit));
    }
}

#[test]
fn number_and_unit_come_in_any_order() {
    let unit = Unit::parse("kg 5").unwrap();
    assert_eq!((unit.base.as_str(), unit.value), ("kg", 5_000_000));
    let unit = Unit::parse("$12.50").unwrap();
    assert_eq!((unit.base.as_str(), unit.value), ("$", 12_500_000));
    let unit = Unit::parse("1 000 000 EUR").unwrap();
    assert_eq!((unit.base.as_str(), unit.value), ("EUR", 1_000_000_000_000));
    let unit = Unit::parse("-5°C").unwrap();
    assert_eq!((unit.base.as_str(), unit.value), ("-°C", 5_000_000));
    let unit = Unit::parse("1k2g").unwrap();
    assert_eq!((unit.base.as_str(), unit.value), ("kg", 12_000_000));
}

#[test]
fn a_second_number_ends_the_amount() {
    let unit = Unit::parse("10 kg 20 lb").unwrap();
    assert_eq!((unit.base.as_str(), unit.value), ("kg", 10_000_000));
    let unit = Unit::parse("10 kg,20").unwrap();
    assert_eq!((unit.base.as_str(), unit.value), ("kg", 10_000_000));
    let unit = Unit::parse("1,000 kg , .5 lb").unwrap();
    assert_eq!((unit.base.as_str(), unit.value), ("kg", 1_000_000_000));
    let unit = Unit::parse("1 kg 99999999999999999999 kg").unwrap();
    assert_eq!((unit.base.as_str(), unit.value), ("kg", 1_000_000));
}

#[test]
fn without_a_second_number_the_whole_text_is_the_amount() {
    let unit = Unit::parse("1 k g").unwrap();
    assert_eq!((unit.base.as_str(), unit.value), ("kg", 1_000_000));
    let unit = Unit::parse("10 kg,x").unwrap();
    assert_eq!((unit.base.as_str(), unit.value), ("kgx", 10_000_000));
    let unit = Unit::parse("5 US dollars").unwrap();
    assert_eq!((unit.base.as_str(), unit.value), ("USdollars", 5_000_000));
    let unit = Unit::parse("-5 °C").unwrap();
    assert_eq!((unit.base.as_str(), unit.value), ("-°C", 5_000_000));
    let unit = Unit::parse("$1,000").unwrap();
    assert_eq!((unit.base.as_str(), unit.value), ("$", 1_000_000_000));
    let unit = Unit::parse("kg 1 lb").unwrap();
    assert_eq!((unit.base.as_str(), unit.value), ("kglb", 1_000_000));
    let unit = Unit::parse("1kg2").unwrap();
    assert_eq!((unit.base.as_str(), unit.value), ("kg", 12_000_000));
    let unit = Unit::parse(". kg 5").unwrap();
    assert_eq!((unit.base.as_str(), unit.value), ("kg", 500_000));
    let unit = Unit::parse("1 \t 2 kg").unwrap();
    assert_eq!((unit.base.as_str(), unit.value), ("\tkg", 12_000_000));
}

#[test]
fn errors_go_by_the_whole_text() {
    for text in ["1 kg 1.2.3", "5kg 1.2.3", "1.5 kg .5", "1 kg ٣"] {
        assert_eq!(Unit::parse(text).err(), Some(ConvertError::MissingValue));
    }
    assert_eq!(Unit::parse("99999999999999999999").err(), Some(ConvertError::MissingUnit));
    assert_eq!(Unit::parse("1.2.3").err(), Some(ConvertError::MissingValue));
    assert_eq!(Unit::parse("99999999999999999999 kg").err(), Some(ConvertError::ValueOutOfRange));
    assert_eq!(
        Unit::parse("99999999999999999999 kg 1").err(),
        Some(ConvertError::ValueOutOfRange)
    );
}

#[test]
fn classes_decide_what_is_read() {
    let plain = |ch: char| Classified { ch, numeric: false, whitespace: false };
    let digit = |ch: char| Classified { ch, numeric: true, whitespace: false };
    let unit = read_amount(&vec![digit('7'), plain(' '), plain('k'), plain('g')]).unwrap();
    assert_eq!((unit.base.as_str(), unit.value), ("kg", 7_000_000));
    // A letter taken for numeric goes to the number, which is then no decimal number.
    assert_eq!(
        read_amount(&vec![digit('7'), digit('k'), plain('g')]).err(),
        Some(ConvertError::MissingValue)
    );
    // A digit not taken for numeric goes to the unit.
    let unit = read_amount(&vec![digit('7'), plain('8'), plain('g')]).unwrap();
    assert_eq!((unit.base.as_str(), unit.value), ("8g", 7_000_000));
    // A unit of whitespace alone is no unit.
    let blank = Classified { ch: '\t', numeric: false, whitespace: true };
    assert_eq!(read_amount(&vec![digit('7'), blank]).err(), Some(ConvertError::MissingUnit));
    assert_eq!(read_amount(&Vec::new()).err(), Some(ConvertError::MissingValue));
    assert_eq!(classify("1 k"), vec![
        digit('1'),
        Classified { ch: ' ', numeric: false, whitespace: true },
        plain('k'),
    ]);
}

#[test]
fn decimal_numbers_and_their_points() {
    let chars = |s: &str| s.chars().collect::<Vec<char>>();
    assert_eq!(find_point(&chars("12.5")), Some(2));
    assert_eq!(find_point(&chars("125")), Some(3));
    assert_eq!(find_point(&chars(".5")), Some(0));
    assert_eq!(find_point(&chars("5.")), Some(1));
    assert_eq!(find_point(&chars(".")), None);
    assert_eq!(find_point(&chars("")), None);
    assert_eq!(find_point(&chars("1.2.3")), None);
    assert_eq!(find_point(&chars("1a")), None);
    assert_eq!(decimal_value(&chars("12.5")), Some(12_500_000));
    assert_eq!(decimal_value(&chars("0.1234567")), Some(123_456));
    assert_eq!(decimal_value(&chars("9223372036854.775807")), Some(i64::MAX));
    assert_eq!(decimal_value(&chars("9223372036854.775808")), None);
}

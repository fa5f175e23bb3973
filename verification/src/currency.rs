//! Currency conversion: an amount in one currency is converted to every
//! other supported currency by way of the rates anchored to the dollar.

use crate::conversion_cache::{age_at, CacheSnapshot};
use crate::fixed::{div_round, lemma_round_div_nearest, round_div};
use crate::rates::RateTable;
use crate::text::{
    amount_text, milli_text, nat_text, push_amount, push_char, push_milli, push_nat, same_text,
    split, split_on, texts, to_uppercase, uppercase_of,
};
use crate::unit::{ConvertError, Unit};
use vstd::prelude::*;
use vstd::string::StringExecFns;

verus! {

/// An amount, in thousandths, of the currency named by `code`.
pub struct Conversion {
    pub code: String,
    pub amount: i128,
}

/// The code that a currency symbol or alias stands for; any other text in
/// upper case.
pub open spec fn normalized_code(base: Seq<char>) -> Seq<char> {
    if base == "€"@ || base == "EURO"@ {
        "EUR"@
    } else if base == "$"@ || base == "$USD"@ || base == "USD$"@ || base == "US$"@ || base
        == "$US"@ {
        "USD"@
    } else if base == "£"@ || base == "£GBP"@ || base == "GBP£"@ {
        "GBP"@
    } else if base == "¥"@ {
        "JPY"@
    } else if base == "₽"@ {
        "RUB"@
    } else if base == "A$"@ || base == "AU$"@ {
        "AUD"@
    } else {
        uppercase_of(base)
    }
}

/// The same amount under the code that its symbol or alias stands for.
pub fn accommodate_symbols(unit: &Unit) -> (named: Unit)
    ensures
        named.base@ == normalized_code(unit.base@),
        named.value == unit.value,
{
    let given = unit.base.as_str();
    let base = if same_text(given, "€") || same_text(given, "EURO") {
        String::from_str("EUR")
    } else if same_text(given, "$") || same_text(given, "$USD") || same_text(given, "USD$")
        || same_text(given, "US$") || same_text(given, "$US") {
        String::from_str("USD")
    } else if same_text(given, "£") || same_text(given, "£GBP") || same_text(given, "GBP£") {
        String::from_str("GBP")
    } else if same_text(given, "¥") {
        String::from_str("JPY")
    } else if same_text(given, "₽") {
        String::from_str("RUB")
    } else if same_text(given, "A$") || same_text(given, "AU$") {
        String::from_str("AUD")
    } else {
        to_uppercase(given)
    };
    Unit { base, value: unit.value }
}

/// The pieces that differ from `base`, in their order.
pub open spec fn without(pieces: Seq<Seq<char>>, base: Seq<char>) -> Seq<Seq<char>>
    decreases pieces.len(),
{
    if pieces.len() == 0 {
        Seq::<Seq<char>>::empty()
    } else if pieces.last() == base {
        without(pieces.drop_last(), base)
    } else {
        without(pieces.drop_last(), base).push(pieces.last())
    }
}

/// The currencies to convert to: the comma-separated supported ones but the
/// currency of the amount itself.
pub open spec fn target_codes(supported: Seq<char>, base: Seq<char>) -> Seq<Seq<char>> {
    without(split_on(supported, ','), base)
}

/// The first of the codes for which the table has no rate.
pub open spec fn first_missing(table: Map<Seq<char>, u64>, codes: Seq<Seq<char>>) -> Option<
    Seq<char>,
>
    decreases codes.len(),
{
    if codes.len() == 0 {
        None
    } else if !table.contains_key(codes[0]) {
        Some(codes[0])
    } else {
        first_missing(table, codes.drop_first())
    }
}

/// An amount in millionths of one currency as thousandths of another:
/// `value / base_rate * target_rate`, rounded to the nearest thousandth.
pub open spec fn cross_rate(value: int, base_rate: int, target_rate: int) -> int {
    round_div(value * target_rate, base_rate * 1000)
}

/// A list of conversions as pairs of a code and an amount.
pub open spec fn rows_of(list: Seq<Conversion>) -> Seq<(Seq<char>, int)> {
    Seq::new(list.len(), |i: int| (list[i].code@, list[i].amount as int))
}

/// The conversion of `value` of `base` to each of the codes, in their order.
pub open spec fn converted(
    value: int,
    base: Seq<char>,
    table: Map<Seq<char>, u64>,
    codes: Seq<Seq<char>>,
) -> Seq<(Seq<char>, int)> {
    Seq::new(
        codes.len(),
        |i: int| (codes[i], cross_rate(value, table[base] as int, table[codes[i]] as int)),
    )
}

/// The first line of a reply: the amount and its unit.
pub open spec fn header_text(value: int, base: Seq<char>) -> Seq<char> {
    amount_text(value).push(' ') + base + " is\n"@
}

/// One line of a reply: an amount with three decimals and its unit.
pub open spec fn line_text(amount: int, code: Seq<char>) -> Seq<char> {
    (milli_text(amount).push(' ') + code).push('\n')
}

/// The lines of a list of amounts.
pub open spec fn lines_text(rows: Seq<(Seq<char>, int)>) -> Seq<char>
    decreases rows.len(),
{
    if rows.len() == 0 {
        Seq::<char>::empty()
    } else {
        lines_text(rows.drop_last()) + line_text(rows.last().1, rows.last().0)
    }
}

/// The last line of a reply: the age of the rates in hours, minutes and
/// seconds.
pub open spec fn trailer_text(elapsed: nat) -> Seq<char> {
    "last updated "@ + nat_text(elapsed / 60 / 60) + "h "@ + nat_text(elapsed / 60 % 60) + "m "@
        + nat_text(elapsed % 60) + "s ago"@
}

/// The whole reply to a currency conversion.
pub open spec fn report_text(
    value: int,
    base: Seq<char>,
    rows: Seq<(Seq<char>, int)>,
    elapsed: nat,
) -> Seq<char> {
    header_text(value, base) + lines_text(rows) + trailer_text(elapsed)
}

/// Whether `out` is the outcome of converting `value` of `base`: the reply
/// where the table has a rate for `base` and for every currency to convert
/// to, else the error that names `base` or the first such currency without
/// a rate.
pub open spec fn is_conversion_outcome(
    out: Result<String, ConvertError>,
    value: int,
    base: Seq<char>,
    table: Map<Seq<char>, u64>,
    supported: Seq<char>,
    elapsed: nat,
) -> bool {
    match out {
        Ok(report) => {
            &&& table.contains_key(base)
            &&& first_missing(table, target_codes(supported, base)) is None
            &&& report@ == report_text(
                value,
                base,
                converted(value, base, table, target_codes(supported, base)),
                elapsed,
            )
        },
        Err(ConvertError::BaseCurrencyNotFound(code)) => {
            &&& !table.contains_key(base)
            &&& code@ == base
        },
        Err(ConvertError::CurrencyNotFound(code)) => {
            &&& table.contains_key(base)
            &&& first_missing(table, target_codes(supported, base)) == Some(code@)
        },
        Err(_) => false,
    }
}

/// The currency of the amount is never among the currencies converted to.
pub proof fn lemma_without_excludes(pieces: Seq<Seq<char>>, base: Seq<char>)
    ensures
        forall|i: int| 0 <= i < without(pieces, base).len() ==> without(pieces, base)[i] != base,
        forall|i: int|
            0 <= i < without(pieces, base).len() ==> pieces.contains(
                #[trigger] without(pieces, base)[i],
            ),
        forall|k: int|
            0 <= k < pieces.len() && pieces[k] != base ==> without(pieces, base).contains(
                #[trigger] pieces[k],
            ),
    decreases pieces.len(),
{
    if pieces.len() > 0 {
        let shorter = pieces.drop_last();
        lemma_without_excludes(shorter, base);
        let kept = without(pieces, base);
        assert forall|i: int| 0 <= i < kept.len() implies pieces.contains(#[trigger] kept[i]) by {
            if i < without(shorter, base).len() {
                assert(shorter.contains(without(shorter, base)[i]));
                let k = choose|k: int| 0 <= k < shorter.len() && shorter[k] == kept[i];
                assert(pieces[k] == kept[i]);
            } else {
                assert(pieces[pieces.len() - 1] == kept[i]);
            }
        }
        assert forall|k: int| 0 <= k < pieces.len() && pieces[k] != base implies kept.contains(
            #[trigger] pieces[k],
        ) by {
            if k < shorter.len() {
                assert(shorter[k] == pieces[k]);
                assert(without(shorter, base).contains(shorter[k]));
                let i = choose|i: int|
                    0 <= i < without(shorter, base).len() && without(shorter, base)[i]
                        == shorter[k];
                assert(kept[i] == pieces[k]);
            } else {
                assert(kept[kept.len() - 1] == pieces[k]);
            }
        }
    }
}

/// A conversion never lists the currency of the amount itself, whatever the
/// table and the supported currencies are.
pub proof fn lemma_self_is_excluded(
    value: int,
    base: Seq<char>,
    table: Map<Seq<char>, u64>,
    supported: Seq<char>,
)
    ensures
        forall|i: int|
            0 <= i < converted(value, base, table, target_codes(supported, base)).len() ==> (
            #[trigger] converted(value, base, table, target_codes(supported, base))[i]).0 != base,
{
    lemma_without_excludes(split_on(supported, ','), base);
}

/// Every amount of a conversion is the cross rate of its currency, within
/// half a thousandth of the exact `value / base_rate * target_rate`.
pub proof fn lemma_converted_is_cross_rate(
    value: int,
    base: Seq<char>,
    table: Map<Seq<char>, u64>,
    codes: Seq<Seq<char>>,
    i: int,
)
    requires
        0 <= i < codes.len(),
        table[base] > 0,
    ensures
        converted(value, base, table, codes)[i].0 == codes[i],
        converted(value, base, table, codes)[i].1 == cross_rate(
            value,
            table[base] as int,
            table[codes[i]] as int,
        ),
        -(table[base] * 1000) <= 2 * (value * table[codes[i]]) - 2 * (table[base] * 1000)
            * converted(value, base, table, codes)[i].1 < table[base] * 1000,
{
    lemma_cross_rate_nearest(value, table[base] as int, table[codes[i]] as int);
}

/// A converted amount is within half a thousandth of the exact cross rate
/// `value / base_rate * target_rate`.
pub proof fn lemma_cross_rate_nearest(value: int, base_rate: int, target_rate: int)
    requires
        base_rate > 0,
    ensures
        -(base_rate * 1000) <= 2 * (value * target_rate) - 2 * (base_rate * 1000) * cross_rate(
            value,
            base_rate,
            target_rate,
        ) < base_rate * 1000,
{
    lemma_round_div_nearest(value * target_rate, base_rate * 1000);
}

/// Where the table has a rate for every code up to a place and none for the
/// code at that place, that code is the first one missing.
pub proof fn lemma_first_missing_at(table: Map<Seq<char>, u64>, codes: Seq<Seq<char>>, at: int)
    requires
        0 <= at <= codes.len(),
        forall|k: int| 0 <= k < at ==> table.contains_key(#[trigger] codes[k]),
        at < codes.len() ==> !table.contains_key(codes[at]),
    ensures
        first_missing(table, codes) == (if at < codes.len() {
            Some(codes[at])
        } else {
            None
        }),
    decreases codes.len(),
{
    if codes.len() > 0 && at > 0 {
        let rest = codes.drop_first();
        assert(table.contains_key(codes[0]));
        assert forall|k: int| 0 <= k < at - 1 implies table.contains_key(#[trigger] rest[k]) by {
            assert(rest[k] == codes[k + 1]);
        }
        lemma_first_missing_at(table, rest, at - 1);
    }
}

/// Converts an amount in millionths to thousandths of another currency.
pub fn cross(value: i64, base_rate: u64, target_rate: u64) -> (amount: i128)
    requires
        base_rate > 0,
    ensures
        amount == cross_rate(value as int, base_rate as int, target_rate as int),
{
    assert(-0x7fff_ffff_ffff_ffff_ffff_ffff_ffff_ffff < value * target_rate
        < 0x7fff_ffff_ffff_ffff_ffff_ffff_ffff_ffff) by (nonlinear_arith)
        requires
            -0x8000_0000_0000_0000 <= value < 0x8000_0000_0000_0000,
            0 <= target_rate < 0x1_0000_0000_0000_0000,
    ;
    let product: i128 = (value as i128) * (target_rate as i128);
    let divisor: i128 = (base_rate as i128) * 1000;
    div_round(product, divisor)
}

/// The supported currencies but the one of the amount.
pub fn targets(supported_currencies: &str, base: &str) -> (codes: Vec<String>)
    ensures
        texts(codes@) == target_codes(supported_currencies@, base@),
{
    let pieces = split(supported_currencies, ',');
    let mut codes: Vec<String> = Vec::new();
    let mut i: usize = 0;
    assert(texts(pieces@).subrange(0, 0) =~= Seq::<Seq<char>>::empty());
    assert(texts(codes@) =~= Seq::<Seq<char>>::empty());
    while i < pieces.len()
        invariant
            i <= pieces@.len(),
            texts(codes@) == without(texts(pieces@).subrange(0, i as int), base@),
        decreases pieces@.len() - i,
    {
        let ghost longer = texts(pieces@).subrange(0, i + 1);
        assert(longer.drop_last() =~= texts(pieces@).subrange(0, i as int));
        assert(longer.last() == pieces@[i as int]@);
        let ghost before = texts(codes@);
        if !same_text(pieces[i].as_str(), base) {
            codes.push(pieces[i].clone());
            assert(texts(codes@) =~= before.push(pieces@[i as int]@));
        }
        i = i + 1;
    }
    assert(texts(pieces@).subrange(0, pieces@.len() as int) =~= texts(pieces@));
    codes
}

/// Converts the amount to every supported currency but its own. Nothing is
/// converted unless the table has a rate for the currency of the amount and
/// for every currency to convert to; the error names the first one missing.
pub fn convert_amounts(unit: &Unit, conversions: &RateTable, supported_currencies: &str) -> (out:
    Result<Vec<Conversion>, ConvertError>)
    requires
        conversions.wf(),
    ensures
        match out {
            Ok(list) => {
                &&& conversions@.contains_key(unit.base@)
                &&& first_missing(conversions@, target_codes(supported_currencies@, unit.base@))
                    is None
                &&& rows_of(list@) == converted(
                    unit.value as int,
                    unit.base@,
                    conversions@,
                    target_codes(supported_currencies@, unit.base@),
                )
            },
            Err(ConvertError::BaseCurrencyNotFound(code)) => {
                &&& !conversions@.contains_key(unit.base@)
                &&& code@ == unit.base@
            },
            Err(ConvertError::CurrencyNotFound(code)) => {
                &&& conversions@.contains_key(unit.base@)
                &&& first_missing(conversions@, target_codes(supported_currencies@, unit.base@))
                    == Some(code@)
            },
            Err(_) => false,
        },
{
    let codes = targets(supported_currencies, unit.base.as_str());
    let base_rate: u64 = match conversions.get(unit.base.as_str()) {
        Some(rate) => rate,
        None => {
            return Err(ConvertError::BaseCurrencyNotFound(unit.base.clone()));
        },
    };
    proof {
        conversions.lemma_rates_positive();
    }
    let mut list: Vec<Conversion> = Vec::new();
    let mut i: usize = 0;
    while i < codes.len()
        invariant
            i <= codes@.len(),
            conversions.wf(),
            base_rate > 0,
            conversions@.contains_key(unit.base@),
            base_rate == conversions@[unit.base@],
            texts(codes@) == target_codes(supported_currencies@, unit.base@),
            list@.len() == i,
            forall|k: int| 0 <= k < i ==> conversions@.contains_key(#[trigger] texts(codes@)[k]),
            forall|k: int|
                0 <= k < i ==> (#[trigger] list@[k]).code@ == texts(codes@)[k] && list@[k].amount
                    == cross_rate(
                    unit.value as int,
                    base_rate as int,
                    conversions@[texts(codes@)[k]] as int,
                ),
        decreases codes@.len() - i,
    {
        assert(texts(codes@)[i as int] == codes@[i as int]@);
        let target_rate: u64 = match conversions.get(codes[i].as_str()) {
            Some(rate) => rate,
            None => {
                proof {
                    lemma_first_missing_at(conversions@, texts(codes@), i as int);
                }
                return Err(ConvertError::CurrencyNotFound(codes[i].clone()));
            },
        };
        let amount: i128 = cross(unit.value, base_rate, target_rate);
        list.push(Conversion { code: codes[i].clone(), amount });
        i = i + 1;
    }
    proof {
        lemma_first_missing_at(conversions@, texts(codes@), codes@.len() as int);
        assert(rows_of(list@) =~= converted(
            unit.value as int,
            unit.base@,
            conversions@,
            texts(codes@),
        ));
    }
    Ok(list)
}

/// Appends the lines of a list of conversions.
pub fn push_lines(out: &mut String, list: &Vec<Conversion>)
    ensures
        final(out)@ == old(out)@ + lines_text(rows_of(list@)),
{
    let mut i: usize = 0;
    assert(rows_of(list@).subrange(0, 0) =~= Seq::<(Seq<char>, int)>::empty());
    assert(out@ =~= old(out)@ + lines_text(rows_of(list@).subrange(0, 0)));
    while i < list.len()
        invariant
            i <= list@.len(),
            out@ == old(out)@ + lines_text(rows_of(list@).subrange(0, i as int)),
        decreases list@.len() - i,
    {
        let ghost longer = rows_of(list@).subrange(0, i + 1);
        assert(longer.drop_last() =~= rows_of(list@).subrange(0, i as int));
        assert(longer.last() == (list@[i as int].code@, list@[i as int].amount as int));
        let ghost before = out@;
        push_milli(out, list[i].amount);
        push_char(out, ' ');
        out.append(list[i].code.as_str());
        push_char(out, '\n');
        assert(out@ =~= before + line_text(list@[i as int].amount as int, list@[i as int].code@));
        assert(out@ =~= old(out)@ + lines_text(longer));
        i = i + 1;
    }
    assert(rows_of(list@).subrange(0, list@.len() as int) =~= rows_of(list@));
}

/// The first line of a reply.
pub fn header(unit: &Unit) -> (out: String)
    ensures
        out@ == header_text(unit.value as int, unit.base@),
{
    let mut out = String::new();
    push_amount(&mut out, unit.value);
    push_char(&mut out, ' ');
    out.append(unit.base.as_str());
    out.append(" is\n");
    assert(out@ =~= header_text(unit.value as int, unit.base@));
    out
}

/// Appends the age of the rates.
pub fn push_trailer(out: &mut String, elapsed_secs: u64)
    ensures
        final(out)@ == old(out)@ + trailer_text(elapsed_secs as nat),
{
    let seconds: u64 = elapsed_secs % 60;
    let minutes: u64 = (elapsed_secs / 60) % 60;
    let hours: u64 = (elapsed_secs / 60) / 60;
    out.append("last updated ");
    push_nat(out, hours as u128);
    out.append("h ");
    push_nat(out, minutes as u128);
    out.append("m ");
    push_nat(out, seconds as u128);
    out.append("s ago");
    assert(final(out)@ =~= old(out)@ + trailer_text(elapsed_secs as nat));
}

/// The reply to a currency conversion: the amount, one line for every
/// supported currency but its own, and the age of the rates in seconds
/// broken into hours, minutes and seconds.
pub fn create_cached_conversions(
    unit: &Unit,
    conversions: &RateTable,
    supported_currencies: &str,
    elapsed_secs: u64,
) -> (out: Result<String, ConvertError>)
    requires
        conversions.wf(),
    ensures
        is_conversion_outcome(
            out,
            unit.value as int,
            unit.base@,
            conversions@,
            supported_currencies@,
            elapsed_secs as nat,
        ),
{
    let list = match convert_amounts(unit, conversions, supported_currencies) {
        Ok(list) => list,
        Err(e) => {
            return Err(e);
        },
    };
    let mut report = header(unit);
    push_lines(&mut report, &list);
    push_trailer(&mut report, elapsed_secs);
    Ok(report)
}

/// The supported currencies as a text, where there are any.
pub open spec fn listed(supported_currencies: Option<&str>) -> Option<Seq<char>> {
    match supported_currencies {
        Some(list) => Some(list@),
        None => None,
    }
}

/// Whether `out` is the outcome of converting `value` of `base` from a
/// snapshot of the rates when the clock shows `now`: a configuration error
/// where no supported currencies are given, else the outcome of the
/// conversion with the rates of the snapshot and their age.
pub open spec fn is_snapshot_outcome(
    out: Result<String, ConvertError>,
    value: int,
    base: Seq<char>,
    snapshot: CacheSnapshot,
    supported: Option<Seq<char>>,
    now: u64,
) -> bool {
    match supported {
        None => out == Err::<String, ConvertError>(ConvertError::ConfigurationMissing),
        Some(list) => is_conversion_outcome(
            out,
            value,
            base,
            snapshot.table@,
            list,
            age_at(snapshot.last_updated, now),
        ),
    }
}

/// The reply to a currency conversion from a snapshot of the cache: its
/// rates are the rates of the snapshot, and the age in its last line runs
/// from the refresh that produced the snapshot to the time on the clock.
/// Without a list of supported currencies nothing is converted.
pub fn calc_cached_conversions_usd_base(
    unit: &Unit,
    snapshot: &CacheSnapshot,
    supported_currencies: Option<&str>,
    now: u64,
) -> (out: Result<String, ConvertError>)
    requires
        snapshot.table.wf(),
    ensures
        is_snapshot_outcome(
            out,
            unit.value as int,
            unit.base@,
            *snapshot,
            listed(supported_currencies),
            now,
        ),
{
    match supported_currencies {
        None => Err(ConvertError::ConfigurationMissing),
        Some(list) => create_cached_conversions(unit, &snapshot.table, list, snapshot.age(now)),
    }
}

/// Converts an amount of a currency, given by code, symbol or alias, to
/// every other supported currency.
pub fn convert(
    unit: &Unit,
    snapshot: &CacheSnapshot,
    supported_currencies: Option<&str>,
    now: u64,
) -> (out: Result<String, ConvertError>)
    requires
        snapshot.table.wf(),
    ensures
        is_snapshot_outcome(
            out,
            unit.value as int,
            normalized_code(unit.base@),
            *snapshot,
            listed(supported_currencies),
            now,
        ),
{
    let accommodated_unit = accommodate_symbols(unit);
    calc_cached_conversions_usd_base(&accommodated_unit, snapshot, supported_currencies, now)
}

} // verus!

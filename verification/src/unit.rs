//! An amount with its unit, read from free text such as `1,000 kg`.

use crate::conversion_cache::CacheSnapshot;
use crate::currency::{is_snapshot_outcome, listed, normalized_code};
use crate::distance::distance_rows;
use crate::table::table_text;
use crate::temp::temp_rows;
use crate::text::{
    char_is_numeric, char_is_whitespace, from_chars, is_numeric, is_whitespace, same_text,
    to_chars,
};
use crate::volume::volume_rows;
use crate::weight::weight_rows;
use vstd::prelude::*;
use vstd::string::StringExecFns;

verus! {

/// An amount, in millionths, of the unit named by `base`.
pub struct Unit {
    pub base: String,
    pub value: i64,
}

/// The families of units that can be converted.
#[derive(Debug, Clone, Copy, PartialEq, Eq, Structural)]
pub enum UnitType {
    Weight,
    Length,
    Temperature,
    Currency,
    Volume,
}

/// Why a text could not be converted.
#[derive(Debug, Clone, PartialEq, Eq)]
pub enum ConvertError {
    /// The text holds no number.
    MissingValue,
    /// The text holds no unit.
    MissingUnit,
    /// The number is beyond what an amount can hold: amounts are millionths
    /// in 64 bits, which ends at 9,223,372,036,854.775807.
    ValueOutOfRange,
    /// The list of supported currencies is not configured.
    ConfigurationMissing,
    /// The table has no rate for the currency of the amount.
    BaseCurrencyNotFound(String),
    /// The table has no rate for a currency to convert to.
    CurrencyNotFound(String),
}

/// The text of a conversion error.
pub open spec fn convert_error_text(e: ConvertError) -> Seq<char> {
    match e {
        ConvertError::MissingValue => "Missing value, no numbers?"@,
        ConvertError::MissingUnit => "Missing unit, no letters?"@,
        ConvertError::ValueOutOfRange => "Value out of range, too many digits?"@,
        ConvertError::ConfigurationMissing =>
            "Couldn't get the supported currencies from the environment variable"@,
        ConvertError::BaseCurrencyNotFound(code) => "Couldn't find the base currency "@ + code@
            + " in the conversion table"@,
        ConvertError::CurrencyNotFound(code) => "Couldn't find the currency "@ + code@
            + " in the conversion table"@,
    }
}

impl ConvertError {
    /// The error as text.
    pub fn message(&self) -> (out: String)
        ensures
            out@ == convert_error_text(*self),
    {
        match self {
            ConvertError::MissingValue => String::from_str("Missing value, no numbers?"),
            ConvertError::MissingUnit => String::from_str("Missing unit, no letters?"),
            ConvertError::ValueOutOfRange => String::from_str(
                "Value out of range, too many digits?",
            ),
            ConvertError::ConfigurationMissing => String::from_str(
                "Couldn't get the supported currencies from the environment variable",
            ),
            ConvertError::BaseCurrencyNotFound(code) => {
                let mut out = String::from_str("Couldn't find the base currency ");
                out.append(code.as_str());
                out.append(" in the conversion table");
                out
            },
            ConvertError::CurrencyNotFound(code) => {
                let mut out = String::from_str("Couldn't find the currency ");
                out.append(code.as_str());
                out.append(" in the conversion table");
                out
            },
        }
    }
}

/// A character together with what the standard library says of it: whether
/// it is numeric and whether it is whitespace.
#[derive(Debug, Clone, Copy, PartialEq, Eq, Structural)]
pub struct Classified {
    pub ch: char,
    pub numeric: bool,
    pub whitespace: bool,
}

/// A character with its classes.
pub open spec fn class_of(c: char) -> Classified {
    Classified { ch: c, numeric: char_is_numeric(c), whitespace: char_is_whitespace(c) }
}

/// The characters of a text, each with its classes.
pub open spec fn classified(text: Seq<char>) -> Seq<Classified> {
    Seq::new(text.len(), |i: int| class_of(text[i]))
}

/// A character that belongs to the number: numeric, or the decimal point.
pub open spec fn is_value_char(k: Classified) -> bool {
    k.ch != ' ' && (k.numeric || k.ch == '.')
}

/// A character that belongs to the unit: neither a space, nor part of the
/// number, nor a comma.
pub open spec fn is_unit_char(k: Classified) -> bool {
    k.ch != ' ' && !k.numeric && k.ch != '.' && k.ch != ','
}

/// A character that separates one amount from the next.
pub open spec fn is_separator(k: Classified) -> bool {
    k.ch == ' ' || k.ch == ','
}

/// The characters of the number, in the order of the text.
pub open spec fn value_chars(text: Seq<Classified>) -> Seq<char>
    decreases text.len(),
{
    if text.len() == 0 {
        Seq::<char>::empty()
    } else if is_value_char(text.last()) {
        value_chars(text.drop_last()).push(text.last().ch)
    } else {
        value_chars(text.drop_last())
    }
}

/// The characters of the unit, in the order of the text.
pub open spec fn unit_chars(text: Seq<Classified>) -> Seq<char>
    decreases text.len(),
{
    if text.len() == 0 {
        Seq::<char>::empty()
    } else if is_unit_char(text.last()) {
        unit_chars(text.drop_last()).push(text.last().ch)
    } else {
        unit_chars(text.drop_last())
    }
}

/// A text without a unit: every character of its unit is whitespace.
pub open spec fn is_blank(text: Seq<Classified>) -> bool {
    forall|i: int| 0 <= i < text.len() && is_unit_char(#[trigger] text[i]) ==> text[i].whitespace
}

/// One of the ten decimal digits.
pub open spec fn is_digit(c: char) -> bool {
    '0' <= c <= '9'
}

/// The number that a digit stands for.
pub open spec fn digit_value(c: char) -> nat {
    (c as u32 - 48) as nat
}

/// How far the reading of an amount has come: 0 at the start, 1 once a
/// digit of the number has been read, 2 once a character of the unit that is
/// no whitespace has been read after that.
pub open spec fn progress(text: Seq<Classified>) -> nat
    decreases text.len(),
{
    if text.len() == 0 {
        0
    } else {
        let before = progress(text.drop_last());
        let k = text.last();
        if before == 0 {
            if is_value_char(k) && is_digit(k.ch) {
                1
            } else {
                0
            }
        } else if before == 1 {
            if is_unit_char(k) && !k.whitespace {
                2
            } else {
                1
            }
        } else {
            2
        }
    }
}

/// Whether a second number begins at a place: a number and then a unit have
/// been read, and a space or comma is directly followed by a character of a
/// number.
pub open spec fn second_begins(text: Seq<Classified>, at: int) -> bool {
    &&& 0 < at < text.len()
    &&& is_value_char(text[at])
    &&& is_separator(text[at - 1])
    &&& progress(text.subrange(0, at)) == 2
}

/// How much of a text makes the amount: all that precedes the first place
/// where a second number begins, the whole text where none does.
pub open spec fn read_end(text: Seq<Classified>) -> int
    decreases text.len(),
{
    if text.len() == 0 {
        0
    } else if read_end(text.drop_last()) < text.len() - 1 {
        read_end(text.drop_last())
    } else if second_begins(text, text.len() - 1) {
        text.len() - 1
    } else {
        text.len() as int
    }
}

/// The part of a text that makes the amount.
pub open spec fn read_part(text: Seq<Classified>) -> Seq<Classified> {
    text.subrange(0, read_end(text))
}

/// A decimal number: digits with at most one point among them, and at least
/// one digit.
pub open spec fn is_decimal(s: Seq<char>) -> bool {
    &&& forall|i: int| 0 <= i < s.len() ==> is_digit(#[trigger] s[i]) || s[i] == '.'
    &&& exists|i: int| 0 <= i < s.len() && is_digit(#[trigger] s[i])
    &&& forall|i: int, j: int| 0 <= i < j < s.len() ==> !(s[i] == '.' && s[j] == '.')
}

/// The place of the first point, or the length where there is none.
pub open spec fn point_index(s: Seq<char>) -> int
    decreases s.len(),
{
    if s.len() == 0 {
        0
    } else if s[0] == '.' {
        0
    } else {
        1 + point_index(s.drop_first())
    }
}

/// The number that a run of digits stands for.
pub open spec fn digits_value(s: Seq<char>) -> nat
    decreases s.len(),
{
    if s.len() == 0 {
        0
    } else {
        digits_value(s.drop_last()) * 10 + digit_value(s.last())
    }
}

/// The digit at a place after the point, zero where the number has ended.
pub open spec fn decimal_at(s: Seq<char>, place: int) -> nat {
    let i = point_index(s) + 1 + place;
    if 0 <= i < s.len() {
        digit_value(s[i])
    } else {
        0
    }
}

/// The millionths that a decimal number stands for. An amount is held in
/// millionths, so decimals beyond the sixth are dropped.
pub open spec fn micro_value(s: Seq<char>) -> nat {
    digits_value(s.subrange(0, point_index(s))) * 1_000_000 + decimal_at(s, 0) * 100_000
        + decimal_at(s, 1) * 10_000 + decimal_at(s, 2) * 1_000 + decimal_at(s, 3) * 100
        + decimal_at(s, 4) * 10 + decimal_at(s, 5)
}

/// What a text parses to. The errors go by the whole text: the value is
/// missing where the characters of the number, all of them, are no decimal
/// number, and else the unit is missing where the characters of the unit are
/// blank. Else the amount is the number and the unit of the part that is
/// read, which is the whole text unless a second number begins in it. The
/// one further error is a limit of the representation: an amount is held as
/// millionths in 64 bits, and a number beyond that range is refused.
pub open spec fn parsed(text: Seq<Classified>) -> Result<(Seq<char>, int), ConvertError> {
    if !is_decimal(value_chars(text)) {
        Err(ConvertError::MissingValue)
    } else if is_blank(text) {
        Err(ConvertError::MissingUnit)
    } else if micro_value(value_chars(read_part(text))) > i64::MAX {
        Err(ConvertError::ValueOutOfRange)
    } else {
        Ok((unit_chars(read_part(text)), micro_value(value_chars(read_part(text))) as int))
    }
}

/// The end of the amount is the first place where a second number begins: one
/// begins there or the text ends, and none begins at an earlier place.
pub proof fn lemma_read_end_is_first(text: Seq<Classified>)
    ensures
        0 <= read_end(text) <= text.len(),
        read_end(text) < text.len() ==> second_begins(text, read_end(text)),
        forall|at: int| 0 <= at < read_end(text) ==> !second_begins(text, at),
    decreases text.len(),
{
    if text.len() > 0 {
        let shorter = text.drop_last();
        lemma_read_end_is_first(shorter);
        assert forall|at: int| 0 <= at < shorter.len() implies second_begins(shorter, at)
            == second_begins(text, at) by {
            assert(shorter.subrange(0, at) =~= text.subrange(0, at));
        }
    }
}

/// A text in which no second number begins is read whole: its amount is all
/// the characters of its number with all the characters of its unit.
pub proof fn lemma_single_amount_is_read_whole(text: Seq<Classified>)
    requires
        forall|at: int| 0 <= at < text.len() ==> !second_begins(text, at),
    ensures
        read_part(text) == text,
{
    lemma_read_end_is_first(text);
    assert(text.subrange(0, text.len() as int) =~= text);
}

/// Once a unit has been read after a number, the text holds a character of
/// a unit.
pub proof fn lemma_progress_has_unit(text: Seq<Classified>)
    requires
        progress(text) == 2,
    ensures
        exists|i: int| 0 <= i < text.len() && is_unit_char(#[trigger] text[i]),
    decreases text.len(),
{
    let shorter = text.drop_last();
    if progress(shorter) == 2 {
        lemma_progress_has_unit(shorter);
        let i = choose|i: int| 0 <= i < shorter.len() && is_unit_char(#[trigger] shorter[i]);
        assert(text[i] == shorter[i]);
    } else {
        assert(is_unit_char(text[text.len() - 1]));
    }
}

/// A text whose number stands before its unit is one amount, wherever spaces
/// and commas stand in it: the number is all the characters of a number and
/// the unit all the characters of a unit.
pub proof fn lemma_number_before_unit_is_read_whole(text: Seq<Classified>)
    requires
        forall|i: int, j: int|
            0 <= i < j < text.len() ==> !(is_unit_char(#[trigger] text[i]) && is_value_char(
                #[trigger] text[j],
            )),
    ensures
        read_part(text) == text,
{
    assert forall|at: int| 0 <= at < text.len() implies !second_begins(text, at) by {
        if second_begins(text, at) {
            let first = text.subrange(0, at);
            lemma_progress_has_unit(first);
            let i = choose|i: int| 0 <= i < first.len() && is_unit_char(#[trigger] first[i]);
            assert(text[i] == first[i]);
            assert(is_unit_char(text[i]) && is_value_char(text[at]));
        }
    }
    lemma_single_amount_is_read_whole(text);
}

/// The characters of the number in the first part of a text are the first
/// of the characters of the number in the whole.
pub proof fn lemma_value_chars_of_prefix(text: Seq<Classified>, end: int)
    requires
        0 <= end <= text.len(),
    ensures
        value_chars(text.subrange(0, end)).len() <= value_chars(text).len(),
        value_chars(text.subrange(0, end)) == value_chars(text).subrange(
            0,
            value_chars(text.subrange(0, end)).len() as int,
        ),
    decreases text.len() - end,
{
    if end == text.len() {
        assert(text.subrange(0, end) =~= text);
        assert(value_chars(text) =~= value_chars(text).subrange(
            0,
            value_chars(text).len() as int,
        ));
    } else {
        let shorter = text.drop_last();
        lemma_value_chars_of_prefix(shorter, end);
        assert(shorter.subrange(0, end) =~= text.subrange(0, end));
        let first = value_chars(text.subrange(0, end));
        assert(first =~= value_chars(text).subrange(0, first.len() as int));
    }
}

/// Once a digit has been read, the characters of the number hold one.
pub proof fn lemma_progress_has_digit(text: Seq<Classified>)
    requires
        progress(text) >= 1,
    ensures
        exists|j: int| 0 <= j < value_chars(text).len() && is_digit(#[trigger] value_chars(text)[j]),
    decreases text.len(),
{
    let shorter = text.drop_last();
    if progress(shorter) >= 1 {
        lemma_progress_has_digit(shorter);
        let j = choose|j: int|
            0 <= j < value_chars(shorter).len() && is_digit(#[trigger] value_chars(shorter)[j]);
        assert(value_chars(text)[j] == value_chars(shorter)[j]);
    } else {
        let j = value_chars(text).len() - 1;
        assert(is_digit(value_chars(text)[j]));
    }
}

/// Where the number of the whole text is a decimal number, so is the number
/// of the part that is read.
pub proof fn lemma_read_number_is_decimal(text: Seq<Classified>)
    requires
        is_decimal(value_chars(text)),
    ensures
        is_decimal(value_chars(read_part(text))),
{
    lemma_read_end_is_first(text);
    let end = read_end(text);
    if end < text.len() {
        let whole = value_chars(text);
        let first = value_chars(read_part(text));
        lemma_value_chars_of_prefix(text, end);
        lemma_progress_has_digit(read_part(text));
        assert forall|i: int| 0 <= i < first.len() implies is_digit(#[trigger] first[i])
            || first[i] == '.' by {
            assert(first[i] == whole[i]);
        }
        assert forall|i: int, j: int| 0 <= i < j < first.len() implies !(first[i] == '.'
            && first[j] == '.') by {
            assert(first[i] == whole[i] && first[j] == whole[j]);
        }
    } else {
        assert(text.subrange(0, text.len() as int) =~= text);
    }
}

/// Whether a character stands somewhere in a text.
pub open spec fn holds_char(text: Seq<Classified>, c: char) -> bool {
    exists|i: int| 0 <= i < text.len() && (#[trigger] text[i]).ch == c
}

/// Every character of the number is a character of the text.
pub proof fn lemma_value_chars_are_of_text(text: Seq<Classified>)
    ensures
        forall|j: int|
            0 <= j < value_chars(text).len() ==> holds_char(text, #[trigger] value_chars(text)[j]),
    decreases text.len(),
{
    if text.len() > 0 {
        let shorter = text.drop_last();
        lemma_value_chars_are_of_text(shorter);
        assert forall|j: int| 0 <= j < value_chars(text).len() implies holds_char(
            text,
            #[trigger] value_chars(text)[j],
        ) by {
            if j < value_chars(shorter).len() {
                assert(holds_char(shorter, value_chars(shorter)[j]));
                let i = choose|i: int|
                    0 <= i < shorter.len() && (#[trigger] shorter[i]).ch == value_chars(shorter)[j];
                assert(text[i].ch == value_chars(text)[j]);
            } else {
                assert(text[text.len() - 1].ch == value_chars(text)[j]);
            }
        }
    }
}

/// A text without a digit holds no number: parsing it fails for want of a
/// value, whatever else it holds.
pub proof fn lemma_no_digit_is_missing_value(text: Seq<Classified>)
    requires
        forall|i: int| 0 <= i < text.len() ==> !is_digit((#[trigger] text[i]).ch),
    ensures
        parsed(text) == Err::<(Seq<char>, int), ConvertError>(ConvertError::MissingValue),
{
    let number = value_chars(text);
    lemma_value_chars_are_of_text(text);
    if is_decimal(number) {
        let j = choose|j: int| 0 <= j < number.len() && is_digit(#[trigger] number[j]);
        assert(holds_char(text, number[j]));
        let i = choose|i: int| 0 <= i < text.len() && (#[trigger] text[i]).ch == number[j];
        assert(!is_digit(text[i].ch));
    }
}

/// Where the place of the first point is.
pub proof fn lemma_point_index_bounds(s: Seq<char>)
    ensures
        0 <= point_index(s) <= s.len(),
        point_index(s) < s.len() ==> s[point_index(s)] == '.',
        forall|i: int| 0 <= i < point_index(s) ==> #[trigger] s[i] != '.',
    decreases s.len(),
{
    if s.len() > 0 && s[0] != '.' {
        let rest = s.drop_first();
        lemma_point_index_bounds(rest);
        assert forall|i: int| 0 <= i < point_index(s) implies #[trigger] s[i] != '.' by {
            if i > 0 {
                assert(s[i] == rest[i - 1]);
            }
        }
    }
}

/// The first point is where no earlier character is one.
pub proof fn lemma_point_index_is(s: Seq<char>, at: int)
    requires
        0 <= at <= s.len(),
        forall|i: int| 0 <= i < at ==> #[trigger] s[i] != '.',
        at < s.len() ==> s[at] == '.',
    ensures
        point_index(s) == at,
{
    lemma_point_index_bounds(s);
    let p = point_index(s);
    if p < at {
        assert(s[p] != '.');
    } else if p > at {
        assert(s[at] != '.');
    }
}

/// A longer run of digits stands for no smaller number.
pub proof fn lemma_digits_value_grows(s: Seq<char>, shorter: int)
    requires
        0 <= shorter <= s.len(),
    ensures
        digits_value(s.subrange(0, shorter)) <= digits_value(s),
    decreases s.len() - shorter,
{
    if shorter == s.len() {
        assert(s.subrange(0, shorter) =~= s);
    } else {
        lemma_digits_value_grows(s.drop_last(), shorter);
        assert(s.drop_last().subrange(0, shorter) =~= s.subrange(0, shorter));
    }
}

/// The largest whole part whose millionths still fit the 64 bits of an
/// amount.
pub const WHOLE_LIMIT: u64 = 9_223_372_036_854;

fn digit_number(c: char) -> (d: u64)
    requires
        is_digit(c),
    ensures
        d == digit_value(c),
        d <= 9,
{
    ((c as u32) - 48) as u64
}

fn is_digit_char(c: char) -> (r: bool)
    ensures
        r == is_digit(c),
{
    '0' <= c && c <= '9'
}

/// The number that the first `end` characters stand for, unless it exceeds
/// the limit.
fn whole_value(s: &Vec<char>, end: usize) -> (whole: Option<u64>)
    requires
        end <= s@.len(),
        forall|i: int| 0 <= i < end ==> is_digit(#[trigger] s@[i]),
    ensures
        whole == (if digits_value(s@.subrange(0, end as int)) <= WHOLE_LIMIT {
            Some(digits_value(s@.subrange(0, end as int)) as u64)
        } else {
            None
        }),
{
    let mut acc: u64 = 0;
    let mut i: usize = 0;
    assert(s@.subrange(0, 0) =~= Seq::<char>::empty());
    while i < end
        invariant
            i <= end <= s@.len(),
            forall|k: int| 0 <= k < end ==> is_digit(#[trigger] s@[k]),
            acc == digits_value(s@.subrange(0, i as int)),
            acc <= WHOLE_LIMIT,
        decreases end - i,
    {
        let ghost longer = s@.subrange(0, i + 1);
        assert(longer.drop_last() =~= s@.subrange(0, i as int));
        assert(longer.last() == s@[i as int]);
        let next: u64 = acc * 10 + digit_number(s[i]);
        if next > WHOLE_LIMIT {
            proof {
                let full = s@.subrange(0, end as int);
                lemma_digits_value_grows(full, i + 1);
                assert(full.subrange(0, i + 1) =~= longer);
            }
            return None;
        }
        acc = next;
        i = i + 1;
    }
    Some(acc)
}

fn decimal_digit(s: &Vec<char>, point: usize, place: usize) -> (d: u64)
    requires
        point == point_index(s@),
        place < 6,
        forall|i: int| point < i < s@.len() ==> is_digit(#[trigger] s@[i]),
    ensures
        d == decimal_at(s@, place as int),
        d <= 9,
{
    proof {
        lemma_point_index_bounds(s@);
    }
    if point < s.len() && place < s.len() - point - 1 {
        digit_number(s[point + 1 + place])
    } else {
        0
    }
}

/// The place of the point in a decimal number, its length where it has
/// none; nothing where the characters are no decimal number.
pub fn find_point(s: &Vec<char>) -> (found: Option<usize>)
    ensures
        found is Some <==> is_decimal(s@),
        found is Some ==> found->Some_0 == point_index(s@),
{
    let n: usize = s.len();
    let mut point: usize = n;
    let mut digits: usize = 0;
    let mut i: usize = 0;
    while i < n
        invariant
            n == s@.len(),
            i <= n,
            digits <= i,
            point == n || point < i,
            point < n ==> s@[point as int] == '.',
            forall|k: int| 0 <= k < i && k != point ==> is_digit(#[trigger] s@[k]),
            digits > 0 <==> exists|k: int| 0 <= k < i && is_digit(#[trigger] s@[k]),
        decreases n - i,
    {
        let c = s[i];
        if is_digit_char(c) {
            digits = digits + 1;
            assert(is_digit(s@[i as int]));
        } else if c == '.' && point == n {
            point = i;
        } else {
            proof {
                if is_decimal(s@) {
                    if c == '.' {
                        assert(!(s@[point as int] == '.' && s@[i as int] == '.'));
                    } else {
                        assert(is_digit(s@[i as int]) || s@[i as int] == '.');
                    }
                }
            }
            return None;
        }
        i = i + 1;
    }
    if digits == 0 {
        return None;
    }
    proof {
        assert forall|a: int, b: int| 0 <= a < b < s@.len() implies !(s@[a] == '.' && s@[b]
            == '.') by {
            if a != point {
                assert(is_digit(s@[a]));
            }
            if b != point {
                assert(is_digit(s@[b]));
            }
        }
        assert(is_decimal(s@));
        assert forall|k: int| 0 <= k < point implies #[trigger] s@[k] != '.' by {
            assert(is_digit(s@[k]));
        }
        lemma_point_index_is(s@, point as int);
    }
    Some(point)
}

/// The millionths that a decimal number stands for, where they fit an
/// amount.
pub fn decimal_value(s: &Vec<char>) -> (value: Option<i64>)
    requires
        is_decimal(s@),
    ensures
        value == (if micro_value(s@) <= i64::MAX {
            Some(micro_value(s@) as i64)
        } else {
            None
        }),
{
    let point: usize = match find_point(s) {
        Some(p) => p,
        None => {
            return None;
        },
    };
    proof {
        lemma_point_index_bounds(s@);
        assert forall|k: int| 0 <= k < s@.len() && k != point implies is_digit(
            #[trigger] s@[k],
        ) by {
            if s@[k] == '.' {
                if k < point {
                    assert(!(s@[k] == '.' && s@[point as int] == '.'));
                } else {
                    assert(!(s@[point as int] == '.' && s@[k] == '.'));
                }
            }
        }
    }
    let whole: u64 = match whole_value(s, point) {
        Some(w) => w,
        None => {
            return None;
        },
    };
    let d0: u64 = decimal_digit(s, point, 0);
    let d1: u64 = decimal_digit(s, point, 1);
    let d2: u64 = decimal_digit(s, point, 2);
    let d3: u64 = decimal_digit(s, point, 3);
    let d4: u64 = decimal_digit(s, point, 4);
    let d5: u64 = decimal_digit(s, point, 5);
    let part: u64 = d0 * 100_000 + d1 * 10_000 + d2 * 1_000 + d3 * 100 + d4 * 10 + d5;
    let value: u64 = whole * 1_000_000 + part;
    if value > i64::MAX as u64 {
        return None;
    }
    Some(value as i64)
}

/// The characters of a text, each with what the standard library says of
/// it.
pub fn classify(text: &str) -> (out: Vec<Classified>)
    ensures
        out@ == classified(text@),
{
    let chars = to_chars(text);
    let mut items: Vec<Classified> = Vec::new();
    let mut at: usize = 0;
    while at < chars.len()
        invariant
            at <= chars@.len(),
            chars@ == text@,
            items@ == classified(text@).subrange(0, at as int),
        decreases chars@.len() - at,
    {
        let ch = chars[at];
        let numeric = is_numeric(ch);
        let whitespace = is_whitespace(ch);
        items.push(Classified { ch, numeric, whitespace });
        at = at + 1;
        assert(items@ =~= classified(text@).subrange(0, at as int)) by {
            assert(items@[at - 1] == class_of(text@[at - 1]));
        }
    }
    assert(items@ =~= classified(text@));
    items
}

/// Reads an amount and its unit from classified characters. Spaces and
/// commas are skipped; numeric characters and points make the number,
/// everything else the unit. Where a second number begins after a number
/// and a unit, the amount ends before it.
pub fn read_amount(items: &Vec<Classified>) -> (unit: Result<Unit, ConvertError>)
    ensures
        match unit {
            Ok(u) => parsed(items@) == Ok::<(Seq<char>, int), ConvertError>(
                (u.base@, u.value as int),
            ),
            Err(e) => parsed(items@) == Err::<(Seq<char>, int), ConvertError>(e),
        },
{
    let mut number: Vec<char> = Vec::new();
    let mut read_number: Vec<char> = Vec::new();
    let mut read_name: Vec<char> = Vec::new();
    let mut blank = true;
    let mut stage: u8 = 0;
    let mut end: usize = 0;
    let mut i: usize = 0;
    assert(items@.subrange(0, 0) =~= Seq::<Classified>::empty());
    while i < items.len()
        invariant
            i <= items@.len(),
            end <= i,
            end == read_end(items@.subrange(0, i as int)),
            stage == progress(items@.subrange(0, i as int)),
            number@ == value_chars(items@.subrange(0, i as int)),
            blank == is_blank(items@.subrange(0, i as int)),
            read_number@ == value_chars(items@.subrange(0, end as int)),
            read_name@ == unit_chars(items@.subrange(0, end as int)),
        decreases items@.len() - i,
    {
        let ghost shorter = items@.subrange(0, i as int);
        let ghost longer = items@.subrange(0, i + 1);
        assert(longer.drop_last() =~= shorter);
        assert(longer.last() == items@[i as int]);
        let k = items[i];
        let in_number = k.ch != ' ' && (k.numeric || k.ch == '.');
        let in_name = k.ch != ' ' && !k.numeric && k.ch != '.' && k.ch != ',';
        if end == i {
            let second = in_number && stage == 2 && i > 0 && (items[i - 1].ch == ' ' || items[i
                - 1].ch == ',');
            proof {
                assert(longer.subrange(0, i as int) =~= shorter);
                assert(second == second_begins(longer, i as int));
            }
            if !second {
                if in_number {
                    read_number.push(k.ch);
                }
                if in_name {
                    read_name.push(k.ch);
                }
                end = i + 1;
                assert(items@.subrange(0, end as int) =~= longer);
            }
        }
        if in_number {
            number.push(k.ch);
        }
        if in_name && !k.whitespace {
            proof {
                assert(is_unit_char(longer[i as int]) && !longer[i as int].whitespace);
            }
            blank = false;
        } else {
            proof {
                if blank {
                    assert forall|j: int| 0 <= j < longer.len() && is_unit_char(
                        #[trigger] longer[j],
                    ) implies longer[j].whitespace by {
                        if j < i {
                            assert(shorter[j] == longer[j]);
                        }
                    }
                } else {
                    let j = choose|j: int|
                        0 <= j < shorter.len() && is_unit_char(#[trigger] shorter[j])
                            && !shorter[j].whitespace;
                    assert(longer[j] == shorter[j]);
                }
            }
        }
        if stage == 0 {
            if in_number && is_digit_char(k.ch) {
                stage = 1;
            }
        } else if stage == 1 {
            if in_name && !k.whitespace {
                stage = 2;
            }
        }
        i = i + 1;
    }
    assert(items@.subrange(0, items@.len() as int) =~= items@);
    if find_point(&number).is_none() {
        return Err(ConvertError::MissingValue);
    }
    if blank {
        return Err(ConvertError::MissingUnit);
    }
    proof {
        lemma_read_number_is_decimal(items@);
    }
    match decimal_value(&read_number) {
        Some(value) => Ok(Unit { base: from_chars(&read_name), value }),
        None => Err(ConvertError::ValueOutOfRange),
    }
}

/// The family of a unit by its name; a name that belongs to no other family
/// is taken for a currency.
pub open spec fn unit_type_of(base: Seq<char>) -> UnitType {
    if base == "kg"@ || base == "g"@ || base == "lb"@ || base == "lbs"@ || base == "oz"@ || base
        == "st"@ {
        UnitType::Weight
    } else if base == "m"@ || base == "cm"@ || base == "in"@ || base == "ft"@ || base == "yd"@
        || base == "mi"@ {
        UnitType::Length
    } else if base == "°C"@ || base == "°F"@ || base == "K"@ {
        UnitType::Temperature
    } else if base == "L"@ || base == "l"@ || base == "gal"@ || base == "galUK"@ || base
        == "galUS"@ || base == "pt"@ {
        UnitType::Volume
    } else {
        UnitType::Currency
    }
}

/// Whether `out` is the outcome of converting `value` of the unit `base`:
/// for a currency the outcome of the currency conversion under the code that
/// `base` stands for, for any other unit the reply of the table of its
/// family.
pub open spec fn is_unit_outcome(
    out: Result<String, ConvertError>,
    value: int,
    base: Seq<char>,
    snapshot: CacheSnapshot,
    supported: Option<Seq<char>>,
    now: u64,
) -> bool {
    match unit_type_of(base) {
        UnitType::Currency => is_snapshot_outcome(
            out,
            value,
            normalized_code(base),
            snapshot,
            supported,
            now,
        ),
        UnitType::Weight => out is Ok && out->Ok_0@ == table_text(value, base, weight_rows(base)),
        UnitType::Length => out is Ok && out->Ok_0@ == table_text(
            value,
            base,
            distance_rows(base),
        ),
        UnitType::Temperature => out is Ok && out->Ok_0@ == table_text(
            value,
            base,
            temp_rows(base),
        ),
        UnitType::Volume => out is Ok && out->Ok_0@ == table_text(value, base, volume_rows(base)),
    }
}

impl Unit {
    /// Converts the amount to the other units of its family; a currency goes
    /// through the snapshot of the rates, the supported currencies and the
    /// time on the clock, which the other families do not read.
    pub fn convert(
        &self,
        snapshot: &CacheSnapshot,
        supported_currencies: Option<&str>,
        now: u64,
    ) -> (out: Result<String, ConvertError>)
        requires
            snapshot.table.wf(),
        ensures
            is_unit_outcome(
                out,
                self.value as int,
                self.base@,
                *snapshot,
                listed(supported_currencies),
                now,
            ),
    {
        let unit_type = self.extract_unit_type();
        match unit_type {
            UnitType::Currency => crate::currency::convert(
                self,
                snapshot,
                supported_currencies,
                now,
            ),
            UnitType::Weight => Ok(crate::weight::convert(self)),
            UnitType::Length => Ok(crate::distance::convert(self)),
            UnitType::Temperature => Ok(crate::temp::convert(self)),
            UnitType::Volume => Ok(crate::volume::convert(self)),
        }
    }

    /// Reads an amount and its unit from a text. Spaces and commas are
    /// skipped; numeric characters and points make the number, everything
    /// else the unit. Where a second number begins after a number and a unit,
    /// the amount ends before it. A number beyond 9,223,372,036,854.775807 is
    /// refused: that is where the 64 bits of an amount end.
    pub fn parse(text: &str) -> (unit: Result<Unit, ConvertError>)
        ensures
            match unit {
                Ok(u) => parsed(classified(text@)) == Ok::<(Seq<char>, int), ConvertError>(
                    (u.base@, u.value as int),
                ),
                Err(e) => parsed(classified(text@)) == Err::<(Seq<char>, int), ConvertError>(e),
            },
    {
        let items = classify(text);
        read_amount(&items)
    }

    /// The family of the unit.
    pub fn extract_unit_type(&self) -> (unit_type: UnitType)
        ensures
            unit_type == unit_type_of(self.base@),
    {
        let base = self.base.as_str();
        if same_text(base, "kg") || same_text(base, "g") || same_text(base, "lb") || same_text(
            base,
            "lbs",
        ) || same_text(base, "oz") || same_text(base, "st") {
            UnitType::Weight
        } else if same_text(base, "m") || same_text(base, "cm") || same_text(base, "in")
            || same_text(base, "ft") || same_text(base, "yd") || same_text(base, "mi") {
            UnitType::Length
        } else if same_text(base, "°C") || same_text(base, "°F") || same_text(base, "K") {
            UnitType::Temperature
        } else if same_text(base, "L") || same_text(base, "l") || same_text(base, "gal")
            || same_text(base, "galUK") || same_text(base, "galUS") || same_text(base, "pt") {
            UnitType::Volume
        } else {
            UnitType::Currency
        }
    }
}

} // verus!

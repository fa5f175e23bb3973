//! Fixed conversion tables: every target unit of a table is an affine
//! function of the amount, with whole-number coefficients.

use crate::currency::{header, header_text, lines_text, push_lines, rows_of, Conversion};
use crate::fixed::{div_round, round_div};
use crate::unit::Unit;
use vstd::prelude::*;
use vstd::string::StringExecFns;

verus! {

/// One target unit of a table. An amount of `value` millionths comes to
/// `(value * mul + add) / div` thousandths of `unit`.
pub struct Row {
    pub unit: &'static str,
    pub mul: u32,
    pub add: i64,
    pub div: u64,
}

/// The row of a unit that is `numerator / denominator` of the amount's unit.
pub open spec fn times(unit: &'static str, numerator: u32, denominator: u64) -> Row {
    Row { unit, mul: numerator, add: 0, div: (denominator * 1000) as u64 }
}

/// The row of a unit that is `(amount * numerator + offset) / denominator`,
/// the offset in millionths.
pub open spec fn affine(unit: &'static str, numerator: u32, offset: i64, denominator: u64) -> Row {
    Row { unit, mul: numerator, add: offset, div: (denominator * 1000) as u64 }
}

/// The thousandths of a row's unit that an amount in millionths comes to.
pub open spec fn row_amount(value: int, row: Row) -> int {
    round_div(value * row.mul + row.add, row.div as int)
}

/// The amounts of a table's rows, each with its unit.
pub open spec fn table_rows(value: int, rows: Seq<Row>) -> Seq<(Seq<char>, int)> {
    Seq::new(rows.len(), |i: int| (rows[i].unit@, row_amount(value, rows[i])))
}

/// The reply for a table: the amount, then one line for each row.
pub open spec fn table_text(value: int, base: Seq<char>, rows: Seq<Row>) -> Seq<char> {
    header_text(value, base) + lines_text(table_rows(value, rows))
}

/// Whether every row of a table has a divisor.
pub open spec fn divides(rows: Seq<Row>) -> bool {
    forall|i: int| 0 <= i < rows.len() ==> (#[trigger] rows[i]).div > 0
}

/// Makes the row of a unit that is `numerator / denominator` of the
/// amount's unit.
pub fn times_row(unit: &'static str, numerator: u32, denominator: u64) -> (row: Row)
    requires
        0 < denominator <= 1_000_000_000_000_000,
    ensures
        row == times(unit, numerator, denominator),
        row.div > 0,
{
    Row { unit, mul: numerator, add: 0, div: denominator * 1000 }
}

/// Makes the row of a unit that is an affine function of the amount.
pub fn affine_row(unit: &'static str, numerator: u32, offset: i64, denominator: u64) -> (row: Row)
    requires
        0 < denominator <= 1_000_000_000_000_000,
    ensures
        row == affine(unit, numerator, offset, denominator),
        row.div > 0,
{
    Row { unit, mul: numerator, add: offset, div: denominator * 1000 }
}

/// The thousandths of a row's unit that an amount comes to.
pub fn apply_row(value: i64, row: &Row) -> (amount: i128)
    requires
        row.div > 0,
    ensures
        amount == row_amount(value as int, *row),
{
    assert(-0x8000_0000_0000_0000_0000_0000 <= value * row.mul <= 0x8000_0000_0000_0000_0000_0000)
        by (nonlinear_arith)
        requires
            -0x8000_0000_0000_0000 <= value < 0x8000_0000_0000_0000,
            0 <= row.mul < 0x1_0000_0000,
    ;
    let scaled: i128 = (value as i128) * (row.mul as i128) + (row.add as i128);
    div_round(scaled, row.div as i128)
}

/// The reply for a table: the amount, then one line for each row.
pub fn render(unit: &Unit, rows: &Vec<Row>) -> (out: String)
    requires
        divides(rows@),
    ensures
        out@ == table_text(unit.value as int, unit.base@, rows@),
{
    let mut list: Vec<Conversion> = Vec::new();
    let mut i: usize = 0;
    while i < rows.len()
        invariant
            i <= rows@.len(),
            divides(rows@),
            list@.len() == i,
            forall|k: int|
                0 <= k < i ==> (#[trigger] list@[k]).code@ == rows@[k].unit@ && list@[k].amount
                    == row_amount(unit.value as int, rows@[k]),
        decreases rows@.len() - i,
    {
        let amount: i128 = apply_row(unit.value, &rows[i]);
        list.push(Conversion { code: String::from_str(rows[i].unit), amount });
        i = i + 1;
    }
    assert(rows_of(list@) =~= table_rows(unit.value as int, rows@));
    let mut out = header(unit);
    push_lines(&mut out, &list);
    out
}

} // verus!

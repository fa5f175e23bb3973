//! Temperatures: degrees Fahrenheit, degrees Celsius and kelvins.

use crate::table::{affine, affine_row, divides, render, table_text, times, times_row, Row};
use crate::text::same_text;
use crate::unit::Unit;
use vstd::prelude::*;

verus! {

/// The scales that a temperature is converted to, its own among them. With
/// `f`, `c` and `k` for an amount on each scale: `c = (f - 32) * 5 / 9`,
/// `k = c + 273.15`, `f = c * 9 / 5 + 32`; every row is that formula over one
/// denominator, its offset in millionths. No rows for a unit that is no
/// temperature.
pub open spec fn temp_rows(base: Seq<char>) -> Seq<Row> {
    if base == "°F"@ {
        seq![
            times("°F", 1, 1),
            affine("°C", 5, -160_000_000i64, 9),
            affine("K", 5, 2_298_350_000i64, 9),
        ]
    } else if base == "°C"@ {
        seq![
            affine("°F", 9, 160_000_000i64, 5),
            times("°C", 1, 1),
            affine("K", 1, 273_150_000i64, 1),
        ]
    } else if base == "K"@ {
        seq![
            affine("°F", 9, -2_298_350_000i64, 5),
            affine("°C", 1, -273_150_000i64, 1),
            times("K", 1, 1),
        ]
    } else {
        Seq::<Row>::empty()
    }
}

/// The rows of the temperature table for a scale.
pub fn temp_table(base: &str) -> (rows: Vec<Row>)
    ensures
        rows@ == temp_rows(base@),
        divides(rows@),
{
    if same_text(base, "°F") {
        let mut rows: Vec<Row> = Vec::new();
        rows.push(times_row("°F", 1, 1));
        rows.push(affine_row("°C", 5, -160_000_000i64, 9));
        rows.push(affine_row("K", 5, 2_298_350_000i64, 9));
        assert(rows@ =~= temp_rows(base@));
        rows
    } else if same_text(base, "°C") {
        let mut rows: Vec<Row> = Vec::new();
        rows.push(affine_row("°F", 9, 160_000_000i64, 5));
        rows.push(times_row("°C", 1, 1));
        rows.push(affine_row("K", 1, 273_150_000i64, 1));
        assert(rows@ =~= temp_rows(base@));
        rows
    } else if same_text(base, "K") {
        let mut rows: Vec<Row> = Vec::new();
        rows.push(affine_row("°F", 9, -2_298_350_000i64, 5));
        rows.push(affine_row("°C", 1, -273_150_000i64, 1));
        rows.push(times_row("K", 1, 1));
        assert(rows@ =~= temp_rows(base@));
        rows
    } else {
        let rows: Vec<Row> = Vec::new();
        assert(rows@ =~= temp_rows(base@));
        rows
    }
}

/// The reply for a temperature: the amount, then its value on each of the
/// three scales.
pub fn convert(unit: &Unit) -> (out: String)
    ensures
        out@ == table_text(unit.value as int, unit.base@, temp_rows(unit.base@)),
{
    let rows = temp_table(unit.base.as_str());
    render(unit, &rows)
}

} // verus!

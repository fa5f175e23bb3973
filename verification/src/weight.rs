//! Weights: kilograms, grams, pounds, ounces and stones.

use crate::table::{divides, render, table_text, times, times_row, Row};
use crate::text::same_text;
use crate::unit::Unit;
use vstd::prelude::*;

verus! {

/// The units that a weight is converted to, each with the factor from the
/// weight's own unit as a fraction; no rows for a unit that is no weight.
pub open spec fn weight_rows(base: Seq<char>) -> Seq<Row> {
    if base == "kg"@ {
        seq![
            times("lb", 220_462, 100_000),
            times("oz", 35_274, 1_000),
            times("st", 157_473, 1_000_000),
        ]
    } else if base == "g"@ {
        seq![
            times("lb", 220_462, 100_000_000),
            times("oz", 35_274, 1_000_000),
            times("st", 157_473, 1_000_000_000),
        ]
    } else if base == "lb"@ || base == "lbs"@ {
        seq![
            times("kg", 453_592, 1_000_000),
            times("g", 453_592, 1_000),
            times("oz", 16, 1),
            times("st", 714_286, 10_000_000),
        ]
    } else if base == "oz"@ {
        seq![
            times("kg", 283_495, 10_000_000),
            times("g", 283_495, 10_000),
            times("lb", 625, 10_000),
            times("st", 446_429, 100_000_000),
        ]
    } else if base == "st"@ {
        seq![
            times("kg", 635_029, 100_000),
            times("g", 635_029, 100),
            times("lb", 14, 1),
            times("oz", 224, 1),
        ]
    } else {
        Seq::<Row>::empty()
    }
}

/// The rows of the weight table for a unit.
pub fn weight_table(base: &str) -> (rows: Vec<Row>)
    ensures
        rows@ == weight_rows(base@),
        divides(rows@),
{
    if same_text(base, "kg") {
        let mut rows: Vec<Row> = Vec::new();
        rows.push(times_row("lb", 220_462, 100_000));
        rows.push(times_row("oz", 35_274, 1_000));
        rows.push(times_row("st", 157_473, 1_000_000));
        assert(rows@ =~= weight_rows(base@));
        rows
    } else if same_text(base, "g") {
        let mut rows: Vec<Row> = Vec::new();
        rows.push(times_row("lb", 220_462, 100_000_000));
        rows.push(times_row("oz", 35_274, 1_000_000));
        rows.push(times_row("st", 157_473, 1_000_000_000));
        assert(rows@ =~= weight_rows(base@));
        rows
    } else if same_text(base, "lb") || same_text(base, "lbs") {
        let mut rows: Vec<Row> = Vec::new();
        rows.push(times_row("kg", 453_592, 1_000_000));
        rows.push(times_row("g", 453_592, 1_000));
        rows.push(times_row("oz", 16, 1));
        rows.push(times_row("st", 714_286, 10_000_000));
        assert(rows@ =~= weight_rows(base@));
        rows
    } else if same_text(base, "oz") {
        let mut rows: Vec<Row> = Vec::new();
        rows.push(times_row("kg", 283_495, 10_000_000));
        rows.push(times_row("g", 283_495, 10_000));
        rows.push(times_row("lb", 625, 10_000));
        rows.push(times_row("st", 446_429, 100_000_000));
        assert(rows@ =~= weight_rows(base@));
        rows
    } else if same_text(base, "st") {
        let mut rows: Vec<Row> = Vec::new();
        rows.push(times_row("kg", 635_029, 100_000));
        rows.push(times_row("g", 635_029, 100));
        rows.push(times_row("lb", 14, 1));
        rows.push(times_row("oz", 224, 1));
        assert(rows@ =~= weight_rows(base@));
        rows
    } else {
        let rows: Vec<Row> = Vec::new();
        assert(rows@ =~= weight_rows(base@));
        rows
    }
}

/// The reply for a weight: the amount, then its value in every other unit of
/// weight.
pub fn convert(unit: &Unit) -> (out: String)
    ensures
        out@ == table_text(unit.value as int, unit.base@, weight_rows(unit.base@)),
{
    let rows = weight_table(unit.base.as_str());
    render(unit, &rows)
}

} // verus!

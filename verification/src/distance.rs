//! Lengths: metres, centimetres, millimetres, feet, inches and yards.

use crate::table::{divides, render, table_text, times, times_row, Row};
use crate::text::same_text;
use crate::unit::Unit;
use vstd::prelude::*;

verus! {

/// The units that a length is converted to, each with the factor from the
/// length's own unit as a fraction; no rows for a unit that is no length.
pub open spec fn distance_rows(base: Seq<char>) -> Seq<Row> {
    if base == "m"@ {
        seq![
            times("ft", 328_084, 100_000),
            times("in", 393_701, 10_000),
            times("yd", 109_361, 100_000),
        ]
    } else if base == "cm"@ {
        seq![
            times("ft", 328_084, 10_000_000),
            times("in", 393_701, 1_000_000),
            times("yd", 109_361, 10_000_000),
        ]
    } else if base == "mm"@ {
        seq![
            times("ft", 328_084, 100_000_000),
            times("in", 393_701, 10_000_000),
            times("yd", 109_361, 100_000_000),
        ]
    } else if base == "ft"@ {
        seq![
            times("m", 3_048, 10_000),
            times("cm", 3_048, 100),
            times("mm", 3_048, 10),
            times("in", 12, 1),
            times("yd", 333_333, 1_000_000),
        ]
    } else if base == "in"@ {
        seq![
            times("m", 254, 10_000),
            times("cm", 254, 100),
            times("mm", 254, 10),
            times("ft", 833_333, 10_000_000),
            times("yd", 277_778, 10_000_000),
        ]
    } else if base == "yd"@ {
        seq![
            times("m", 9_144, 10_000),
            times("cm", 9_144, 100),
            times("mm", 9_144, 10),
            times("ft", 3, 1),
            times("in", 36, 1),
        ]
    } else {
        Seq::<Row>::empty()
    }
}

/// The rows of the length table for a unit.
pub fn distance_table(base: &str) -> (rows: Vec<Row>)
    ensures
        rows@ == distance_rows(base@),
        divides(rows@),
{
    if same_text(base, "m") {
        let mut rows: Vec<Row> = Vec::new();
        rows.push(times_row("ft", 328_084, 100_000));
        rows.push(times_row("in", 393_701, 10_000));
        rows.push(times_row("yd", 109_361, 100_000));
        assert(rows@ =~= distance_rows(base@));
        rows
    } else if same_text(base, "cm") {
        let mut rows: Vec<Row> = Vec::new();
        rows.push(times_row("ft", 328_084, 10_000_000));
        rows.push(times_row("in", 393_701, 1_000_000));
        rows.push(times_row("yd", 109_361, 10_000_000));
        assert(rows@ =~= distance_rows(base@));
        rows
    } else if same_text(base, "mm") {
        let mut rows: Vec<Row> = Vec::new();
        rows.push(times_row("ft", 328_084, 100_000_000));
        rows.push(times_row("in", 393_701, 10_000_000));
        rows.push(times_row("yd", 109_361, 100_000_000));
        assert(rows@ =~= distance_rows(base@));
        rows
    } else if same_text(base, "ft") {
        let mut rows: Vec<Row> = Vec::new();
        rows.push(times_row("m", 3_048, 10_000));
        rows.push(times_row("cm", 3_048, 100));
        rows.push(times_row("mm", 3_048, 10));
        rows.push(times_row("in", 12, 1));
        rows.push(times_row("yd", 333_333, 1_000_000));
        assert(rows@ =~= distance_rows(base@));
        rows
    } else if same_text(base, "in") {
        let mut rows: Vec<Row> = Vec::new();
        rows.push(times_row("m", 254, 10_000));
        rows.push(times_row("cm", 254, 100));
        rows.push(times_row("mm", 254, 10));
        rows.push(times_row("ft", 833_333, 10_000_000));
        rows.push(times_row("yd", 277_778, 10_000_000));
        assert(rows@ =~= distance_rows(base@));
        rows
    } else if same_text(base, "yd") {
        let mut rows: Vec<Row> = Vec::new();
        rows.push(times_row("m", 9_144, 10_000));
        rows.push(times_row("cm", 9_144, 100));
        rows.push(times_row("mm", 9_144, 10));
        rows.push(times_row("ft", 3, 1));
        rows.push(times_row("in", 36, 1));
        assert(rows@ =~= distance_rows(base@));
        rows
    } else {
        let rows: Vec<Row> = Vec::new();
        assert(rows@ =~= distance_rows(base@));
        rows
    }
}

/// The reply for a length: the amount, then its value in the other units of
/// length.
pub fn convert(unit: &Unit) -> (out: String)
    ensures
        out@ == table_text(unit.value as int, unit.base@, distance_rows(unit.base@)),
{
    let rows = distance_table(unit.base.as_str());
    render(unit, &rows)
}

} // verus!

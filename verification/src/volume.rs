//! Volumes: litres, pints, barrels and the two gallons.

use crate::table::{divides, render, table_text, times, times_row, Row};
use crate::text::same_text;
use crate::unit::Unit;
use vstd::prelude::*;

verus! {

/// The units that a volume is converted to, each with the factor from the
/// volume's own unit as a fraction; no rows for a unit that is no volume.
pub open spec fn volume_rows(base: Seq<char>) -> Seq<Row> {
    if base == "L"@ || base == "l"@ {
        seq![
            times("pt", 211_338, 100_000),
            times("barrel", 628_981, 100_000_000),
            times("galUK", 219_969, 1_000_000),
            times("galUS", 264_172, 1_000_000),
        ]
    } else if base == "gal"@ || base == "galUS"@ {
        seq![
            times("L", 378_541, 100_000),
            times("pt", 8, 1),
            times("barrel", 238_095, 10_000_000),
            times("galUK", 832_674, 1_000_000),
        ]
    } else if base == "pt"@ {
        seq![
            times("L", 473_176, 1_000_000),
            times("barrel", 297_619, 100_000_000),
            times("galUK", 104_084, 1_000_000),
            times("galUS", 125, 1_000),
        ]
    } else if base == "barrel"@ {
        seq![
            times("L", 158_987, 1_000),
            times("galUS", 42, 1),
            times("pt", 336, 1),
            times("galUK", 832_674, 1_000_000),
        ]
    } else if base == "galUK"@ {
        seq![
            times("L", 454_609, 100_000),
            times("galUS", 120_095, 100_000),
            times("pt", 96_078, 10_000),
            times("barrel", 11_924, 100_000),
        ]
    } else {
        Seq::<Row>::empty()
    }
}

/// The rows of the volume table for a unit.
pub fn volume_table(base: &str) -> (rows: Vec<Row>)
    ensures
        rows@ == volume_rows(base@),
        divides(rows@),
{
    if same_text(base, "L") || same_text(base, "l") {
        let mut rows: Vec<Row> = Vec::new();
        rows.push(times_row("pt", 211_338, 100_000));
        rows.push(times_row("barrel", 628_981, 100_000_000));
        rows.push(times_row("galUK", 219_969, 1_000_000));
        rows.push(times_row("galUS", 264_172, 1_000_000));
        assert(rows@ =~= volume_rows(base@));
        rows
    } else if same_text(base, "gal") || same_text(base, "galUS") {
        let mut rows: Vec<Row> = Vec::new();
        rows.push(times_row("L", 378_541, 100_000));
        rows.push(times_row("pt", 8, 1));
        rows.push(times_row("barrel", 238_095, 10_000_000));
        rows.push(times_row("galUK", 832_674, 1_000_000));
        assert(rows@ =~= volume_rows(base@));
        rows
    } else if same_text(base, "pt") {
        let mut rows: Vec<Row> = Vec::new();
        rows.push(times_row("L", 473_176, 1_000_000));
        rows.push(times_row("barrel", 297_619, 100_000_000));
        rows.push(times_row("galUK", 104_084, 1_000_000));
        rows.push(times_row("galUS", 125, 1_000));
        assert(rows@ =~= volume_rows(base@));
        rows
    } else if same_text(base, "barrel") {
        let mut rows: Vec<Row> = Vec::new();
        rows.push(times_row("L", 158_987, 1_000));
        rows.push(times_row("galUS", 42, 1));
        rows.push(times_row("pt", 336, 1));
        rows.push(times_row("galUK", 832_674, 1_000_000));
        assert(rows@ =~= volume_rows(base@));
        rows
    } else if same_text(base, "galUK") {
        let mut rows: Vec<Row> = Vec::new();
        rows.push(times_row("L", 454_609, 100_000));
        rows.push(times_row("galUS", 120_095, 100_000));
        rows.push(times_row("pt", 96_078, 10_000));
        rows.push(times_row("barrel", 11_924, 100_000));
        assert(rows@ =~= volume_rows(base@));
        rows
    } else {
        let rows: Vec<Row> = Vec::new();
        assert(rows@ =~= volume_rows(base@));
        rows
    }
}

/// The reply for a volume: the amount, then its value in the other units of
/// volume.
pub fn convert(unit: &Unit) -> (out: String)
    ensures
        out@ == table_text(unit.value as int, unit.base@, volume_rows(unit.base@)),
{
    let rows = volume_table(unit.base.as_str());
    render(unit, &rows)
}

} // verus!

//! The entry points: a text is parsed and converted, and the outcome, reply
//! or error, becomes the one text to send back.

use crate::conversion_cache::CacheSnapshot;
use crate::currency::listed;
use crate::unit::{
    classified, convert_error_text, is_unit_outcome, parsed, ConvertError, Unit,
};
use vstd::prelude::*;

verus! {

/// Whether `out` is the outcome of converting a text: the error of parsing
/// it where it does not parse, else the outcome of converting the amount.
pub open spec fn is_text_outcome(
    out: Result<String, ConvertError>,
    text: Seq<char>,
    snapshot: CacheSnapshot,
    supported: Option<Seq<char>>,
    now: u64,
) -> bool {
    match parsed(classified(text)) {
        Ok((base, value)) => is_unit_outcome(out, value, base, snapshot, supported, now),
        Err(e) => out == Err::<String, ConvertError>(e),
    }
}

/// The one text that an outcome comes to: the reply, or the text of the
/// error.
pub open spec fn answer_text(outcome: Result<String, ConvertError>) -> Seq<char> {
    match outcome {
        Ok(report) => report@,
        Err(e) => convert_error_text(e),
    }
}

/// Parses a text such as `10 kg` or `5 EUR` and converts the amount to the
/// other units of its family.
pub fn convert(
    text: &str,
    snapshot: &CacheSnapshot,
    supported_currencies: Option<&str>,
    now: u64,
) -> (out: Result<String, ConvertError>)
    requires
        snapshot.table.wf(),
    ensures
        is_text_outcome(out, text@, *snapshot, listed(supported_currencies), now),
{
    match Unit::parse(text) {
        Ok(unit) => unit.convert(snapshot, supported_currencies, now),
        Err(e) => Err(e),
    }
}

/// The text of an outcome, whether it is a reply or an error.
pub fn answer(outcome: Result<String, ConvertError>) -> (out: String)
    ensures
        out@ == answer_text(outcome),
{
    match outcome {
        Ok(report) => report,
        Err(e) => e.message(),
    }
}

/// Converts a text and gives the reply or, where there is none, the text of
/// the error: there is always something to send back.
pub fn conversion(
    text: &str,
    snapshot: &CacheSnapshot,
    supported_currencies: Option<&str>,
    now: u64,
) -> (out: String)
    requires
        snapshot.table.wf(),
    ensures
        exists|outcome: Result<String, ConvertError>|
            is_text_outcome(outcome, text@, *snapshot, listed(supported_currencies), now) && out@
                == #[trigger] answer_text(outcome),
{
    let outcome = convert(text, snapshot, supported_currencies, now);
    let ghost kept = outcome;
    let out = answer(outcome);
    assert(out@ == answer_text(kept));
    out
}

} // verus!

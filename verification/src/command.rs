//! The commands of the chat surface and what each of them asks for.

use crate::conversion::{answer_text, conversion, is_text_outcome};
use crate::conversion_cache::CacheSnapshot;
use crate::currency::listed;
use crate::unit::ConvertError;
use vstd::prelude::*;

verus! {

/// A command as the chat surface hands it over.
#[derive(Debug, Clone, PartialEq, Eq)]
pub enum TCommand {
    /// Display the list of commands.
    Help,
    /// Convert the text that follows.
    Convert(String),
    /// Convert, in short.
    C(String),
    /// Throw a dice.
    Dice(String),
}

/// What is sent back for a command.
#[derive(Debug, Clone, PartialEq, Eq)]
pub enum Reply {
    /// The descriptions of the commands.
    Descriptions,
    /// A text, in reply to the message that held the command.
    Message(String),
    /// A dice.
    Dice,
}

/// Whether a text is the answer to the request to convert `text`.
pub open spec fn is_answer(
    out: Seq<char>,
    text: Seq<char>,
    snapshot: CacheSnapshot,
    supported: Option<Seq<char>>,
    now: u64,
) -> bool {
    exists|outcome: Result<String, ConvertError>|
        is_text_outcome(outcome, text, snapshot, supported, now) && out == #[trigger] answer_text(
            outcome,
        )
}

/// What to send back for a command: the descriptions for `Help`, a dice for
/// `Dice`, and for either form of `Convert` the conversion of its text, or
/// the text of the error where it cannot be converted.
pub fn answer(
    cmd: TCommand,
    snapshot: &CacheSnapshot,
    supported_currencies: Option<&str>,
    now: u64,
) -> (reply: Reply)
    requires
        snapshot.table.wf(),
    ensures
        match cmd {
            TCommand::Help => reply == Reply::Descriptions,
            TCommand::Dice(_) => reply == Reply::Dice,
            TCommand::Convert(text) | TCommand::C(text) => reply matches Reply::Message(out)
                && is_answer(out@, text@, *snapshot, listed(supported_currencies), now),
        },
{
    match cmd {
        TCommand::Help => Reply::Descriptions,
        TCommand::Convert(text) => Reply::Message(
            conversion(text.as_str(), snapshot, supported_currencies, now),
        ),
        TCommand::C(text) => Reply::Message(
            conversion(text.as_str(), snapshot, supported_currencies, now),
        ),
        TCommand::Dice(_) => Reply::Dice,
    }
}

} // verus!

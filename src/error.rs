//! The failures that the library reports.
use vstd::prelude::*;

verus! {

/// Every way in which extraction, a command or a class pick can fail.
#[derive(Debug)]
pub enum DeckError {
    /// The source text has no `module.exports = ` assignment.
    MarkerNotFound,
    /// The normalised text is not a JSON document; it carries that text.
    MalformedRecord(String),
    /// No card, or no card of the deck, matches the given name or id.
    CardNotFound,
    /// The first word of a command line names no registered command.
    UnknownCommand,
    /// The chosen class is none of the offered ones.
    InvalidClass,
    /// A rune answer is empty or is not one of B, F and U.
    InvalidRune,
    /// The answers ran out before a selection was complete.
    NoInput,
}

impl DeckError {
    /// A message for the user.
    pub fn message(&self) -> String {
        match self {
            DeckError::MarkerNotFound => String::from_str("module.exports not found."),
            DeckError::MalformedRecord(_) => String::from_str("Malformed card record."),
            DeckError::CardNotFound => String::from_str("Invalid Card."),
            DeckError::UnknownCommand => String::from_str("Could not find command."),
            DeckError::InvalidClass => String::from_str("Invalid class"),
            DeckError::InvalidRune => String::from_str("Invalid rune"),
            DeckError::NoInput => String::from_str("No more input."),
        }
    }
}

} // verus!

//! Card extraction and deck assembly for a card game's script-defined cards.
//!
//! `extract` turns a card's script source into the JSON text of its record,
//! `card` parses that text into a [`card::Card`], `repository` decides which
//! sources are loaded, `query` and `classes` filter and look up cards,
//! `picker` chooses a class and its runes, and `command` applies the deck
//! commands. `laws` states properties that relate these functions.
pub mod card;
pub mod classes;
pub mod command;
pub mod error;
pub mod extract;
pub mod laws;
pub mod picker;
pub mod query;
pub mod repository;
pub mod text;

//! The card record, as the plain values that the deck logic reads.
use vstd::prelude::*;
use crate::error::DeckError;
use crate::extract::{extract_json_from_card, extracted};

verus! {

/// A card record. The fields the deck logic reads are held as plain values;
/// `record` holds the whole record as compact JSON.
#[derive(Debug)]
pub struct Card {
    /// The `name` field, when it is a string.
    pub name: Option<String>,
    /// The `id` field written as JSON (`null` when it is missing).
    pub id: String,
    /// The `id` field, when it is a string.
    pub id_str: Option<String>,
    /// The `class` field, when it is a string.
    pub class: Option<String>,
    /// The `uncollectible` field, when it is a boolean.
    pub uncollectible: Option<bool>,
    /// The whole record as compact JSON.
    pub record: String,
}

pub struct CardView {
    pub name: Option<Seq<char>>,
    pub id: Seq<char>,
    pub id_str: Option<Seq<char>>,
    pub class: Option<Seq<char>>,
    pub uncollectible: Option<bool>,
    pub record: Seq<char>,
}

pub open spec fn opt_view(o: Option<String>) -> Option<Seq<char>> {
    match o {
        Some(s) => Some(s@),
        None => None,
    }
}

impl View for Card {
    type V = CardView;

    open spec fn view(&self) -> CardView {
        CardView {
            name: opt_view(self.name),
            id: self.id@,
            id_str: opt_view(self.id_str),
            class: opt_view(self.class),
            uncollectible: self.uncollectible,
            record: self.record@,
        }
    }
}

/// The views of a sequence of cards.
pub open spec fn views(cs: Seq<Card>) -> Seq<CardView> {
    cs.map_values(|c: Card| c@)
}

fn copy_opt(o: &Option<String>) -> (r: Option<String>)
    ensures
        opt_view(r) == opt_view(*o),
{
    match o {
        Some(s) => Some(s.clone()),
        None => None,
    }
}

impl Card {
    /// A copy of this card.
    pub fn duplicate(&self) -> (r: Card)
        ensures
            r@ == self@,
    {
        Card {
            name: copy_opt(&self.name),
            id: self.id.clone(),
            id_str: copy_opt(&self.id_str),
            class: copy_opt(&self.class),
            uncollectible: self.uncollectible,
            record: self.record.clone(),
        }
    }
}

/// What `serde_json` reads from a JSON text, as a card; `None` when the text
/// is not a JSON document.
pub uninterp spec fn card_from_json(text: Seq<char>) -> Option<CardView>;

/// Relies on `serde_json::from_str` into a `serde_json::Value`, which fails
/// exactly when the text is no JSON document; the fields are read with
/// `Value`'s `Index` by key, `as_str`, `as_bool` and `to_string`. The result
/// depends on the text alone.
#[verifier::external_body]
fn parse_json_card(text: &str) -> (r: Option<Card>)
    ensures
        match r {
            Some(c) => card_from_json(text@) == Some(c@),
            None => card_from_json(text@) is None,
        },
{
    let v: serde_json::Value = serde_json::from_str(text).ok()?;
    Some(Card {
        name: v["name"].as_str().map(String::from),
        id: v["id"].to_string(),
        id_str: v["id"].as_str().map(String::from),
        class: v["class"].as_str().map(String::from),
        uncollectible: v["uncollectible"].as_bool(),
        record: v.to_string(),
    })
}

/// The card that the JSON text `json` describes.
pub fn parse_card(json: &str) -> (r: Result<Card, DeckError>)
    ensures
        match card_from_json(json@) {
            Some(v) => r matches Ok(c) && c@ == v,
            None => r matches Err(DeckError::MalformedRecord(t)) && t@ == json@,
        },
{
    match parse_json_card(json) {
        Some(c) => Ok(c),
        None => Err(DeckError::MalformedRecord(String::from_str(json))),
    }
}

/// The card that a card source defines: its extracted JSON text, parsed.
pub fn extract_card(text: &str) -> (r: Result<Card, DeckError>)
    ensures
        match extracted(text@) {
            None => r matches Err(DeckError::MarkerNotFound),
            Some(j) => match card_from_json(j) {
                Some(v) => r matches Ok(c) && c@ == v,
                None => r matches Err(DeckError::MalformedRecord(t)) && t@ == j,
            },
        },
{
    let json = extract_json_from_card(text)?;
    parse_card(json.as_str())
}

} // verus!

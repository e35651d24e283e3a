use deck_creator::card::{extract_card, parse_card};
use deck_creator::error::DeckError;
use deck_creator::extract::extract_json_from_card;
use deck_creator::text::capitalize;

const WISP_SOURCE: &str = "// Created by the card creator\nmodule.exports = {\n    name: \"Wisp\",\n    stats: [1, 1],\n    desc: \"A tiny: spirit\", /* note */\n    id: 5,\n\n    battlecry(plr, game) {\n        // nothing\n    }\n}\n";

#[test]
fn extract_strips_comments_and_functions() {
    let json = extract_json_from_card(WISP_SOURCE).unwrap();
    assert_eq!(
        json,
        "{\n    \"name\": \"Wisp\",\n    \"stats\": [1, 1],\n    \"desc\": \"A tiny: spirit\", \n    \"id\": 5\n}"
    );
}

#[test]
fn extract_card_parses_the_record() {
    let card = extract_card(WISP_SOURCE).unwrap();
    assert_eq!(card.name.as_deref(), Some("Wisp"));
    assert_eq!(card.id, "5");
    assert_eq!(card.class, None);
    assert_eq!(card.uncollectible, None);
    assert!(card.record.contains("\"name\":\"Wisp\""));
}

#[test]
fn literal_without_blank_line_is_kept_whole() {
    let lit = "{\n    name: \"Coin\",\n    id: 7,\n    class: \"Neutral\"\n}";
    let text = format!("module.exports = {}", lit);
    let json = extract_json_from_card(&text).unwrap();
    assert_eq!(json, "{\n    \"name\": \"Coin\",\n    \"id\": 7,\n    \"class\": \"Neutral\"\n}");
    let direct = parse_card("{\"name\": \"Coin\", \"id\": 7, \"class\": \"Neutral\"}").unwrap();
    let extracted = extract_card(&text).unwrap();
    assert_eq!(extracted.record, direct.record);
    assert_eq!(extracted.name, direct.name);
    assert_eq!(extracted.id, direct.id);
}

#[test]
fn trailing_comma_before_brace_is_removed() {
    let json = extract_json_from_card("module.exports = {\n    id: 1,\n}").unwrap();
    assert_eq!(json, "{\n    \"id\": 1\n}");
}

#[test]
fn missing_marker_fails() {
    let r = extract_json_from_card("exports = {\n    id: 1\n}");
    assert!(matches!(r, Err(DeckError::MarkerNotFound)));
    let r = extract_card("");
    assert!(matches!(r, Err(DeckError::MarkerNotFound)));
}

#[test]
fn marker_inside_a_comment_does_not_count() {
    let r = extract_json_from_card("// module.exports = {\n/* module.exports = */ {}");
    assert!(matches!(r, Err(DeckError::MarkerNotFound)));
}

#[test]
fn unclosed_block_comment_is_text() {
    let json = extract_json_from_card("module.exports = {\n    desc: \"a /* b\"\n}").unwrap();
    assert_eq!(json, "{\n    \"desc\": \"a /* b\"\n}");
}

#[test]
fn malformed_record_carries_the_text() {
    let r = extract_card("module.exports = {\n    name: [\n}");
    match r {
        Err(DeckError::MalformedRecord(t)) => assert_eq!(t, "{\n    \"name\": [\n}"),
        other => panic!("unexpected: {:?}", other),
    }
}

#[test]
fn crlf_blank_line_is_a_boundary() {
    let json = extract_json_from_card("module.exports = {\r\n    id: 3,\r\n\r\n    f() {}\r\n}").unwrap();
    assert_eq!(json, "{\r\n    \"id\": 3\n}");
}

#[test]
fn capitalize_words() {
    assert_eq!(capitalize("death"), "Death");
    assert_eq!(capitalize("mAGE"), "Mage");
    assert_eq!(capitalize(""), "");
    assert_eq!(capitalize("é"), "É");
}

#[test]
fn unicode_whitespace_is_trimmed() {
    let json = extract_json_from_card("\u{a0}module.exports = {\n    id: \"x\"\n}\u{3000}").unwrap();
    assert_eq!(json, "{\n    \"id\": \"x\"\n}");
    let card = extract_card("module.exports = {\n    id: \"x\"\n}").unwrap();
    assert_eq!(card.id, "\"x\"");
}

#[test]
fn later_marker_ends_the_literal() {
    let json = extract_json_from_card("module.exports = {\n    id: 2\n}\nmodule.exports = {}").unwrap();
    assert_eq!(json, "{\n    \"id\": 2\n}");
}

#[test]
fn crlf_literal_without_methods_loses_its_comma() {
    let text = "module.exports = {\r\n    id: 1,\r\n}";
    let json = extract_json_from_card(text).unwrap();
    assert_eq!(json, "{\r\n    \"id\": 1\n}");
    assert_eq!(extract_card(text).unwrap().id, "1");
}

#[test]
fn indented_brace_loses_the_comma() {
    let json = extract_json_from_card("module.exports = {\n    id: 1,\n  }").unwrap();
    assert_eq!(json, "{\n    \"id\": 1\n}");
}

#[test]
fn every_dangling_comma_goes() {
    assert_eq!(extract_json_from_card("module.exports = {1,}").unwrap(), "{1\n}");
    assert_eq!(extract_json_from_card("module.exports = {\n    id: 1,,\n}").unwrap(), "{\n    \"id\": 1\n}");
    assert_eq!(extract_json_from_card("module.exports = {\n    id: 1, ,").unwrap(), "{\n    \"id\": 1\n}");
    assert_eq!(extract_json_from_card("module.exports = {}").unwrap(), "{\n}");
}

#[test]
fn literal_with_final_comma_parses_like_the_literal() {
    let card = extract_card("module.exports = {\n    name: \"Coin\",\n    id: 7,\n}").unwrap();
    let direct = parse_card("{\"name\": \"Coin\", \"id\": 7}").unwrap();
    assert_eq!(card.record, direct.record);
}

#[test]
fn string_id_is_kept_as_text() {
    let card = parse_card("{\"id\": \"abc\"}").unwrap();
    assert_eq!(card.id, "\"abc\"");
    assert_eq!(card.id_str.as_deref(), Some("abc"));
    let card = parse_card("{\"id\": 4}").unwrap();
    assert_eq!(card.id_str, None);
}

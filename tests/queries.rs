use deck_creator::card::{parse_card, Card};
use deck_creator::classes::find_classes;
use deck_creator::query::{
    card_id_text, card_line, filter_cards, filter_uncollectible, find_card, find_card_index,
    first_match_folded, page_bounds,
    setup_cards,
};

fn card(json: &str) -> Card {
    parse_card(json).unwrap()
}

fn sample() -> Vec<Card> {
    vec![
        card("{\"name\": \"Fireball\", \"id\": 22, \"class\": \"Mage\"}"),
        card("{\"name\": \"Wisp\", \"id\": 1, \"class\": \"Neutral\"}"),
        card("{\"name\": \"Mage Starting Hero\", \"id\": 90, \"class\": \"Mage\", \"uncollectible\": true}"),
        card("{\"name\": \"Druid Starting Hero\", \"id\": 91, \"class\": \"Druid\", \"uncollectible\": true}"),
        card("{\"name\": \"Moonfire\", \"id\": 30, \"class\": \"Druid\", \"uncollectible\": false}"),
        card("{\"name\": \"Neutral Thing\", \"id\": 31, \"class\": \"Neutral Mage Friends\"}"),
    ]
}

fn names(cards: &[Card]) -> Vec<String> {
    cards.iter().map(|c| c.name.clone().unwrap_or_default()).collect()
}

#[test]
fn filter_always_true_is_identity() {
    let cards = sample();
    let all = filter_cards(&cards, &|_c: &Card| true);
    assert_eq!(names(&all), names(&cards));
    let records: Vec<String> = all.iter().map(|c| c.record.clone()).collect();
    let expected: Vec<String> = cards.iter().map(|c| c.record.clone()).collect();
    assert_eq!(records, expected);
}

#[test]
fn filter_always_false_is_empty() {
    let cards = sample();
    assert!(filter_cards(&cards, &|_c: &Card| false).is_empty());
}

#[test]
fn filter_keeps_order() {
    let cards = sample();
    let ids = filter_cards(&cards, &|c: &Card| c.id.len() == 2);
    assert_eq!(names(&ids), vec!["Fireball", "Mage Starting Hero", "Druid Starting Hero", "Moonfire", "Neutral Thing"]);
}

#[test]
fn uncollectible_cards_are_dropped() {
    let cards = sample();
    let kept = filter_uncollectible(&cards);
    assert_eq!(names(&kept), vec!["Fireball", "Wisp", "Moonfire", "Neutral Thing"]);
}

#[test]
fn find_classes_sorted() {
    let cards = sample();
    assert_eq!(find_classes(&cards), vec!["Druid".to_string(), "Mage".to_string()]);
}

#[test]
fn find_classes_dedups_and_needs_suffix() {
    let cards = vec![
        card("{\"name\": \"Warrior Starting Hero\"}"),
        card("{\"name\": \"Warrior Starting Hero\", \"id\": 2}"),
        card("{\"name\": \"Starting Hero Card\"}"),
        card("{\"name\": \"Death Knight Starting Hero\"}"),
        card("{\"id\": 4}"),
    ];
    assert_eq!(find_classes(&cards), vec!["Death Knight".to_string(), "Warrior".to_string()]);
    assert!(find_classes(&[]).is_empty());
}

#[test]
fn find_card_by_name_and_id_agree() {
    let cards = sample();
    let by_name = find_card(&cards, "Fireball").unwrap();
    let by_id = find_card(&cards, "22").unwrap();
    assert_eq!(by_name.record, by_id.record);
    assert_eq!(by_name.name.as_deref(), Some("Fireball"));
}

#[test]
fn find_card_ignores_case_of_name_only() {
    let cards = sample();
    assert_eq!(find_card(&cards, "fIREBALL").unwrap().id, "22");
    assert_eq!(find_card_index(&cards, "wisp"), Some(1));
    assert!(find_card(&cards, "Nonexistent").is_none());
    assert_eq!(find_card_index(&cards, "1"), Some(1));
}

#[test]
fn setup_cards_keeps_class_and_neutral_exactly() {
    let cards = sample();
    let mage = setup_cards(&cards, &"Mage".to_string());
    assert_eq!(names(&mage), vec!["Fireball", "Wisp"]);
    let druid = setup_cards(&cards, &"Druid".to_string());
    assert_eq!(names(&druid), vec!["Wisp", "Moonfire"]);
}

#[test]
fn card_line_shows_name_and_id() {
    let cards = sample();
    assert_eq!(card_line(&cards[0]), "Fireball - 22");
    assert_eq!(card_line(&card("{\"id\": \"x\"}")), " - \"x\"");
}

#[test]
fn page_bounds_cut_at_length() {
    assert_eq!(page_bounds(40, 1), (0, 15));
    assert_eq!(page_bounds(40, 3), (30, 40));
    assert_eq!(page_bounds(10, 1), (0, 10));
    assert_eq!(page_bounds(10, 2), (10, 10));
}

#[test]
fn find_card_by_string_id() {
    let cards = vec![
        card("{\"name\": \"Coin\", \"id\": \"coin-1\"}"),
        card("{\"name\": \"Wisp\", \"id\": 1}"),
    ];
    assert_eq!(find_card(&cards, "coin-1").unwrap().name.as_deref(), Some("Coin"));
    assert!(find_card(&cards, "\"coin-1\"").is_none());
    assert_eq!(find_card(&cards, "1").unwrap().name.as_deref(), Some("Wisp"));
    assert!(find_card(&cards, "COIN-1").is_none());
}

#[test]
fn first_match_on_folded_names() {
    let cards = vec![
        card("{\"name\": \"Fireball\", \"id\": 22}"),
        card("{\"name\": \"Wisp\", \"id\": 1}"),
    ];
    let folds = vec!["fireball".to_string(), "wisp".to_string()];
    assert_eq!(first_match_folded(&cards, &folds, &"wisp".to_string(), &"Wisp".to_string()), Some(1));
    assert_eq!(first_match_folded(&cards, &folds, &"x".to_string(), &"22".to_string()), Some(0));
    assert_eq!(first_match_folded(&cards, &folds, &"x".to_string(), &"x".to_string()), None);
    assert_eq!(card_id_text(&card("{\"id\": \"q\"}")), "q");
    assert_eq!(card_id_text(&cards[0]), "22");
}
